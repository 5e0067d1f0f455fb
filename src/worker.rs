use vstd::prelude::*;
use vstd::string::*;

use crate::error::DiskioError;
use crate::human::{decimal_digits, decimal_text};
use crate::stats::{closing_sample, Stats, WINDOW_US};

verus! {

/// The byte that fills a write buffer.
pub const FILL: u8 = 0xAB;

/// The bytes each of `nthreads` writers owes when `data_size` bytes are shared out;
/// the remainder is dropped.
pub fn worker_quota(data_size: i64, nthreads: i64) -> (r: i64)
    requires
        data_size >= 0,
        nthreads >= 1,
    ensures
        r == data_size / nthreads,
        r >= 0,
{
    data_size / nthreads
}

/// Shared out among `n` writers, `d` bytes give each `d / n`: `n * (d / n)` in all, at
/// most `d`, and exactly `d` where `n` divides `d`.
pub proof fn lemma_quota_total(d: i64, n: i64)
    requires
        d >= 0,
        n >= 1,
    ensures
        n * (d / n) <= d,
        d % n == 0 ==> n * (d / n) == d,
        d - n * (d / n) < n,
{
    vstd::arithmetic::div_mod::lemma_fundamental_div_mod(d as int, n as int);
}

/// The state of one writer: its buffer, the bytes it still owes, and its samples.
pub struct Context {
    block: Vec<u8>,
    data_size: i64,
    quota: i64,
    stats: Stats,
}

impl Context {
    /// The buffer written by each operation.
    pub closed spec fn buffer(&self) -> Seq<u8> {
        self.block@
    }

    /// The bytes still owed; at or below zero once the writer is done.
    pub closed spec fn remaining(&self) -> int {
        self.data_size as int
    }

    /// The samples gathered so far.
    pub closed spec fn samples_of(&self) -> Stats {
        self.stats
    }

    /// The bytes in the open throughput window never exceed what has been written,
    /// which stays below twice the quota.
    pub closed spec fn wf(&self) -> bool {
        &&& 0 < self.block@.len() <= i64::MAX
        &&& self.quota >= 0
        &&& self.data_size <= self.quota
        &&& self.stats.pending() <= self.quota - self.data_size
    }

    /// A writer that owes `data_size` bytes, written `block_size` bytes at a time.
    pub fn new(block_size: i64, data_size: i64) -> (r: Context)
        requires
            0 < block_size <= usize::MAX,
            data_size >= 0,
        ensures
            r.wf(),
            r.buffer() == Seq::new(block_size as nat, |i: int| FILL),
            r.remaining() == data_size,
            r.samples_of().latencies() == Seq::<u64>::empty(),
            r.samples_of().samples() == Seq::<u64>::empty(),
    {
        let n = block_size as usize;
        let mut block: Vec<u8> = Vec::new();
        let mut i: usize = 0;
        while i < n
            invariant
                i <= n,
                block@ == Seq::new(i as nat, |j: int| FILL),
            decreases n - i,
        {
            block.push(FILL);
            i += 1;
            assert(block@ =~= Seq::new(i as nat, |j: int| FILL));
        }
        Context { block, data_size, quota: data_size, stats: Stats::new() }
    }

    /// The buffer that each write hands over whole.
    pub fn block(&self) -> (r: &Vec<u8>)
        ensures
            r@ == self.buffer(),
    {
        &self.block
    }

    /// Whether another write is owed.
    pub fn has_quota(&self) -> (r: bool)
        ensures
            r == (self.remaining() > 0),
    {
        self.data_size > 0
    }

    /// Judges what a write of the buffer returned: the number of bytes written, or the
    /// write's error as text. Anything but the whole buffer is an error.
    pub fn check_write(&self, res: Result<usize, String>) -> (r: Result<(), DiskioError>)
        ensures
            r is Ok <==> res == Ok::<usize, String>(self.buffer().len() as usize),
            res is Ok && r is Err ==> r->Err_0.0@ == "partial write "@ + decimal_digits(
                res->Ok_0 as nat,
            ),
            res is Err ==> r->Err_0.0@ == "invalid write "@ + res->Err_0@,
    {
        match res {
            Ok(n) => {
                if n == self.block.len() {
                    Ok(())
                } else {
                    let mut msg = String::from_str("partial write ");
                    let digits = decimal_text(n as u64);
                    msg.append(digits.as_str());
                    Err(DiskioError(msg))
                }
            },
            Err(e) => {
                let msg = String::from_str("invalid write ").concat(e.as_str());
                Err(DiskioError(msg))
            },
        }
    }

    /// Accounts for one durable write of the buffer that took `latency_us`
    /// microseconds, `window_us` microseconds into the current throughput window: the
    /// bytes owed drop by the buffer's length, and the samples are recorded as
    /// `Stats::record` describes. Returns whether the window closed.
    pub fn record_op(&mut self, window_us: u64, latency_us: u64) -> (closed: bool)
        requires
            old(self).wf(),
            old(self).remaining() > 0,
        ensures
            final(self).wf(),
            final(self).buffer() == old(self).buffer(),
            final(self).remaining() == old(self).remaining() - old(self).buffer().len(),
            closed == (window_us >= WINDOW_US),
            final(self).samples_of().latencies() == old(self).samples_of().latencies().push(
                latency_us,
            ),
            closed ==> final(self).samples_of().samples() == old(self).samples_of().samples().push(
                closing_sample(old(self).samples_of().samples(), old(self).samples_of().pending()),
            ),
            !closed ==> final(self).samples_of().samples() == old(self).samples_of().samples(),
    {
        let n = self.block.len() as i64;
        self.data_size = self.data_size - n;
        self.stats.record(window_us, latency_us, n as u64)
    }

    /// Accounts for one durable write of the buffer that began at `start`: the bytes
    /// owed drop by the buffer's length, and the operation is recorded by
    /// `Stats::click`, whose failure is handed on.
    pub fn complete(&mut self, start: std::time::SystemTime) -> (r: Result<(), DiskioError>)
        requires
            old(self).wf(),
            old(self).remaining() > 0,
        ensures
            final(self).wf(),
            final(self).buffer() == old(self).buffer(),
            final(self).remaining() == old(self).remaining() - old(self).buffer().len(),
            r is Err ==> final(self).samples_of().latencies() == old(self).samples_of().latencies()
                && final(self).samples_of().samples() == old(self).samples_of().samples(),
            r is Ok ==> exists|latency_us: u64|
                final(self).samples_of().latencies() == old(self).samples_of().latencies().push(
                    latency_us,
                ),
            r is Ok ==> final(self).samples_of().samples() == old(self).samples_of().samples()
                || final(self).samples_of().samples() == old(self).samples_of().samples().push(
                closing_sample(old(self).samples_of().samples(), old(self).samples_of().pending()),
            ),
    {
        let ghost before = self.samples_of().latencies();
        let n = self.block.len() as i64;
        self.data_size = self.data_size - n;
        let r = self.stats.click(start, n as u64);
        proof {
            if r is Ok {
                let l = choose|l: u64| self.stats.latencies() == before.push(l);
                assert(self.samples_of().latencies() == before.push(l));
                assert(exists|x: u64| self.samples_of().latencies() == before.push(x));
            }
        }
        r
    }

    /// The samples of a finished writer.
    pub fn into_stats(self) -> (r: Stats)
        ensures
            r == self.samples_of(),
    {
        self.stats
    }
}

} // verus!
