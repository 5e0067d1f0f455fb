use vstd::prelude::*;

use crate::error::DiskioError;

verus! {

#[verifier::external_type_specification]
#[verifier::external_body]
pub struct ExSystemTime(std::time::SystemTime);

/// Relies on `SystemTime::now`: the wall-clock time of the call.
#[verifier::external_body]
fn now() -> std::time::SystemTime {
    std::time::SystemTime::now()
}

/// Relies on `SystemTime::elapsed`: the whole microseconds from `t` to the call, or an
/// error where the clock now reads earlier than `t`.
#[verifier::external_body]
fn micros_since(t: &std::time::SystemTime) -> (r: Result<u128, DiskioError>) {
    match t.elapsed() {
        Ok(d) => Ok(d.as_micros()),
        Err(e) => Err(DiskioError(e.to_string())),
    }
}

/// Microseconds in one second: the width of a throughput window.
pub const WINDOW_US: u64 = 1_000_000;

/// The throughput sample that closes a window: the bytes of the window averaged with
/// the previous sample, or the bytes alone for the first sample.
pub open spec fn closing_sample(prev: Seq<u64>, pending: u64) -> u64 {
    if prev.len() == 0 {
        pending
    } else {
        ((prev.last() + pending) / 2) as u64
    }
}

/// Entry `i` of `a`, or zero past its end.
pub open spec fn at_or_zero(a: Seq<u64>, i: int) -> int {
    if 0 <= i < a.len() {
        a[i] as int
    } else {
        0
    }
}

pub open spec fn longest(a: Seq<u64>, b: Seq<u64>) -> nat {
    if a.len() >= b.len() {
        a.len()
    } else {
        b.len()
    }
}

/// Whether the entrywise sums of `a` and `b`, the shorter padded with zeros, fit in a `u64`.
pub open spec fn summable(a: Seq<u64>, b: Seq<u64>) -> bool {
    forall|i: int| 0 <= i < longest(a, b) ==> at_or_zero(a, i) + at_or_zero(b, i) <= u64::MAX
}

/// The entrywise sums of `a` and `b`, the shorter padded with zeros.
pub open spec fn sum_aligned(a: Seq<u64>, b: Seq<u64>) -> Seq<u64> {
    Seq::new(longest(a, b), |i: int| (at_or_zero(a, i) + at_or_zero(b, i)) as u64)
}

/// The latency and throughput samples of one writer.
#[derive(Debug)]
pub struct Stats {
    tp_second: std::time::SystemTime,
    tp_current: u64,
    pub sync_latencies: Vec<u64>,
    pub throughputs: Vec<u64>,
}

impl Stats {
    /// The latency samples, in microseconds, in the order the operations completed.
    pub closed spec fn latencies(&self) -> Seq<u64> {
        self.sync_latencies@
    }

    /// The throughput samples, one per closed window.
    pub closed spec fn samples(&self) -> Seq<u64> {
        self.throughputs@
    }

    /// The bytes counted in the current, still open, throughput window.
    pub closed spec fn pending(&self) -> u64 {
        self.tp_current
    }

    /// A collector with no samples, whose first window opens now.
    pub fn new() -> (r: Stats)
        ensures
            r.latencies() == Seq::<u64>::empty(),
            r.samples() == Seq::<u64>::empty(),
            r.pending() == 0,
    {
        Stats { tp_second: now(), tp_current: 0, sync_latencies: Vec::new(), throughputs: Vec::new() }
    }

    /// Records one operation of `size` bytes that took `latency_us` microseconds,
    /// `window_us` microseconds after the current window opened. A window of a second
    /// or more is closed with a new throughput sample, and the operation's bytes are not
    /// counted; otherwise they are added to the window. Returns whether the window closed.
    pub fn record(&mut self, window_us: u64, latency_us: u64, size: u64) -> (closed: bool)
        requires
            window_us >= WINDOW_US || old(self).pending() + size <= u64::MAX,
        ensures
            closed == (window_us >= WINDOW_US),
            final(self).latencies() == old(self).latencies().push(latency_us),
            closed ==> final(self).samples() == old(self).samples().push(
                closing_sample(old(self).samples(), old(self).pending()),
            ),
            closed ==> final(self).pending() == 0,
            !closed ==> final(self).samples() == old(self).samples(),
            !closed ==> final(self).pending() == old(self).pending() + size,
    {
        let closed = window_us >= WINDOW_US;
        if closed {
            let n = self.throughputs.len();
            let sample = if n == 0 {
                self.tp_current
            } else {
                let prev = self.throughputs[n - 1];
                prev / 2 + self.tp_current / 2 + (prev % 2 + self.tp_current % 2) / 2
            };
            self.throughputs.push(sample);
            self.tp_current = 0;
        } else {
            self.tp_current = self.tp_current + size;
        }
        self.sync_latencies.push(latency_us);
        closed
    }

    /// Records one operation of `size` bytes that began at `start`, reading the clock for
    /// its latency and for the age of the current window, as `record` describes; a closed
    /// window is followed by a new one that opens now. Fails, with nothing recorded,
    /// where the clock reads earlier than `start` or than the window's opening, or the
    /// latency does not fit in a `u64`.
    pub fn click(&mut self, start: std::time::SystemTime, size: u64) -> (r: Result<(), DiskioError>)
        requires
            old(self).pending() + size <= u64::MAX,
        ensures
            r is Err ==> final(self).latencies() == old(self).latencies()
                && final(self).samples() == old(self).samples()
                && final(self).pending() == old(self).pending(),
            r is Ok ==> exists|latency_us: u64|
                final(self).latencies() == old(self).latencies().push(latency_us),
            r is Ok ==> (final(self).samples() == old(self).samples() && final(self).pending()
                == old(self).pending() + size) || (final(self).samples()
                == old(self).samples().push(
                closing_sample(old(self).samples(), old(self).pending()),
            ) && final(self).pending() == 0),
    {
        let window = micros_since(&self.tp_second)?;
        let latency = micros_since(&start)?;
        if self.record_reading(window, latency, size)? {
            self.tp_second = now();
        }
        Ok(())
    }

    /// Records one operation of `size` bytes from clock readings in microseconds: its
    /// latency, and the age of the current window, which is capped at `u64::MAX`. A
    /// latency beyond `u64::MAX` is an error, with nothing recorded; otherwise the
    /// operation is recorded as `record` describes, and whether the window closed is
    /// returned.
    pub fn record_reading(&mut self, window_us: u128, latency_us: u128, size: u64) -> (r: Result<
        bool,
        DiskioError,
    >)
        requires
            old(self).pending() + size <= u64::MAX,
        ensures
            r is Err <==> latency_us > u64::MAX,
            r is Err ==> *final(self) == *old(self),
            r is Ok ==> r->Ok_0 == (window_us >= WINDOW_US),
            r is Ok ==> final(self).latencies() == old(self).latencies().push(latency_us as u64),
            r matches Ok(true) ==> final(self).samples() == old(self).samples().push(
                closing_sample(old(self).samples(), old(self).pending()),
            ) && final(self).pending() == 0,
            r matches Ok(false) ==> final(self).samples() == old(self).samples()
                && final(self).pending() == old(self).pending() + size,
    {
        if latency_us > u64::MAX as u128 {
            return Err(DiskioError(String::from_str("latency out of range")));
        }
        let window: u64 = if window_us > u64::MAX as u128 {
            u64::MAX
        } else {
            window_us as u64
        };
        Ok(self.record(window, latency_us as u64, size))
    }

    /// Whether the throughput samples of `other` can be added to these without overflow.
    pub fn can_join(&self, other: &Stats) -> (r: bool)
        ensures
            r == summable(self.samples(), other.samples()),
    {
        let a = &self.throughputs;
        let b = &other.throughputs;
        let n = if a.len() >= b.len() {
            a.len()
        } else {
            b.len()
        };
        let mut i: usize = 0;
        while i < n
            invariant
                n == longest(a@, b@),
                a@ == self.samples(),
                b@ == other.samples(),
                i <= n,
                forall|j: int|
                    0 <= j < i ==> #[trigger] at_or_zero(a@, j) + at_or_zero(b@, j) <= u64::MAX,
            decreases n - i,
        {
            let x: u64 = if i < a.len() {
                a[i]
            } else {
                0
            };
            let y: u64 = if i < b.len() {
                b[i]
            } else {
                0
            };
            if x > u64::MAX - y {
                assert(at_or_zero(a@, i as int) + at_or_zero(b@, i as int) > u64::MAX);
                assert(!summable(a@, b@));
                return false;
            }
            i += 1;
        }
        true
    }

    /// Adds the samples of `other`: its latencies follow these, and its throughput
    /// samples are added entry by entry, the shorter series padded with zeros.
    pub fn join(&mut self, other: Stats)
        requires
            summable(old(self).samples(), other.samples()),
        ensures
            final(self).latencies() == old(self).latencies() + other.latencies(),
            final(self).samples() == sum_aligned(old(self).samples(), other.samples()),
            final(self).pending() == old(self).pending(),
            final(self).latencies().len() == old(self).latencies().len()
                + other.latencies().len(),
            final(self).samples().len() == longest(old(self).samples(), other.samples()),
            forall|i: int|
                0 <= i < old(self).samples().len() && i < other.samples().len()
                    ==> #[trigger] final(self).samples()[i] == old(self).samples()[i]
                    + other.samples()[i],
            forall|i: int|
                other.samples().len() <= i < old(self).samples().len()
                    ==> #[trigger] final(self).samples()[i] == old(self).samples()[i],
            forall|i: int|
                old(self).samples().len() <= i < other.samples().len()
                    ==> #[trigger] final(self).samples()[i] == other.samples()[i],
    {
        let ghost lat0 = self.latencies();
        let ghost tp0 = self.samples();
        let mut k: usize = 0;
        while k < other.sync_latencies.len()
            invariant
                k <= other.sync_latencies.len(),
                self.latencies() == lat0 + other.latencies().subrange(0, k as int),
                self.samples() == tp0,
                self.tp_current == old(self).tp_current,
            decreases other.sync_latencies.len() - k,
        {
            self.sync_latencies.push(other.sync_latencies[k]);
            k += 1;
            assert(self.latencies() =~= lat0 + other.latencies().subrange(0, k as int));
        }
        assert(other.latencies().subrange(0, k as int) =~= other.latencies());
        let n = self.throughputs.len();
        let m = other.throughputs.len();
        let mut i: usize = 0;
        while i < m
            invariant
                n == tp0.len(),
                m == other.samples().len(),
                i <= m,
                summable(tp0, other.samples()),
                self.samples().len() == if i >= n {
                    i as nat
                } else {
                    n as nat
                },
                forall|j: int|
                    0 <= j < i ==> #[trigger] self.samples()[j] == at_or_zero(tp0, j)
                        + at_or_zero(other.samples(), j),
                forall|j: int| i <= j < n ==> #[trigger] self.samples()[j] == tp0[j],
                self.latencies() == lat0 + other.latencies(),
                self.tp_current == old(self).tp_current,
            decreases m - i,
        {
            assert(at_or_zero(tp0, i as int) + at_or_zero(other.samples(), i as int) <= u64::MAX);
            if i < n {
                let v = self.throughputs[i] + other.throughputs[i];
                self.throughputs.set(i, v);
            } else {
                self.throughputs.push(other.throughputs[i]);
            }
            i += 1;
        }
        assert(self.samples() =~= sum_aligned(tp0, other.samples()));
    }
}

/// Joining collectors with `m` and `n` latency samples gives `m + n` of them; joining
/// throughput series of lengths `p <= q` gives `q` samples, the first `p` the entrywise
/// sums and the rest those of the longer series, whichever side the longer one is on.
pub proof fn lemma_join_shape(lat_a: Seq<u64>, lat_b: Seq<u64>, tp_a: Seq<u64>, tp_b: Seq<u64>)
    requires
        summable(tp_a, tp_b),
    ensures
        (lat_a + lat_b).len() == lat_a.len() + lat_b.len(),
        sum_aligned(tp_a, tp_b).len() == longest(tp_a, tp_b),
        sum_aligned(tp_b, tp_a) == sum_aligned(tp_a, tp_b),
        tp_a.len() <= tp_b.len() ==> forall|i: int|
            0 <= i < tp_a.len() ==> #[trigger] sum_aligned(tp_a, tp_b)[i] == tp_a[i] + tp_b[i],
        tp_a.len() <= tp_b.len() ==> forall|i: int|
            tp_a.len() <= i < tp_b.len() ==> #[trigger] sum_aligned(tp_a, tp_b)[i] == tp_b[i],
        tp_b.len() <= tp_a.len() ==> forall|i: int|
            tp_b.len() <= i < tp_a.len() ==> #[trigger] sum_aligned(tp_a, tp_b)[i] == tp_a[i],
{
    assert(sum_aligned(tp_b, tp_a) =~= sum_aligned(tp_a, tp_b));
}

} // verus!
