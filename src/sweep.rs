use vstd::prelude::*;

use crate::error::DiskioError;
use crate::size::{expand, SizeValue};
use crate::stats::{sum_aligned, summable, Stats};

verus! {

/// The sweep points, as (data size, block size): every data size in turn, each with
/// every block size.
pub open spec fn sweep(datas: Seq<i64>, blocks: Seq<i64>) -> Seq<(i64, i64)>
    decreases datas.len(),
{
    if datas.len() == 0 {
        Seq::empty()
    } else {
        sweep(datas.drop_last(), blocks) + blocks.map_values(|b: i64| (datas.last(), b))
    }
}

/// The sweep points of the data sizes `datas` and the block sizes `blocks`.
pub fn sweep_points(datas: &Vec<i64>, blocks: &Vec<i64>) -> (r: Vec<(i64, i64)>)
    ensures
        r@ == sweep(datas@, blocks@),
{
    let mut r: Vec<(i64, i64)> = Vec::new();
    let mut i: usize = 0;
    assert(datas@.subrange(0, 0) =~= Seq::<i64>::empty());
    while i < datas.len()
        invariant
            i <= datas.len(),
            r@ == sweep(datas@.subrange(0, i as int), blocks@),
        decreases datas.len() - i,
    {
        let ghost before = r@;
        let d = datas[i];
        let mut j: usize = 0;
        while j < blocks.len()
            invariant
                j <= blocks.len(),
                i < datas.len(),
                d == datas@[i as int],
                r@ == before + blocks@.subrange(0, j as int).map_values(|b: i64| (d, b)),
            decreases blocks.len() - j,
        {
            r.push((d, blocks[j]));
            j += 1;
            assert(r@ =~= before + blocks@.subrange(0, j as int).map_values(|b: i64| (d, b)));
        }
        assert(blocks@.subrange(0, j as int) =~= blocks@);
        assert(datas@.subrange(0, i + 1).drop_last() =~= datas@.subrange(0, i as int));
        i += 1;
    }
    assert(datas@.subrange(0, i as int) =~= datas@);
    r
}

/// There are as many sweep points as data sizes times block sizes, so none where
/// either list is empty.
pub proof fn lemma_sweep_len(datas: Seq<i64>, blocks: Seq<i64>)
    ensures
        sweep(datas, blocks).len() == datas.len() * blocks.len(),
        datas.len() == 0 || blocks.len() == 0 ==> sweep(datas, blocks).len() == 0,
    decreases datas.len(),
{
    if datas.len() > 0 {
        lemma_sweep_len(datas.drop_last(), blocks);
        assert(datas.len() * blocks.len() == (datas.len() - 1) * blocks.len() + blocks.len())
            by (nonlinear_arith);
    }
    assert(datas.len() == 0 || blocks.len() == 0 ==> datas.len() * blocks.len() == 0)
        by (nonlinear_arith);
}

/// An empty size argument expands to no sizes, whatever the menu, and an empty list
/// of sizes on either axis leaves no sweep points.
pub proof fn lemma_empty_axis(menu: Seq<i64>, datas: Seq<i64>, blocks: Seq<i64>)
    ensures
        expand(SizeValue::Empty, menu) == Seq::<i64>::empty(),
        sweep(Seq::empty(), blocks) == Seq::<(i64, i64)>::empty(),
        sweep(datas, Seq::empty()) == Seq::<(i64, i64)>::empty(),
{
    lemma_sweep_len(datas, Seq::empty());
}

/// How one writer ended.
#[derive(Debug)]
pub enum Outcome {
    /// It wrote its quota and hands back its samples.
    Done(Stats),
    /// It stopped on an error.
    Failed(DiskioError),
    /// Its thread ended abnormally.
    Aborted,
}

/// A writer whose samples were left out of a sweep point's results, by its index.
#[derive(Debug)]
pub enum Failure {
    /// It stopped on this error, or its samples could not be added without overflow.
    Errored(usize, DiskioError),
    /// Its thread ended abnormally.
    Aborted(usize),
}

impl Failure {
    pub open spec fn worker(&self) -> usize {
        match self {
            Failure::Errored(i, _) => *i,
            Failure::Aborted(i) => *i,
        }
    }
}

/// Whether `f` reports the outcome `o`: its error, or its abnormal end; a writer that
/// finished is reported with an error only where its samples could not be added.
pub open spec fn describes(f: Failure, o: Outcome) -> bool {
    match o {
        Outcome::Failed(e) => f == Failure::Errored(f.worker(), e),
        Outcome::Aborted => f == Failure::Aborted(f.worker()),
        Outcome::Done(_) => f is Errored,
    }
}

/// Whether the samples of writer `i` go into the results, those of the writers before
/// it being in already.
pub open spec fn joins(outs: Seq<Outcome>, i: int) -> bool {
    match outs[i] {
        Outcome::Done(s) => summable(gathered(outs.subrange(0, i)).1, s.samples()),
        _ => false,
    }
}

/// The latency and throughput samples of a sweep point: those of each writer that
/// finished, joined in order as `Stats::join` does, skipping any whose throughput
/// samples would overflow the sums.
pub open spec fn gathered(outs: Seq<Outcome>) -> (Seq<u64>, Seq<u64>)
    decreases outs.len(),
{
    if outs.len() == 0 {
        (Seq::empty(), Seq::empty())
    } else {
        let (l, t) = gathered(outs.drop_last());
        match outs.last() {
            Outcome::Done(s) => if summable(t, s.samples()) {
                (l + s.latencies(), sum_aligned(t, s.samples()))
            } else {
                (l, t)
            },
            _ => (l, t),
        }
    }
}

/// The writers, by index, whose samples are left out.
pub open spec fn left_out(outs: Seq<Outcome>) -> Seq<usize>
    decreases outs.len(),
{
    if outs.len() == 0 {
        Seq::empty()
    } else {
        let rest = left_out(outs.drop_last());
        if joins(outs, outs.len() - 1) {
            rest
        } else {
            rest.push((outs.len() - 1) as usize)
        }
    }
}

/// Gathers the outcomes of a sweep point's writers, in the order they were started:
/// the joined samples of those that finished, and the others, in order, each with
/// its error.
pub fn gather(outcomes: Vec<Outcome>) -> (r: (Stats, Vec<Failure>))
    ensures
        r.0.latencies() == gathered(outcomes@).0,
        r.0.samples() == gathered(outcomes@).1,
        r.1@.map_values(|f: Failure| f.worker()) == left_out(outcomes@),
        forall|k: int|
            0 <= k < r.1@.len() ==> r.1@[k].worker() < outcomes@.len() && describes(
                #[trigger] r.1@[k],
                outcomes@[r.1@[k].worker() as int],
            ),
{
    let ghost outs = outcomes@;
    let count = outcomes.len();
    let mut total = Stats::new();
    let mut failures: Vec<Failure> = Vec::new();
    let mut i: usize = 0;
    let mut rest = outcomes;
    assert(outs.subrange(0, 0) =~= Seq::<Outcome>::empty());
    while rest.len() > 0
        invariant
            i + rest@.len() == outs.len(),
            outs.len() == count,
            rest@ == outs.subrange(i as int, outs.len() as int),
            total.latencies() == gathered(outs.subrange(0, i as int)).0,
            total.samples() == gathered(outs.subrange(0, i as int)).1,
            failures@.map_values(|f: Failure| f.worker()) == left_out(outs.subrange(0, i as int)),
            forall|k: int|
                0 <= k < failures@.len() ==> failures@[k].worker() < i && describes(
                    #[trigger] failures@[k],
                    outs[failures@[k].worker() as int],
                ),
        decreases rest@.len(),
    {
        let ghost pre = outs.subrange(0, i as int);
        let ghost next = outs.subrange(0, i + 1);
        let ghost fails0 = failures@;
        assert(next.drop_last() =~= pre);
        assert(rest@[0] == outs[i as int]);
        let out = rest.remove(0);
        assert(next.last() == out);
        assert(next.subrange(0, i as int) =~= pre);
        match out {
            Outcome::Done(s) => {
                if total.can_join(&s) {
                    total.join(s);
                } else {
                    failures.push(
                        Failure::Errored(i, DiskioError(String::from_str("throughput sums overflow"))),
                    );
                }
            },
            Outcome::Failed(e) => {
                failures.push(Failure::Errored(i, e));
            },
            Outcome::Aborted => {
                failures.push(Failure::Aborted(i));
            },
        }
        assert(failures@.map_values(|f: Failure| f.worker()) =~= left_out(next));
        i += 1;
        assert(rest@ =~= outs.subrange(i as int, outs.len() as int));
    }
    assert(outs.subrange(0, i as int) =~= outs);
    (total, failures)
}

} // verus!
