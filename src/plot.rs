use vstd::prelude::*;
use vstd::string::*;

use crate::human::{decimal_digits, decimal_text, humanize, humanized};

verus! {

/// The largest sample, or zero for none: the top of a plot's value axis.
pub open spec fn top_of(samples: Seq<u64>) -> u64
    decreases samples.len(),
{
    if samples.len() == 0 {
        0
    } else {
        let t = top_of(samples.drop_last());
        if samples.last() > t {
            samples.last()
        } else {
            t
        }
    }
}

/// The largest of `samples`, or zero where there are none.
pub fn top_sample(samples: &Vec<u64>) -> (r: u64)
    ensures
        r == top_of(samples@),
        forall|i: int| 0 <= i < samples@.len() ==> samples@[i] <= r,
        samples@.len() > 0 ==> samples@.contains(r),
{
    let mut top: u64 = 0;
    let mut i: usize = 0;
    assert(samples@.subrange(0, 0) =~= Seq::<u64>::empty());
    while i < samples.len()
        invariant
            i <= samples.len(),
            top == top_of(samples@.subrange(0, i as int)),
            forall|j: int| 0 <= j < i ==> samples@[j] <= top,
            i > 0 ==> samples@.subrange(0, i as int).contains(top),
            i == 0 ==> top == 0,
        decreases samples.len() - i,
    {
        let ghost pre = samples@.subrange(0, i as int);
        assert(samples@.subrange(0, i + 1).drop_last() =~= pre);
        if samples[i] > top {
            top = samples[i];
            assert(samples@.subrange(0, i + 1)[i as int] == top);
        } else {
            proof {
                if i > 0 {
                    let k = choose|k: int| 0 <= k < pre.len() && pre[k] == top;
                    assert(samples@.subrange(0, i + 1)[k] == top);
                } else {
                    assert(samples@.subrange(0, 1)[0] == samples@[0]);
                }
            }
        }
        i += 1;
    }
    assert(samples@.subrange(0, i as int) =~= samples@);
    top
}

/// The name of the file that writer `id` writes: `diskio-<id>.data`.
pub fn data_file_name(id: u64) -> (r: String)
    ensures
        r@ == "diskio-"@ + decimal_digits(id as nat) + ".data"@,
{
    let mut r = String::from_str("diskio-");
    let digits = decimal_text(id);
    r.append(digits.as_str());
    r.append(".data");
    r
}

/// The name of the image of a sweep point's `kind` of samples (`latency`,
/// `throughput`): `diskio-plot-<kind>-<threads>x<block size>x<data size>.png`, the
/// sizes humanized.
pub fn plot_file_name(kind: &str, nthreads: u64, block_size: u64, data_size: u64) -> (r: String)
    ensures
        r@ == "diskio-plot-"@ + kind@ + "-"@ + decimal_digits(nthreads as nat) + "x"@
            + humanized(block_size as nat) + "x"@ + humanized(data_size as nat) + ".png"@,
{
    let mut r = String::from_str("diskio-plot-");
    r.append(kind);
    r.append("-");
    let threads = decimal_text(nthreads);
    r.append(threads.as_str());
    r.append("x");
    let b = humanize(block_size);
    r.append(b.as_str());
    r.append("x");
    let d = humanize(data_size);
    r.append(d.as_str());
    r.append(".png");
    r
}

} // verus!
