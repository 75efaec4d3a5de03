//! Cumulative distribution and 8-bit quantization ("equalization").

use crate::error::HistMatchError;
use crate::model::lemma_quantize_bounds;
use crate::model::lemma_quantize_monotone;
use crate::model::lemma_sum_take_monotone;
use crate::model::lemma_sum_take_succ;
use crate::model::quantize;
use crate::model::sum_u64;
use vstd::prelude::*;

verus! {

/// A cumulative distribution normalized to `[0, 1]`, held exactly as a
/// fraction: entry `i` stands for `cum[i] / total`. Keeping numerator and
/// denominator apart loses nothing to rounding; the quantizer divides
/// once, with ceiling, when the 8-bit levels are made.
pub struct NormalizedCdf {
    /// Cumulative sample counts, one entry per 8-bit value.
    pub cum: Vec<u64>,
    /// The total sample count: the denominator of every entry.
    pub total: u64,
}

impl NormalizedCdf {
    /// 256 entries, nowhere decreasing, a positive total, and the last
    /// entry equal to the total — the fraction one.
    pub open spec fn wf(self) -> bool {
        &&& self.cum@.len() == 256
        &&& self.total > 0
        &&& self.cum@[255] == self.total
        &&& forall|i: int, j: int| 0 <= i <= j < 256 ==> self.cum@[i] <= self.cum@[j]
        &&& forall|i: int| 0 <= i < 256 ==> self.cum@[i] <= self.total
    }
}

/// Running (inclusive) prefix sums of an array of counters: entry `i` of
/// the result is the sum of entries `0..=i` of the input.
pub fn cumwantsome(arr: &Vec<u64>) -> (r: Vec<u64>)
    requires
        sum_u64(arr@) <= u64::MAX,
    ensures
        r@.len() == arr@.len(),
        forall|i: int| 0 <= i < arr@.len() ==> r@[i] as int == sum_u64(arr@.take(i + 1)),
{
    let mut r: Vec<u64> = Vec::new();
    let mut acc: u64 = 0;
    let n: usize = arr.len();
    proof {
        assert(arr@.take(0).len() == 0);
    }
    let mut i: usize = 0;
    while i < n
        invariant
            i <= n,
            n == arr@.len(),
            r@.len() == i,
            acc as int == sum_u64(arr@.take(i as int)),
            sum_u64(arr@) <= u64::MAX,
            forall|j: int| 0 <= j < i ==> r@[j] as int == sum_u64(arr@.take(j + 1)),
        decreases n - i,
    {
        proof {
            lemma_sum_take_succ(arr@, i as int);
            lemma_sum_take_monotone(arr@, i as int + 1, arr@.len() as int);
            assert(arr@.take(arr@.len() as int) =~= arr@);
        }
        acc = acc + arr[i];
        r.push(acc);
        i = i + 1;
    }
    r
}

/// Builds the normalized cumulative distribution of one histogram: the
/// running prefix sum of the bins over the total count. A histogram whose
/// total is zero describes no distribution at all — normalizing it would
/// divide by zero — so it is reported as `EmptyImage`.
pub fn cdf(hist: &Vec<u64>) -> (r: Result<NormalizedCdf, HistMatchError>)
    requires
        hist@.len() == 256,
        sum_u64(hist@) <= u64::MAX,
    ensures
        match r {
            Ok(n) => {
                &&& sum_u64(hist@) > 0
                &&& n.wf()
                &&& n.total as int == sum_u64(hist@)
                &&& forall|i: int|
                    0 <= i < 256 ==> n.cum@[i] as int == sum_u64(hist@.take(i + 1))
            },
            Err(e) => e == HistMatchError::EmptyImage && sum_u64(hist@) == 0,
        },
{
    let cum = cumwantsome(hist);
    let total: u64 = cum[255];
    proof {
        assert(hist@.take(256) =~= hist@);
        assert forall|i: int, j: int| 0 <= i <= j < 256 implies cum@[i] <= cum@[j] by {
            lemma_sum_take_monotone(hist@, i + 1, j + 1);
        }
    }
    if total == 0 {
        Err(HistMatchError::EmptyImage)
    } else {
        Ok(NormalizedCdf { cum, total })
    }
}

/// Rescales a normalized distribution into integer levels: entry `i`
/// becomes the ceiling of `255 * cum[i] / total`. Ceiling — not floor or
/// round — keeps the sequence non-decreasing and drives the last entry to
/// exactly 255.
pub fn equalize(n: &NormalizedCdf) -> (r: Vec<u8>)
    requires
        n.wf(),
    ensures
        r@.len() == 256,
        forall|i: int|
            0 <= i < 256 ==> r@[i] as int == quantize(n.cum@[i] as int, n.total as int),
        forall|i: int, j: int| 0 <= i <= j < 256 ==> r@[i] <= r@[j],
        r@[255] == 255,
{
    let mut r: Vec<u8> = Vec::new();
    let total: u64 = n.total;
    let mut i: usize = 0;
    while i < 256
        invariant
            i <= 256,
            n.wf(),
            total == n.total,
            r@.len() == i,
            forall|k: int|
                0 <= k < i ==> r@[k] as int == quantize(n.cum@[k] as int, n.total as int),
        decreases 256 - i,
    {
        let c: u64 = n.cum[i];
        proof {
            lemma_quantize_bounds(c as int, total as int);
        }
        let num: u128 = 255u128 * (c as u128) + ((total - 1) as u128);
        let q: u128 = num / (total as u128);
        r.push(q as u8);
        i = i + 1;
    }
    proof {
        assert forall|i: int, j: int| 0 <= i <= j < 256 implies r@[i] <= r@[j] by {
            lemma_quantize_monotone(n.cum@[i] as int, n.cum@[j] as int, n.total as int);
        }
        lemma_quantize_bounds(n.cum@[255] as int, n.total as int);
    }
    r
}

} // verus!
