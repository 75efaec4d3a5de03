//! Mathematical model of the per-channel statistics.
//!
//! An interleaved RGB buffer is modelled as a `Seq<u8>`; the sample at
//! position `i` belongs to channel `i % 3` (0 = red, 1 = green, 2 = blue).
//! Histograms and cumulative counts are stated as counting functions over
//! that sequence, and quantization as an exact ceiling division, so every
//! stage of the pipeline has a direct arithmetic meaning.

use vstd::arithmetic::div_mod::lemma_div_is_ordered;
use vstd::arithmetic::div_mod::lemma_div_pos_is_pos;
use vstd::arithmetic::div_mod::lemma_fundamental_div_mod_converse;
use vstd::prelude::*;

verus! {

/// Number of samples of channel `c` in `img` whose value is exactly `v`:
/// the histogram bin `v` of that channel.
pub open spec fn count_eq_in_channel(img: Seq<u8>, c: int, v: u8) -> int
    decreases img.len(),
{
    if img.len() == 0 {
        0
    } else {
        count_eq_in_channel(img.drop_last(), c, v) + if (img.len() - 1) % 3 == c
            && img.last() == v {
            1int
        } else {
            0int
        }
    }
}

/// Number of samples of channel `c` in `img` whose value is at most `v`:
/// the cumulative (unnormalized) histogram of that channel at `v`.
pub open spec fn count_le_in_channel(img: Seq<u8>, c: int, v: u8) -> int
    decreases img.len(),
{
    if img.len() == 0 {
        0
    } else {
        count_le_in_channel(img.drop_last(), c, v) + if (img.len() - 1) % 3 == c
            && img.last() <= v {
            1int
        } else {
            0int
        }
    }
}

/// Sum of a sequence of counters.
pub open spec fn sum_u64(s: Seq<u64>) -> int
    decreases s.len(),
{
    if s.len() == 0 {
        0
    } else {
        sum_u64(s.drop_last()) + s.last()
    }
}

/// The quantized level of a cumulative count `cum` out of `total`:
/// the ceiling of `255 * cum / total`, written with integer division.
pub open spec fn quantize(cum: int, total: int) -> int {
    (255 * cum + total - 1) / total
}

/// Both counting functions stay between 0 and the buffer length.
pub proof fn lemma_count_bounds(img: Seq<u8>, c: int, v: u8)
    ensures
        0 <= count_eq_in_channel(img, c, v) <= img.len(),
        0 <= count_le_in_channel(img, c, v) <= img.len(),
    decreases img.len(),
{
    if img.len() > 0 {
        lemma_count_bounds(img.drop_last(), c, v);
    }
}

/// A cumulative count splits into the cumulative count one value lower
/// plus the histogram bin at the value itself.
pub proof fn lemma_count_le_split(img: Seq<u8>, c: int, v: u8)
    requires
        v >= 1,
    ensures
        count_le_in_channel(img, c, v) == count_le_in_channel(img, c, (v - 1) as u8)
            + count_eq_in_channel(img, c, v),
    decreases img.len(),
{
    if img.len() > 0 {
        lemma_count_le_split(img.drop_last(), c, v);
    }
}

/// At value 0 the cumulative count is exactly the first histogram bin.
pub proof fn lemma_count_le_zero(img: Seq<u8>, c: int)
    ensures
        count_le_in_channel(img, c, 0) == count_eq_in_channel(img, c, 0),
    decreases img.len(),
{
    if img.len() > 0 {
        lemma_count_le_zero(img.drop_last(), c);
    }
}

/// Every sample value is at most 255, so the cumulative count at 255 is
/// the number of samples the channel has in the buffer.
pub proof fn lemma_count_channel_total(img: Seq<u8>, c: int)
    requires
        0 <= c < 3,
    ensures
        count_le_in_channel(img, c, 255) == img.len() / 3 + if img.len() % 3 > c {
            1int
        } else {
            0int
        },
    decreases img.len(),
{
    if img.len() > 0 {
        lemma_count_channel_total(img.drop_last(), c);
        let n = img.len() as int;
        assert(n == 3 * (n / 3) + n % 3) by {
            vstd::arithmetic::div_mod::lemma_fundamental_div_mod(n, 3);
        }
        assert(n - 1 == 3 * ((n - 1) / 3) + (n - 1) % 3) by {
            vstd::arithmetic::div_mod::lemma_fundamental_div_mod(n - 1, 3);
        }
    }
}

/// Summing one more counter extends the sum by that counter.
pub proof fn lemma_sum_take_succ(s: Seq<u64>, i: int)
    requires
        0 <= i < s.len(),
    ensures
        sum_u64(s.take(i + 1)) == sum_u64(s.take(i)) + s[i],
{
    assert(s.take(i + 1).drop_last() =~= s.take(i));
}

/// Partial sums never shrink as more counters are added.
pub proof fn lemma_sum_take_monotone(s: Seq<u64>, i: int, j: int)
    requires
        0 <= i <= j <= s.len(),
    ensures
        sum_u64(s.take(i)) <= sum_u64(s.take(j)),
    decreases j - i,
{
    if i < j {
        lemma_sum_take_monotone(s, i, j - 1);
        lemma_sum_take_succ(s, j - 1);
    }
}

/// A prefix sum of the histogram of channel `c` equals the cumulative
/// count of that channel: bin by bin, the two models agree.
pub proof fn lemma_sum_is_count_le(img: Seq<u8>, c: int, hist: Seq<u64>, v: int)
    requires
        hist.len() == 256,
        0 <= v < 256,
        forall|w: int| 0 <= w < 256 ==> hist[w] as int == count_eq_in_channel(img, c, w as u8),
    ensures
        sum_u64(hist.take(v + 1)) == count_le_in_channel(img, c, v as u8),
    decreases v,
{
    if v == 0 {
        lemma_count_le_zero(img, c);
        lemma_sum_take_succ(hist, 0);
        assert(sum_u64(hist.take(0)) == 0);
    } else {
        lemma_sum_is_count_le(img, c, hist, v - 1);
        lemma_sum_take_succ(hist, v);
        lemma_count_le_split(img, c, v as u8);
    }
}

/// Quantized levels stay in `[0, 255]`; a full cumulative count quantizes
/// to exactly 255 and an empty one to 0.
pub proof fn lemma_quantize_bounds(cum: int, total: int)
    requires
        0 <= cum <= total,
        1 <= total,
    ensures
        0 <= quantize(cum, total) <= 255,
        cum == total ==> quantize(cum, total) == 255,
        cum == 0 ==> quantize(cum, total) == 0,
{
    lemma_div_pos_is_pos(255 * cum + total - 1, total);
    lemma_fundamental_div_mod_converse(256 * total - 1, total, 255, total - 1);
    lemma_div_is_ordered(255 * cum + total - 1, 256 * total - 1, total);
    if cum == 0 {
        lemma_fundamental_div_mod_converse(total - 1, total, 0, total - 1);
    }
}

/// Quantization preserves order: a larger cumulative count never maps to
/// a smaller level.
pub proof fn lemma_quantize_monotone(c1: int, c2: int, total: int)
    requires
        0 <= c1 <= c2,
        1 <= total,
    ensures
        quantize(c1, total) <= quantize(c2, total),
{
    lemma_div_is_ordered(255 * c1 + total - 1, 255 * c2 + total - 1, total);
}

} // verus!
