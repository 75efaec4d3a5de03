//! Lookup-table construction: nearest quantized cumulative frequency.
//!
//! For a source pixel value `v`, the table entry is the reference pixel
//! value whose quantized cumulative frequency lies closest to that of
//! `v`. "Closest" is settled by two one-sided candidates — the smallest
//! reference level at or above the source level ("upper") and the largest
//! strictly below it ("lower") — with the upper one preferred on ties.
//! Where several reference values share one level (a plateau of the
//! quantized distribution), the smallest such value represents the level.

use vstd::prelude::*;

verus! {

/// Position of the first occurrence of `v` in `r`, or -1 when `v` does
/// not occur.
pub open spec fn first_index_of(r: Seq<u8>, v: u8) -> int
    decreases r.len(),
{
    if r.len() == 0 {
        -1
    } else {
        let p = first_index_of(r.drop_last(), v);
        if p >= 0 {
            p
        } else if r.last() == v {
            r.len() - 1
        } else {
            -1
        }
    }
}

/// The smallest level present in `r` that is at least `key`, or `None`
/// when every level of `r` lies below `key`.
pub open spec fn upper_key_of(r: Seq<u8>, key: u8) -> Option<u8>
    decreases r.len(),
{
    if r.len() == 0 {
        None
    } else {
        let rest = upper_key_of(r.drop_last(), key);
        let x = r.last();
        if x >= key {
            match rest {
                None => Some(x),
                Some(k) => if x < k {
                    Some(x)
                } else {
                    Some(k)
                },
            }
        } else {
            rest
        }
    }
}

/// The largest level present in `r` that is strictly below `key`, or
/// `None` when every level of `r` is at least `key`.
pub open spec fn lower_key_of(r: Seq<u8>, key: u8) -> Option<u8>
    decreases r.len(),
{
    if r.len() == 0 {
        None
    } else {
        let rest = lower_key_of(r.drop_last(), key);
        let x = r.last();
        if x < key {
            match rest {
                None => Some(x),
                Some(k) => if x > k {
                    Some(x)
                } else {
                    Some(k)
                },
            }
        } else {
            rest
        }
    }
}

/// The table entry for a source level `key` against the reference levels
/// `r`: the reference value whose level is nearest to `key`, the upper
/// candidate winning ties; a side that does not exist cedes to the other,
/// and with no levels at all the entry defaults to 255.
pub open spec fn lut_val(key: u8, r: Seq<u8>) -> u8 {
    match (upper_key_of(r, key), lower_key_of(r, key)) {
        (Some(uk), Some(lk)) => if uk - key <= key - lk {
            first_index_of(r, uk) as u8
        } else {
            first_index_of(r, lk) as u8
        },
        (Some(uk), None) => first_index_of(r, uk) as u8,
        (None, Some(lk)) => first_index_of(r, lk) as u8,
        (None, None) => 255u8,
    }
}

/// Whatever `first_index_of` returns is either -1 with `v` absent, or a
/// valid position holding `v` with no earlier occurrence.
pub proof fn lemma_first_index_props(r: Seq<u8>, v: u8)
    ensures
        first_index_of(r, v) == -1 || (0 <= first_index_of(r, v) < r.len() && r[first_index_of(
            r,
            v,
        )] == v && forall|m: int| 0 <= m < first_index_of(r, v) ==> r[m] != v),
        (exists|m: int| 0 <= m < r.len() && r[m] == v) ==> first_index_of(r, v) != -1,
    decreases r.len(),
{
    if r.len() > 0 {
        let prefix = r.drop_last();
        lemma_first_index_props(prefix, v);
        assert(forall|m: int| 0 <= m < prefix.len() ==> prefix[m] == r[m]);
        let p = first_index_of(prefix, v);
        if p >= 0 {
        } else if r.last() == v {
            assert forall|m: int| 0 <= m < r.len() - 1 implies r[m] != v by {
                if r[m] == v {
                    assert(prefix[m] == v);
                }
            }
        } else {
            if exists|m: int| 0 <= m < r.len() && r[m] == v {
                let m = choose|m: int| 0 <= m < r.len() && r[m] == v;
                assert(m < r.len() - 1);
                assert(prefix[m] == v);
            }
        }
    }
}

/// What a `Some`/`None` answer of `upper_key_of` says about the levels
/// of `r`.
pub proof fn lemma_upper_props(r: Seq<u8>, key: u8)
    ensures
        match upper_key_of(r, key) {
            Some(k) => k >= key && exists|m: int| 0 <= m < r.len() && r[m] == k,
            None => forall|m: int| 0 <= m < r.len() ==> r[m] < key,
        },
    decreases r.len(),
{
    if r.len() > 0 {
        let prefix = r.drop_last();
        lemma_upper_props(prefix, key);
        assert(forall|m: int| 0 <= m < prefix.len() ==> prefix[m] == r[m]);
        match upper_key_of(prefix, key) {
            Some(k) => {
                let m = choose|m: int| 0 <= m < prefix.len() && prefix[m] == k;
                assert(r[m] == k);
                if r.last() >= key {
                    assert(r[r.len() - 1] == r.last());
                }
            },
            None => {
                if r.last() >= key {
                    assert(r[r.len() - 1] == r.last());
                }
            },
        }
    }
}

/// What a `Some`/`None` answer of `lower_key_of` says about the levels
/// of `r`.
pub proof fn lemma_lower_props(r: Seq<u8>, key: u8)
    ensures
        match lower_key_of(r, key) {
            Some(k) => k < key && exists|m: int| 0 <= m < r.len() && r[m] == k,
            None => forall|m: int| 0 <= m < r.len() ==> r[m] >= key,
        },
    decreases r.len(),
{
    if r.len() > 0 {
        let prefix = r.drop_last();
        lemma_lower_props(prefix, key);
        assert(forall|m: int| 0 <= m < prefix.len() ==> prefix[m] == r[m]);
        match lower_key_of(prefix, key) {
            Some(k) => {
                let m = choose|m: int| 0 <= m < prefix.len() && prefix[m] == k;
                assert(r[m] == k);
                if r.last() < key {
                    assert(r[r.len() - 1] == r.last());
                }
            },
            None => {
                if r.last() < key {
                    assert(r[r.len() - 1] == r.last());
                }
            },
        }
    }
}

/// A level `k` at position `i` that no level at or above `key` undercuts,
/// and that occurs nowhere before `i`, is exactly the upper candidate,
/// and `i` is its first occurrence.
pub proof fn lemma_upper_char(r: Seq<u8>, key: u8, k: u8, i: int)
    requires
        0 <= i < r.len(),
        r[i] == k,
        k >= key,
        forall|m: int| 0 <= m < r.len() && r[m] >= key ==> r[m] >= k,
        forall|m: int| 0 <= m < i ==> r[m] != k,
    ensures
        upper_key_of(r, key) == Some(k),
        first_index_of(r, k) == i,
    decreases r.len(),
{
    let prefix = r.drop_last();
    lemma_first_index_props(prefix, k);
    lemma_upper_props(prefix, key);
    if i == r.len() - 1 {
        assert(first_index_of(prefix, k) == -1);
        match upper_key_of(prefix, key) {
            Some(kp) => {
                let m = choose|m: int| 0 <= m < prefix.len() && prefix[m] == kp;
                assert(r[m] == kp && kp >= key);
            },
            None => {},
        }
    } else {
        lemma_upper_char(prefix, key, k, i);
    }
}

/// A level `k` at position `i` that no level below `key` exceeds, and
/// that occurs nowhere before `i`, is exactly the lower candidate, and
/// `i` is its first occurrence.
pub proof fn lemma_lower_char(r: Seq<u8>, key: u8, k: u8, i: int)
    requires
        0 <= i < r.len(),
        r[i] == k,
        k < key,
        forall|m: int| 0 <= m < r.len() && r[m] < key ==> r[m] <= k,
        forall|m: int| 0 <= m < i ==> r[m] != k,
    ensures
        lower_key_of(r, key) == Some(k),
        first_index_of(r, k) == i,
    decreases r.len(),
{
    let prefix = r.drop_last();
    lemma_first_index_props(prefix, k);
    lemma_lower_props(prefix, key);
    if i == r.len() - 1 {
        assert(first_index_of(prefix, k) == -1);
        match lower_key_of(prefix, key) {
            Some(kp) => {
                let m = choose|m: int| 0 <= m < prefix.len() && prefix[m] == kp;
                assert(r[m] == kp && kp < key);
            },
            None => {},
        }
    } else {
        lemma_lower_char(prefix, key, k, i);
    }
}

/// Builds the 256-entry lookup table from the source's and the
/// reference's quantized cumulative distributions. Total over the whole
/// fixed domain: any pair of 256-entry level arrays yields a full table
/// of 8-bit values.
pub fn mapping(src_img_cdf: &Vec<u8>, ref_img_cdf: &Vec<u8>) -> (table: Vec<u8>)
    requires
        src_img_cdf@.len() == 256,
        ref_img_cdf@.len() == 256,
    ensures
        table@.len() == 256,
        forall|v: int| 0 <= v < 256 ==> table@[v] == lut_val(src_img_cdf@[v], ref_img_cdf@),
{
    let mut table: Vec<u8> = Vec::new();
    let mut v: usize = 0;
    while v < 256
        invariant
            v <= 256,
            src_img_cdf@.len() == 256,
            ref_img_cdf@.len() == 256,
            table@.len() == v,
            forall|w: int| 0 <= w < v ==> table@[w] == lut_val(src_img_cdf@[w], ref_img_cdf@),
        decreases 256 - v,
    {
        let key = src_img_cdf[v];
        let mut have_up = false;
        let mut up_key: u8 = 0;
        let mut up_idx: usize = 0;
        let mut have_low = false;
        let mut low_key: u8 = 0;
        let mut low_idx: usize = 0;
        let mut j: usize = 0;
        while j < 256
            invariant
                j <= 256,
                ref_img_cdf@.len() == 256,
                !have_up ==> forall|m: int| 0 <= m < j ==> ref_img_cdf@[m] < key,
                have_up ==> up_idx < j && ref_img_cdf@[up_idx as int] == up_key && up_key >= key
                    && (forall|m: int|
                    0 <= m < j && ref_img_cdf@[m] >= key ==> ref_img_cdf@[m] >= up_key) && (
                forall|m: int| 0 <= m < up_idx ==> ref_img_cdf@[m] != up_key),
                !have_low ==> forall|m: int| 0 <= m < j ==> ref_img_cdf@[m] >= key,
                have_low ==> low_idx < j && ref_img_cdf@[low_idx as int] == low_key && low_key
                    < key && (forall|m: int|
                    0 <= m < j && ref_img_cdf@[m] < key ==> ref_img_cdf@[m] <= low_key) && (
                forall|m: int| 0 <= m < low_idx ==> ref_img_cdf@[m] != low_key),
            decreases 256 - j,
        {
            let x = ref_img_cdf[j];
            if x >= key && (!have_up || x < up_key) {
                have_up = true;
                up_key = x;
                up_idx = j;
            }
            if x < key && (!have_low || x > low_key) {
                have_low = true;
                low_key = x;
                low_idx = j;
            }
            j = j + 1;
        }
        proof {
            if have_up {
                lemma_upper_char(ref_img_cdf@, key, up_key, up_idx as int);
            } else {
                lemma_upper_props(ref_img_cdf@, key);
            }
            if have_low {
                lemma_lower_char(ref_img_cdf@, key, low_key, low_idx as int);
            } else {
                lemma_lower_props(ref_img_cdf@, key);
            }
        }
        let ans: u8 = if have_up && have_low {
            if up_key - key <= key - low_key {
                up_idx as u8
            } else {
                low_idx as u8
            }
        } else if have_up {
            up_idx as u8
        } else if have_low {
            low_idx as u8
        } else {
            255
        };
        table.push(ans);
        v = v + 1;
    }
    table
}

/// Self-matching law: against its own quantized distribution as the
/// reference, every table entry points at a value whose quantized
/// cumulative frequency equals that of the input value; and where the
/// distribution is strictly increasing, the table entry is the input
/// value itself.
pub proof fn lemma_self_matching(q: Seq<u8>, v: int)
    requires
        q.len() == 256,
        0 <= v < 256,
    ensures
        q[lut_val(q[v], q) as int] == q[v],
        (forall|i: int, j: int| 0 <= i < j < 256 ==> q[i] < q[j]) ==> lut_val(q[v], q) == v,
{
    let key = q[v];
    lemma_first_index_props(q, key);
    assert(first_index_of(q, key) != -1) by {
        assert(0 <= v < q.len() && q[v] == key);
    }
    let f = first_index_of(q, key);
    lemma_upper_char(q, key, key, f);
    lemma_lower_props(q, key);
    assert(lut_val(key, q) == f as u8);
    if forall|i: int, j: int| 0 <= i < j < 256 ==> q[i] < q[j] {
        assert(f <= v);
        if f < v {
            assert(q[f] < q[v]);
        }
    }
}

} // verus!
