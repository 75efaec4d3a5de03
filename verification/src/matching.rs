//! End-to-end matching: per-channel tables, then an in-place remap.

use crate::cdf::NormalizedCdf;
use crate::cdf::cdf;
use crate::cdf::equalize;
use crate::error::HistMatchError;
use crate::histogram::Channel;
use crate::histogram::ChannelsHistogram;
use crate::histogram::is_histogram_of;
use crate::image::ImageChannels;
use crate::mapping::lut_val;
use crate::mapping::mapping;
use crate::model::count_le_in_channel;
use crate::model::lemma_quantize_bounds;
use crate::model::lemma_sum_is_count_le;
use crate::model::quantize;
use crate::model::sum_u64;
use vstd::prelude::*;

verus! {

/// The quantized cumulative distribution of channel `c` of the buffer
/// `img`: level `v` is the ceiling of 255 times the fraction of the
/// channel's samples that are at most `v`.
pub open spec fn qcdf_of(img: Seq<u8>, c: int) -> Seq<u8> {
    Seq::new(
        256,
        |v: int|
            quantize(
                count_le_in_channel(img, c, v as u8),
                count_le_in_channel(img, c, 255),
            ) as u8,
    )
}

/// The lookup table that matches channel `c` of the buffer `src` against
/// channel `c` of the buffer `rf`.
pub open spec fn lut_of(src: Seq<u8>, rf: Seq<u8>, c: int) -> Seq<u8> {
    Seq::new(256, |v: int| lut_val(qcdf_of(src, c)[v], qcdf_of(rf, c)))
}

/// An executable quantized distribution agrees, entry by entry, with the
/// specification-level one when it was built from a faithful histogram of
/// the buffer.
proof fn lemma_qcdf_connect(img: Seq<u8>, c: int, hist: Seq<u64>, n: NormalizedCdf, q: Seq<u8>)
    requires
        is_histogram_of(hist, img, c),
        n.wf(),
        n.total as int == sum_u64(hist),
        forall|i: int| 0 <= i < 256 ==> n.cum@[i] as int == sum_u64(hist.take(i + 1)),
        q.len() == 256,
        forall|i: int|
            0 <= i < 256 ==> q[i] as int == quantize(n.cum@[i] as int, n.total as int),
    ensures
        q =~= qcdf_of(img, c),
{
    assert(hist.take(256) =~= hist);
    lemma_sum_is_count_le(img, c, hist, 255);
    assert forall|v: int| 0 <= v < 256 implies q[v] == qcdf_of(img, c)[v] by {
        lemma_sum_is_count_le(img, c, hist, v);
        lemma_quantize_bounds(n.cum@[v] as int, n.total as int);
    }
}

/// Rewrites every sample of the interleaved buffer through the lookup
/// table of its channel: a pure elementwise remap, in place, touching
/// neither the buffer's length nor the order of its pixels.
pub fn apply(r_map: &Vec<u8>, g_map: &Vec<u8>, b_map: &Vec<u8>, src_img: &mut Vec<u8>)
    requires
        r_map@.len() == 256,
        g_map@.len() == 256,
        b_map@.len() == 256,
    ensures
        final(src_img)@.len() == old(src_img)@.len(),
        forall|i: int|
            0 <= i < old(src_img)@.len() ==> final(src_img)@[i] == (if i % 3 == 0 {
                r_map@[old(src_img)@[i] as int]
            } else if i % 3 == 1 {
                g_map@[old(src_img)@[i] as int]
            } else {
                b_map@[old(src_img)@[i] as int]
            }),
{
    let n: usize = src_img.len();
    let mut i: usize = 0;
    while i < n
        invariant
            i <= n,
            n == src_img@.len(),
            src_img@.len() == old(src_img)@.len(),
            r_map@.len() == 256,
            g_map@.len() == 256,
            b_map@.len() == 256,
            forall|j: int| i <= j < n ==> src_img@[j] == old(src_img)@[j],
            forall|j: int|
                0 <= j < i ==> src_img@[j] == (if j % 3 == 0 {
                    r_map@[old(src_img)@[j] as int]
                } else if j % 3 == 1 {
                    g_map@[old(src_img)@[j] as int]
                } else {
                    b_map@[old(src_img)@[j] as int]
                }),
        decreases n - i,
    {
        let s = src_img[i] as usize;
        let mapped = if i % 3 == 0 {
            r_map[s]
        } else if i % 3 == 1 {
            g_map[s]
        } else {
            b_map[s]
        };
        src_img.set(i, mapped);
        i = i + 1;
    }
}

/// Matches the source image's per-channel value distributions to the
/// reference's and rewrites the source buffer in place. The two images
/// may have different dimensions: only aggregate per-channel statistics
/// enter the tables, never pixel positions. Fails with `EmptyImage` --
/// and leaves the source untouched -- exactly when either image has zero
/// pixels, since an empty image has no distribution to match.
pub fn match_histogram_rgb_array(source: &mut ImageChannels, reference: &ImageChannels) -> (r:
    Result<(), HistMatchError>)
    requires
        old(source).wf(),
        reference.wf(),
    ensures
        final(source).width == old(source).width,
        final(source).height == old(source).height,
        final(source).wf(),
        match r {
            Ok(()) => {
                &&& old(source).num_pixels() > 0
                &&& reference.num_pixels() > 0
                &&& final(source).image@.len() == old(source).image@.len()
                &&& forall|i: int|
                    0 <= i < old(source).image@.len() ==> final(source).image@[i] == lut_of(
                        old(source).image@,
                        reference.image@,
                        i % 3,
                    )[old(source).image@[i] as int]
            },
            Err(e) => {
                &&& e == HistMatchError::EmptyImage
                &&& (old(source).num_pixels() == 0 || reference.num_pixels() == 0)
                &&& final(source).image@ == old(source).image@
            },
        },
{
    let ghost s_img = source.image@;
    let ghost r_img = reference.image@;
    proof {
        vstd::arithmetic::mul::lemma_mul_upper_bound(
            old(source).width as int,
            u32::MAX as int,
            old(source).height as int,
            u32::MAX as int,
        );
        vstd::arithmetic::mul::lemma_mul_upper_bound(
            reference.width as int,
            u32::MAX as int,
            reference.height as int,
            u32::MAX as int,
        );
    }
    let src_histo = ChannelsHistogram::from_image(source);
    let ref_histo = ChannelsHistogram::from_image(reference);

    let src_norm_r = match cdf(src_histo.get_channel(Channel::Red)) {
        Ok(n) => n,
        Err(e) => { return Err(e); },
    };
    let src_norm_g = match cdf(src_histo.get_channel(Channel::Green)) {
        Ok(n) => n,
        Err(e) => { return Err(e); },
    };
    let src_norm_b = match cdf(src_histo.get_channel(Channel::Blue)) {
        Ok(n) => n,
        Err(e) => { return Err(e); },
    };
    let ref_norm_r = match cdf(ref_histo.get_channel(Channel::Red)) {
        Ok(n) => n,
        Err(e) => { return Err(e); },
    };
    let ref_norm_g = match cdf(ref_histo.get_channel(Channel::Green)) {
        Ok(n) => n,
        Err(e) => { return Err(e); },
    };
    let ref_norm_b = match cdf(ref_histo.get_channel(Channel::Blue)) {
        Ok(n) => n,
        Err(e) => { return Err(e); },
    };

    let src_cdf_r = equalize(&src_norm_r);
    let src_cdf_g = equalize(&src_norm_g);
    let src_cdf_b = equalize(&src_norm_b);
    let ref_cdf_r = equalize(&ref_norm_r);
    let ref_cdf_g = equalize(&ref_norm_g);
    let ref_cdf_b = equalize(&ref_norm_b);

    proof {
        lemma_qcdf_connect(s_img, 0, src_histo.hist_r@, src_norm_r, src_cdf_r@);
        lemma_qcdf_connect(s_img, 1, src_histo.hist_g@, src_norm_g, src_cdf_g@);
        lemma_qcdf_connect(s_img, 2, src_histo.hist_b@, src_norm_b, src_cdf_b@);
        lemma_qcdf_connect(r_img, 0, ref_histo.hist_r@, ref_norm_r, ref_cdf_r@);
        lemma_qcdf_connect(r_img, 1, ref_histo.hist_g@, ref_norm_g, ref_cdf_g@);
        lemma_qcdf_connect(r_img, 2, ref_histo.hist_b@, ref_norm_b, ref_cdf_b@);
    }

    let mapped_r = mapping(&src_cdf_r, &ref_cdf_r);
    let mapped_g = mapping(&src_cdf_g, &ref_cdf_g);
    let mapped_b = mapping(&src_cdf_b, &ref_cdf_b);

    proof {
        assert(mapped_r@ =~= lut_of(s_img, r_img, 0));
        assert(mapped_g@ =~= lut_of(s_img, r_img, 1));
        assert(mapped_b@ =~= lut_of(s_img, r_img, 2));
    }

    apply(&mapped_r, &mapped_g, &mapped_b, &mut source.image);
    Ok(())
}

/// Self-matching law, at the image level: when an image serves as its
/// own reference, every lookup-table entry names a value whose quantized
/// cumulative frequency equals that of the input value; where the
/// quantized distribution is strictly increasing the entry is the input
/// value itself.
pub proof fn lemma_self_matching_image(img: Seq<u8>, c: int, v: int)
    requires
        0 <= v < 256,
    ensures
        qcdf_of(img, c)[lut_of(img, img, c)[v] as int] == qcdf_of(img, c)[v],
        (forall|i: int, j: int| 0 <= i < j < 256 ==> qcdf_of(img, c)[i] < qcdf_of(img, c)[j])
            ==> lut_of(img, img, c)[v] == v,
{
    crate::mapping::lemma_self_matching(qcdf_of(img, c), v);
}

} // verus!
