//! Per-channel histogram accumulation.

use crate::image::ImageChannels;
use crate::model::count_eq_in_channel;
use crate::model::lemma_count_bounds;
use crate::model::lemma_count_channel_total;
use crate::model::lemma_sum_is_count_le;
use crate::model::sum_u64;
use vstd::prelude::*;

verus! {

/// One of the three color components of an RGB image. The enumeration is
/// closed, so selecting an invalid channel is impossible at compile time
/// and no fallback branch is needed anywhere.
#[derive(Clone, Copy, Debug, PartialEq, Eq, Structural)]
pub enum Channel {
    /// The red component: sample positions `0, 3, 6, ...`.
    Red,
    /// The green component: sample positions `1, 4, 7, ...`.
    Green,
    /// The blue component: sample positions `2, 5, 8, ...`.
    Blue,
}

/// `h` is the 256-bin histogram of channel `c` of the interleaved buffer
/// `img`: bin `v` counts the samples of that channel whose value is `v`.
pub open spec fn is_histogram_of(h: Seq<u64>, img: Seq<u8>, c: int) -> bool {
    &&& h.len() == 256
    &&& forall|v: int| 0 <= v < 256 ==> h[v] as int == count_eq_in_channel(img, c, v as u8)
}

/// The three 256-bin frequency counts of an image, one per channel,
/// together with the dimensions they were accumulated from.
pub struct ChannelsHistogram {
    /// Frequency counts of the red samples.
    pub hist_r: Vec<u64>,
    /// Frequency counts of the green samples.
    pub hist_g: Vec<u64>,
    /// Frequency counts of the blue samples.
    pub hist_b: Vec<u64>,
    /// Width of the counted image, in pixels.
    pub width: u32,
    /// Height of the counted image, in pixels.
    pub height: u32,
}

impl ChannelsHistogram {
    /// The counts of the requested channel, as a sequence.
    pub open spec fn spec_channel(self, channel: Channel) -> Seq<u64> {
        match channel {
            Channel::Red => self.hist_r@,
            Channel::Green => self.hist_g@,
            Channel::Blue => self.hist_b@,
        }
    }

    /// Scans the pixel buffer once and counts, for every channel, how
    /// often each of the 256 sample values occurs. Each histogram sums to
    /// the pixel count of the image: every pixel lands in exactly one bin
    /// per channel.
    pub fn from_image(img: &ImageChannels) -> (h: ChannelsHistogram)
        requires
            img.wf(),
        ensures
            h.width == img.width,
            h.height == img.height,
            is_histogram_of(h.hist_r@, img.image@, 0),
            is_histogram_of(h.hist_g@, img.image@, 1),
            is_histogram_of(h.hist_b@, img.image@, 2),
            sum_u64(h.hist_r@) == img.num_pixels(),
            sum_u64(h.hist_g@) == img.num_pixels(),
            sum_u64(h.hist_b@) == img.num_pixels(),
    {
        let mut hist_r: Vec<u64> = zeroed_bins();
        let mut hist_g: Vec<u64> = zeroed_bins();
        let mut hist_b: Vec<u64> = zeroed_bins();
        let n: usize = img.image.len();
        let ghost s = img.image@;
        proof {
            assert(s.take(0).len() == 0);
        }
        let mut i: usize = 0;
        while i < n
            invariant
                i <= n,
                n == s.len(),
                s == img.image@,
                is_histogram_of(hist_r@, s.take(i as int), 0),
                is_histogram_of(hist_g@, s.take(i as int), 1),
                is_histogram_of(hist_b@, s.take(i as int), 2),
            decreases n - i,
        {
            let v = img.image[i] as usize;
            proof {
                assert(s.take(i + 1).drop_last() =~= s.take(i as int));
                assert(s.take(i + 1).last() == s[i as int]);
                lemma_count_bounds(s.take(i as int), i as int % 3, s[i as int]);
                assert(usize::MAX <= u64::MAX);
            }
            if i % 3 == 0 {
                let c: u64 = hist_r[v];
                hist_r.set(v, c + 1);
            } else if i % 3 == 1 {
                let c: u64 = hist_g[v];
                hist_g.set(v, c + 1);
            } else {
                let c: u64 = hist_b[v];
                hist_b.set(v, c + 1);
            }
            i = i + 1;
        }
        proof {
            assert(s.take(n as int) =~= s);
            lemma_channel_sum(s, 0, hist_r@, img.width as int, img.height as int);
            lemma_channel_sum(s, 1, hist_g@, img.width as int, img.height as int);
            lemma_channel_sum(s, 2, hist_b@, img.width as int, img.height as int);
        }
        ChannelsHistogram {
            hist_r,
            hist_g,
            hist_b,
            width: img.get_width(),
            height: img.get_height(),
        }
    }

    /// Hands out the histogram of the selected channel.
    pub fn get_channel(&self, channel: Channel) -> (r: &Vec<u64>)
        ensures
            r@ == self.spec_channel(channel),
    {
        match channel {
            Channel::Red => &self.hist_r,
            Channel::Green => &self.hist_g,
            Channel::Blue => &self.hist_b,
        }
    }
}

/// A histogram of a whole buffer of `width * height` pixels sums to that
/// pixel count: histogram accumulation loses nothing and invents nothing.
proof fn lemma_channel_sum(img: Seq<u8>, c: int, hist: Seq<u64>, width: int, height: int)
    requires
        0 <= c < 3,
        img.len() == width * height * 3,
        is_histogram_of(hist, img, c),
    ensures
        sum_u64(hist) == width * height,
{
    lemma_sum_is_count_le(img, c, hist, 255);
    lemma_count_channel_total(img, c);
    assert(hist.take(256) =~= hist);
    let p = width * height;
    assert(img.len() as int == 3 * p);
    vstd::arithmetic::div_mod::lemma_fundamental_div_mod_converse(3 * p, 3, p, 0);
}

/// 256 bins, all zero.
fn zeroed_bins() -> (r: Vec<u64>)
    ensures
        r@.len() == 256,
        forall|v: int| 0 <= v < 256 ==> r@[v] == 0u64,
{
    let mut r: Vec<u64> = Vec::new();
    let mut i: usize = 0;
    while i < 256
        invariant
            i <= 256,
            r@.len() == i,
            forall|v: int| 0 <= v < i ==> r@[v] == 0u64,
        decreases 256 - i,
    {
        r.push(0);
        i = i + 1;
    }
    r
}

} // verus!
