//! The decoded image that the pipeline reads and rewrites.

use crate::error::HistMatchError;
use vstd::prelude::*;

verus! {

/// An interleaved 8-bit RGB pixel buffer (`R, G, B, R, G, B, ...`)
/// together with its dimensions. Decoding a file into such a buffer, and
/// encoding the result back, is the caller's business; the pipeline only
/// ever sees these plain samples.
pub struct ImageChannels {
    /// The interleaved samples; the sample at position `i` belongs to
    /// channel `i % 3`.
    pub image: Vec<u8>,
    /// Width in pixels.
    pub width: u32,
    /// Height in pixels.
    pub height: u32,
}

impl ImageChannels {
    /// The buffer holds exactly `width * height` pixels of three samples
    /// each. `new` establishes this; everything downstream relies on it.
    pub open spec fn wf(self) -> bool {
        self.image@.len() == self.width * self.height * 3
    }

    /// Number of pixels in the image.
    pub open spec fn num_pixels(self) -> int {
        self.width * self.height
    }

    /// Wraps a decoded interleaved RGB buffer, validating its shape once
    /// so that no later stage has to rediscover a mismatch.
    pub fn new(image: Vec<u8>, width: u32, height: u32) -> (r: Result<Self, HistMatchError>)
        ensures
            match r {
                Ok(ic) => ic.image@ == image@ && ic.width == width && ic.height == height
                    && ic.wf(),
                Err(e) => e == HistMatchError::ShapeMismatch && image@.len() != width * height
                    * 3,
            },
    {
        let len: u64 = image.len() as u64;
        proof {
            vstd::arithmetic::mul::lemma_mul_upper_bound(
                width as int,
                u32::MAX as int,
                height as int,
                u32::MAX as int,
            );
        }
        let pixels: u64 = (width as u64) * (height as u64);
        proof {
            vstd::arithmetic::div_mod::lemma_fundamental_div_mod(len as int, 3);
            vstd::arithmetic::div_mod::lemma_fundamental_div_mod_converse(
                3 * pixels as int,
                3,
                pixels as int,
                0,
            );
        }
        if len % 3 == 0 && len / 3 == pixels {
            Ok(ImageChannels { image, width, height })
        } else {
            Err(HistMatchError::ShapeMismatch)
        }
    }

    /// Height in pixels.
    pub fn get_height(&self) -> (r: u32)
        ensures
            r == self.height,
    {
        self.height
    }

    /// Width in pixels.
    pub fn get_width(&self) -> (r: u32)
        ensures
            r == self.width,
    {
        self.width
    }
}

} // verus!
