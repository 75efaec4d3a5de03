//! Histogram matching (histogram specification) for 8-bit RGB images.
//!
//! Given a source image and a reference image, the library remaps every
//! source pixel so that the source's per-channel value distribution
//! approximates the reference's, while leaving pixel positions untouched.
//! The pipeline per channel is: histogram accumulation, cumulative
//! distribution, 8-bit quantization by ceiling, nearest-cumulative-frequency
//! lookup-table construction, and a per-pixel remap.

pub mod cdf;
pub mod error;
pub mod histogram;
pub mod image;
pub mod mapping;
pub mod matching;
pub mod model;

pub use cdf::NormalizedCdf;
pub use cdf::cdf;
pub use cdf::cumwantsome;
pub use cdf::equalize;
pub use error::HistMatchError;
pub use histogram::Channel;
pub use histogram::ChannelsHistogram;
pub use image::ImageChannels;
pub use mapping::mapping;
pub use matching::apply;
pub use matching::match_histogram_rgb_array;
