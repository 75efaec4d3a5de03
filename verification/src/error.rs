//! Error values reported by the matching pipeline.

use vstd::prelude::*;

verus! {

/// The ways a matching operation can fail.
///
/// Selecting an invalid channel is impossible by construction: channels are
/// a closed enumeration, so no error variant is needed for it.
#[derive(Clone, Copy, Debug, PartialEq, Eq, Structural)]
pub enum HistMatchError {
    /// An input image has zero pixels; its distribution is undefined, so
    /// normalizing the cumulative histogram would divide by zero.
    EmptyImage,
    /// An interleaved RGB buffer whose length is not width * height * 3.
    ShapeMismatch,
}

} // verus!
