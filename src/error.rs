use vstd::prelude::*;

verus! {

/// Why a mosaic could not be made.
#[derive(Clone, Copy, Debug, PartialEq, Eq, Structural)]
pub enum MosaicError {
    /// The image has no width or no height.
    InvalidInput,
    /// The sampling weights do not form a distribution.
    InvalidWeights,
}

} // verus!
