//! What can go wrong while a mosaic is made.

use vstd::prelude::*;

verus! {

/// The two ways in which a step of the pipeline can be handed nothing to work on.
#[derive(Clone, Copy, Debug, PartialEq, Eq, Structural)]
pub enum MosaicError {
    /// A mean was asked of a region that holds no pixel.
    EmptyRegion,
    /// A nearest brick was asked of a palette that holds no brick.
    EmptyPalette,
}

} // verus!
