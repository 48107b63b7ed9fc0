//! Social-card image composition: a verified raster model, an anti-aliased
//! rounded-corner clipper working purely in integer arithmetic, and the layout
//! arithmetic of the card compositor.

use vstd::prelude::*;

pub mod compose;
pub mod corner;
pub mod cover;
pub mod laws;
pub mod models;
pub mod raster;

verus! {

/// The failure kinds of the card pipeline. Rounding itself is total once its
/// precondition holds; the other kinds are produced by the surrounding glue.
#[derive(Clone, Copy, Debug, PartialEq, Eq, Structural)]
pub enum ProcessError {
    /// The input bytes could not be decoded as an image.
    DecodeFailure,
    /// The corner radius is too large for the buffer: opposite corners would overlap.
    PreconditionViolation,
    /// The external text renderer could not rasterize a string.
    TextRenderingFailure,
}

} // verus!
