//! The terminal failure conditions of a mosaic run.

use vstd::prelude::*;

verus! {

/// Why a mosaic run aborted. Every variant is terminal: the run produces no
/// output. Decoding and encoding failures of the image files live with the
/// image I/O at the pipeline's edge and are not part of the core.
#[derive(Debug, Clone, Copy, PartialEq, Eq, Structural)]
pub enum MosaicError {
    /// The requested tile size is zero on at least one axis.
    ConfigurationError,
    /// No source images were supplied, or none contains even one full tile.
    InsufficientSourceMaterial,
}

} // verus!
