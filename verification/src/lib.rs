//! Stacks pairs of astrophotography frames into one composite — by per-pixel
//! brightness selection or by per-pixel averaging — and registers one frame
//! against another: luma binarization as a detection aid, cross-checked
//! Hamming descriptor matching, robust affine estimation by consensus over
//! minimal samples, and bilinear resampling through the estimated transform.
//! Every stage is a pure function over the in-memory frame representation;
//! decoding, encoding and feature detection are external collaborators.

pub mod affine;
pub mod binarize;
pub mod composite;
pub mod format;
pub mod frame;
pub mod matching;
pub mod register;
pub mod warp;

pub use frame::Frame;
pub use frame::FrameView;
pub use frame::Pixel;
pub use frame::MAX_DIM;
pub use frame::luma1000;
pub use frame::luma_bin;

use vstd::prelude::*;

verus! {

/// The ways a stacking or registration run can fail.
#[derive(Clone, Copy, Debug, PartialEq, Eq, Structural)]
pub enum StackError {
    /// The command line named too many inputs or left a required path empty.
    UsageError,
    /// A file extension named no known raster or raw format.
    UnsupportedFormat,
    /// The external decoder rejected a file.
    DecodeFailure,
    /// Two frames handed to a compositor differ in width or height.
    DimensionMismatch,
    /// Too few good descriptor matches to attempt an affine fit.
    InsufficientCorrespondences,
    /// The consensus fit never reached the required inlier count.
    AlignmentFailed,
    /// A read or write handed to a collaborator failed.
    IOFailure,
}

} // verus!
