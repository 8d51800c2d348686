//! Error taxonomy for whole-file decoding.
//!
//! Structural violations abort the decode of the whole file; offsets locate
//! the byte at which the violated invariant was detected.

use vstd::prelude::*;
use crate::types::CameraId;

verus! {

/// A terminating decode error. Structural violations (bad magic, unknown
/// block kind, out-of-bounds slices, an unsupported tiling discriminant, an
/// invalid color-filter offset pair) are fatal: they indicate corruption or
/// an unrecognized format revision.
#[derive(Clone, Copy, Debug, PartialEq, Eq, Structural)]
pub enum LriError {
    /// The four magic bytes at the given offset are not `LELR`.
    MalformedContainer { offset: usize },
    /// The block kind byte at the given offset is none of the known tags.
    UnknownBlockKind { offset: usize, kind: u8 },
    /// A declared block length overruns the remaining buffer, or too few
    /// bytes remain for a block header.
    TruncatedBlock { offset: usize },
    /// A payload slice computed from a raw-image descriptor overruns its
    /// owning block; `offset` is the surface's declared payload offset.
    OutOfBoundsPayload { offset: u64 },
    /// The external schema decoder could not decode a block's message.
    MessageDecodeError { offset: usize },
    /// The tiled-payload format discriminant is neither of the two known
    /// variants.
    UnsupportedBayerJpegVariant { variant: u32 },
    /// A sensor bayer red override pair that resolves to no known
    /// color-filter pattern.
    InvalidBayerOffset { x: i32, y: i32 },
    /// A module carries a raw-data surface but no sensor bayer red
    /// override, which is required to resolve the color-filter pattern.
    MissingRequiredOverride { camera: CameraId },
}

impl LriError {
    /// A short human-readable name for the error, for diagnostics.
    pub fn name(&self) -> (r: &'static str)
        ensures
            r@ == match self {
                LriError::MalformedContainer { .. } => "malformed container"@,
                LriError::UnknownBlockKind { .. } => "unknown block kind"@,
                LriError::TruncatedBlock { .. } => "truncated block"@,
                LriError::OutOfBoundsPayload { .. } => "out of bounds payload"@,
                LriError::MessageDecodeError { .. } => "message decode error"@,
                LriError::UnsupportedBayerJpegVariant { .. } => "unsupported bayer jpeg variant"@,
                LriError::InvalidBayerOffset { .. } => "invalid bayer offset"@,
                LriError::MissingRequiredOverride { .. } => "missing required override"@,
            },
    {
        match self {
            LriError::MalformedContainer { .. } => "malformed container",
            LriError::UnknownBlockKind { .. } => "unknown block kind",
            LriError::TruncatedBlock { .. } => "truncated block",
            LriError::OutOfBoundsPayload { .. } => "out of bounds payload",
            LriError::MessageDecodeError { .. } => "message decode error",
            LriError::UnsupportedBayerJpegVariant { .. } => "unsupported bayer jpeg variant",
            LriError::InvalidBayerOffset { .. } => "invalid bayer offset",
            LriError::MissingRequiredOverride { .. } => "missing required override",
        }
    }
}

} // verus!
