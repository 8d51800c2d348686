//! Domain enumerations and calibration records.
//!
//! Factory calibration carries IEEE 754 single-precision values (matrices
//! and channel ratios). The decoder never computes with them, it only
//! carries them through, so they are held here as their 32-bit bit
//! patterns; a consumer that does arithmetic reconstitutes the floats.

use vstd::prelude::*;

verus! {

/// The representation of the raw data in the LRI file.
#[derive(Copy, Clone, Debug, PartialEq, Eq, Structural)]
pub enum DataFormat {
    BayerJpeg,
    Packed10bpp,
}

/// Sixteen fixed camera identifiers in three physical groups of five, five
/// and six modules, stable across the whole device family.
#[derive(Copy, Clone, Debug, PartialEq, Eq, Hash, Structural)]
pub enum CameraId {
    A1,
    A2,
    A3,
    A4,
    A5,
    B1,
    B2,
    B3,
    B4,
    B5,
    C1,
    C2,
    C3,
    C4,
    C5,
    C6,
}

/// The eight standard reference illuminants a calibration profile can be
/// measured under.
#[derive(Copy, Clone, Debug, PartialEq, Eq, Structural)]
pub enum Whitepoint {
    A,
    D50,
    D65,
    D75,
    F2,
    F7,
    F11,
    TL84,
}

/// Known sensor part numbers. `Unknown` is the default until an image is
/// cross-referenced against the camera inventory.
#[derive(Copy, Clone, Debug, PartialEq, Eq, Structural)]
pub enum SensorModel {
    Unknown,
    Ar835,
    Ar1335,
    Ar1335Mono,
    Imx386,
    Imx386Mono,
}

#[derive(Copy, Clone, Debug, PartialEq, Eq, Structural)]
pub enum HdrMode {
    Off,
    Default,
    Natural,
    Surreal,
}

#[derive(Copy, Clone, Debug, PartialEq, Eq, Structural)]
pub enum SceneMode {
    Portrait,
    Landscape,
    Sport,
    Macro,
    Night,
    Off,
}

/// Auto white balance mode.
#[derive(Copy, Clone, Debug, PartialEq, Eq, Structural)]
pub enum AwbMode {
    Auto,
    Daylight,
}

/// Device-reported auto-white-balance gain per CFA channel, as IEEE 754
/// single-precision bit patterns.
#[derive(Copy, Clone, Debug, PartialEq, Eq, Structural)]
pub struct AwbGain {
    pub r: u32,
    pub gr: u32,
    pub gb: u32,
    pub b: u32,
}

/// A 3x3 matrix of IEEE 754 single-precision bit patterns, in row-major
/// order: `x<row><column>`.
#[derive(Copy, Clone, Debug, PartialEq, Eq, Structural)]
pub struct Mat3 {
    pub x00: u32,
    pub x01: u32,
    pub x02: u32,
    pub x10: u32,
    pub x11: u32,
    pub x12: u32,
    pub x20: u32,
    pub x21: u32,
    pub x22: u32,
}

impl Mat3 {
    /// The all-zero matrix (nine `+0.0` bit patterns).
    pub open spec fn zero_spec() -> Mat3 {
        Mat3 { x00: 0, x01: 0, x02: 0, x10: 0, x11: 0, x12: 0, x20: 0, x21: 0, x22: 0 }
    }

    /// Builds the all-zero matrix.
    pub fn zero() -> (m: Mat3)
        ensures
            m == Mat3::zero_spec(),
    {
        Mat3 { x00: 0, x01: 0, x02: 0, x10: 0, x11: 0, x12: 0, x20: 0, x21: 0, x22: 0 }
    }
}

/// Color information about one camera module at one whitepoint, used to
/// correct an image. A record is retained only if its forward matrix was
/// present in the source metadata.
#[derive(Copy, Clone, Debug, PartialEq, Eq, Structural)]
pub struct ColorInfo {
    /// Which camera this calibration belongs to.
    pub camera: CameraId,
    /// The whitepoint that the forward matrix corresponds to.
    pub whitepoint: Whitepoint,
    /// Camera RGB to CIE XYZ conversion matrix.
    pub forward_matrix: Mat3,
    /// A 3x3 matrix carried through decoding; its role is undocumented
    /// upstream, so it is preserved and never applied. All-zero when absent
    /// from the source metadata.
    pub color_matrix: Mat3,
    /// Red-green ratio.
    pub rg: u32,
    /// Blue-green ratio.
    pub bg: u32,
}

/// Maps a camera identifier to the sensor model it carries.
#[derive(Copy, Clone, Debug, PartialEq, Eq, Structural)]
pub struct CameraInfo {
    pub camera: CameraId,
    pub sensor: SensorModel,
}

/// Whether decoded samples are color or single-channel.
#[derive(Copy, Clone, Debug, PartialEq, Eq, Structural)]
pub enum ColorType {
    Rgb,
    Grayscale,
}

} // verus!
