//! The logical content of the structured messages embedded in blocks.
//!
//! The wire encoding of these messages is the business of an external
//! schema-driven message decoder; this decoder's contract with it is only
//! the field list below. A field the format marks optional is an `Option`;
//! floating-point fields are carried as IEEE 754 bit patterns.

use vstd::prelude::*;
use crate::types::{
    AwbGain,
    AwbMode,
    CameraId,
    DataFormat,
    HdrMode,
    Mat3,
    SceneMode,
    SensorModel,
    Whitepoint,
};

verus! {

/// One hardware-inventory entry: which sensor a camera module carries.
#[derive(Copy, Clone, Debug, PartialEq, Eq, Structural)]
pub struct CameraEntry {
    pub camera: CameraId,
    pub sensor: SensorModel,
}

/// One color calibration entry within a module calibration.
#[derive(Copy, Clone, Debug, PartialEq, Eq, Structural)]
pub struct ColorEntry {
    pub whitepoint: Whitepoint,
    /// Camera RGB to CIE XYZ matrix; an entry without one is dropped.
    pub forward_matrix: Option<Mat3>,
    /// Secondary matrix of undocumented role; all-zero when absent.
    pub color_matrix: Option<Mat3>,
    /// Red-green ratio bit pattern.
    pub rg: u32,
    /// Blue-green ratio bit pattern.
    pub bg: u32,
}

/// Factory calibration of one camera module: its color entries.
#[derive(Clone, Debug)]
pub struct ModuleCalibration {
    pub camera: CameraId,
    pub color: Vec<ColorEntry>,
}

/// The raw-data surface of a camera-module entry: where its pixel payload
/// lies within the owning block and in what shape.
#[derive(Copy, Clone, Debug, PartialEq, Eq, Structural)]
pub struct Surface {
    pub width: u32,
    pub height: u32,
    /// Offset of the payload from the start of the owning block.
    pub data_offset: u64,
    pub row_stride: u32,
    pub format: DataFormat,
}

/// One camera-module entry. A module without a raw-data surface carries no
/// image and is skipped; one with a surface but without the sensor bayer
/// red override is a fatal input-contract violation.
#[derive(Copy, Clone, Debug, PartialEq, Eq)]
pub struct ModuleEntry {
    pub camera: CameraId,
    pub sensor_data_surface: Option<Surface>,
    pub sensor_bayer_red_override: Option<(i32, i32)>,
}

/// The logical fields read from a LightHeader message.
#[derive(Clone, Debug)]
pub struct LightHeaderMsg {
    pub hw_info: Option<Vec<CameraEntry>>,
    pub module_calibration: Vec<ModuleCalibration>,
    pub modules: Vec<ModuleEntry>,
    pub image_reference_camera: Option<CameraId>,
    pub device_fw_version: Option<String>,
    pub image_focal_length: Option<i32>,
    /// Whether autofocus reported success.
    pub af_achieved: Option<bool>,
}

/// The logical fields read from a ViewPreferences message.
#[derive(Clone, Debug)]
pub struct ViewPreferencesMsg {
    pub image_integration_time_ns: Option<u64>,
    /// Gain bit pattern.
    pub image_gain: Option<u32>,
    pub hdr: Option<HdrMode>,
    pub scene: Option<SceneMode>,
    pub on_tripod: Option<bool>,
    pub awb: Option<AwbMode>,
    pub awb_gain: Option<AwbGain>,
}

/// A block's decoded message, by block kind. GPS data is read but not
/// required for any modeled output, so it folds as a no-op.
#[derive(Clone, Debug)]
pub enum Message {
    LightHeader(LightHeaderMsg),
    ViewPreferences(ViewPreferencesMsg),
    Gps,
}

} // verus!
