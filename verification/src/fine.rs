//! Field-occurrence statistics over the messages of a file: how often
//! each modeled message field was present, across every block merged.

use vstd::prelude::*;
use crate::message::{LightHeaderMsg, ViewPreferencesMsg};

verus! {

/// `a + b`, capped at the largest representable count.
pub open spec fn sat_add(a: int, b: int) -> int {
    if a + b <= usize::MAX {
        a + b
    } else {
        usize::MAX as int
    }
}

/// Adds two counts, capping at the largest representable value.
fn sat_add_usize(a: usize, b: usize) -> (r: usize)
    ensures
        r == sat_add(a as int, b as int),
{
    if a <= usize::MAX - b {
        a + b
    } else {
        usize::MAX
    }
}

/// Occurrence counts of the modeled LightHeader fields: for an optional
/// field, in how many merged messages it was present; for a repeated
/// field, how many entries the merged messages carried in all.
#[derive(Copy, Clone, Debug, PartialEq, Eq, Structural)]
pub struct LightHeaderTally {
    pub hw_info: usize,
    pub module_calibration: usize,
    pub modules: usize,
    pub image_reference_camera: usize,
    pub device_fw_version: usize,
    pub image_focal_length: usize,
    pub af_info: usize,
}

/// Occurrence counts of the modeled ViewPreferences fields.
#[derive(Copy, Clone, Debug, PartialEq, Eq, Structural)]
pub struct ViewPreferencesTally {
    pub image_integration_time_ns: usize,
    pub image_gain: usize,
    pub hdr: usize,
    pub scene: usize,
    pub on_tripod: usize,
    pub awb: usize,
    pub awb_gain: usize,
}

/// The field-occurrence signature of a file's messages.
#[derive(Copy, Clone, Debug, PartialEq, Eq, Structural)]
pub struct Signature {
    pub lh: LightHeaderTally,
    pub vp: ViewPreferencesTally,
}

/// 1 when an optional field is present, 0 when absent.
pub open spec fn opt_count<T>(o: Option<T>) -> int {
    if o is Some {
        1
    } else {
        0
    }
}

/// The tally after one more LightHeader message.
pub open spec fn merge_spec(t: LightHeaderTally, msg: LightHeaderMsg) -> LightHeaderTally {
    LightHeaderTally {
        hw_info: sat_add(t.hw_info as int, opt_count(msg.hw_info)) as usize,
        module_calibration: sat_add(
            t.module_calibration as int,
            msg.module_calibration@.len() as int,
        ) as usize,
        modules: sat_add(t.modules as int, msg.modules@.len() as int) as usize,
        image_reference_camera: sat_add(
            t.image_reference_camera as int,
            opt_count(msg.image_reference_camera),
        ) as usize,
        device_fw_version: sat_add(
            t.device_fw_version as int,
            opt_count(msg.device_fw_version),
        ) as usize,
        image_focal_length: sat_add(
            t.image_focal_length as int,
            opt_count(msg.image_focal_length),
        ) as usize,
        af_info: sat_add(t.af_info as int, opt_count(msg.af_achieved)) as usize,
    }
}

impl Signature {
    /// A signature with nothing merged yet.
    pub fn new() -> (r: Signature)
        ensures
            r.lh == (LightHeaderTally {
                hw_info: 0,
                module_calibration: 0,
                modules: 0,
                image_reference_camera: 0,
                device_fw_version: 0,
                image_focal_length: 0,
                af_info: 0,
            }),
            r.vp == (ViewPreferencesTally {
                image_integration_time_ns: 0,
                image_gain: 0,
                hdr: 0,
                scene: 0,
                on_tripod: 0,
                awb: 0,
                awb_gain: 0,
            }),
    {
        Signature {
            lh: LightHeaderTally {
                hw_info: 0,
                module_calibration: 0,
                modules: 0,
                image_reference_camera: 0,
                device_fw_version: 0,
                image_focal_length: 0,
                af_info: 0,
            },
            vp: ViewPreferencesTally {
                image_integration_time_ns: 0,
                image_gain: 0,
                hdr: 0,
                scene: 0,
                on_tripod: 0,
                awb: 0,
                awb_gain: 0,
            },
        }
    }

    /// Merges one LightHeader message into the tallies.
    pub fn merge(&mut self, msg: &LightHeaderMsg)
        ensures
            final(self).lh == merge_spec(old(self).lh, *msg),
            final(self).vp == old(self).vp,
    {
        self.lh.hw_info = sat_add_usize(
            self.lh.hw_info,
            if msg.hw_info.is_some() {
                1
            } else {
                0
            },
        );
        self.lh.module_calibration = sat_add_usize(
            self.lh.module_calibration,
            msg.module_calibration.len(),
        );
        self.lh.modules = sat_add_usize(self.lh.modules, msg.modules.len());
        self.lh.image_reference_camera = sat_add_usize(
            self.lh.image_reference_camera,
            if msg.image_reference_camera.is_some() {
                1
            } else {
                0
            },
        );
        self.lh.device_fw_version = sat_add_usize(
            self.lh.device_fw_version,
            if msg.device_fw_version.is_some() {
                1
            } else {
                0
            },
        );
        self.lh.image_focal_length = sat_add_usize(
            self.lh.image_focal_length,
            if msg.image_focal_length.is_some() {
                1
            } else {
                0
            },
        );
        self.lh.af_info = sat_add_usize(
            self.lh.af_info,
            if msg.af_achieved.is_some() {
                1
            } else {
                0
            },
        );
    }

    /// ViewPreferences messages are recorded by no tally yet; merging one
    /// changes nothing.
    pub fn vp(&mut self, vp: &ViewPreferencesMsg)
        ensures
            *final(self) == *old(self),
    {
    }
}

} // verus!
