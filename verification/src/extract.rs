//! Folding one block's decoded message into the file accumulator: camera
//! inventory, color calibration, raw-image descriptors and scalar
//! acquisition settings.

use vstd::prelude::*;
use crate::block::Block;
use crate::error::LriError;
use crate::image::{ImageModel, RawImage};
use crate::message::{
    ColorEntry,
    LightHeaderMsg,
    Message,
    ModuleCalibration,
    ModuleEntry,
    ViewPreferencesMsg,
};
use crate::payload::{locate_payload, locate_spec};
use crate::types::{
    AwbGain,
    AwbMode,
    CameraId,
    CameraInfo,
    ColorInfo,
    HdrMode,
    Mat3,
    SceneMode,
    SensorModel,
};

verus! {

/// Scalar acquisition settings and cross-block state accumulated while
/// folding blocks; created empty, mutated once per block, then consumed to
/// build the final decoded-file result. Every scalar is recorded only on
/// its first occurrence across all blocks of the file.
#[derive(Clone, Debug)]
pub struct ExtractedData {
    pub reference_camera: Option<CameraId>,
    pub fw_version: Option<String>,
    pub focal_length: Option<i32>,
    pub image_gain: Option<u32>,
    /// Integration time in nanoseconds.
    pub image_integration_time: Option<u64>,
    pub af_achieved: Option<bool>,
    pub hdr: Option<HdrMode>,
    pub scene: Option<SceneMode>,
    pub on_tripod: Option<bool>,
    pub awb: Option<AwbMode>,
    pub awb_gain: Option<AwbGain>,
}

/// The accumulator before any block has been folded.
pub open spec fn empty_extracted() -> ExtractedData {
    ExtractedData {
        reference_camera: None,
        fw_version: None,
        focal_length: None,
        image_gain: None,
        image_integration_time: None,
        af_achieved: None,
        hdr: None,
        scene: None,
        on_tripod: None,
        awb: None,
        awb_gain: None,
    }
}

impl ExtractedData {
    /// An accumulator with nothing recorded yet.
    pub fn new() -> (r: ExtractedData)
        ensures
            r == empty_extracted(),
    {
        ExtractedData {
            reference_camera: None,
            fw_version: None,
            focal_length: None,
            image_gain: None,
            image_integration_time: None,
            af_achieved: None,
            hdr: None,
            scene: None,
            on_tripod: None,
            awb: None,
            awb_gain: None,
        }
    }
}

impl Default for ExtractedData {
    /// An accumulator with nothing recorded yet.
    fn default() -> (r: ExtractedData)
        ensures
            r == empty_extracted(),
    {
        ExtractedData::new()
    }
}

/// The camera inventory a LightHeader message contributes.
pub open spec fn inventory_of(msg: LightHeaderMsg) -> Seq<CameraInfo> {
    match msg.hw_info {
        Some(v) => v@.map_values(
            |e: crate::message::CameraEntry| CameraInfo { camera: e.camera, sensor: e.sensor },
        ),
        None => Seq::empty(),
    }
}

/// The color records one calibration entry contributes: kept only if its
/// forward matrix is present, with an absent color matrix defaulting to
/// the all-zero matrix.
pub open spec fn color_of_entry(cam: CameraId, e: ColorEntry) -> Seq<ColorInfo> {
    match e.forward_matrix {
        Some(fm) => seq![
            ColorInfo {
                camera: cam,
                whitepoint: e.whitepoint,
                forward_matrix: fm,
                color_matrix: match e.color_matrix {
                    Some(cm) => cm,
                    None => Mat3::zero_spec(),
                },
                rg: e.rg,
                bg: e.bg,
            },
        ],
        None => Seq::empty(),
    }
}

/// The color records one module calibration contributes, in entry order.
pub open spec fn colors_of_cal(mc: ModuleCalibration) -> Seq<ColorInfo> {
    mc.color@.map_values(|e: ColorEntry| color_of_entry(mc.camera, e)).flatten()
}

/// The color records a LightHeader message contributes, in encounter
/// order.
pub open spec fn colors_of(msg: LightHeaderMsg) -> Seq<ColorInfo> {
    msg.module_calibration@.map_values(|mc: ModuleCalibration| colors_of_cal(mc)).flatten()
}

/// The image one camera-module entry contributes: none without a raw-data
/// surface; with one, its payload is located in the owning block's bytes
/// and the sensor bayer red override is required.
pub open spec fn module_image(m: ModuleEntry, data: Seq<u8>) -> Result<
    Option<ImageModel>,
    LriError,
> {
    match m.sensor_data_surface {
        None => Ok(None),
        Some(sur) => match locate_spec(sur, data) {
            Err(e) => Err(e),
            Ok(pd) => match m.sensor_bayer_red_override {
                None => Err(LriError::MissingRequiredOverride { camera: m.camera }),
                Some(sb) => Ok(
                    Some(
                        ImageModel {
                            camera: m.camera,
                            sensor: SensorModel::Unknown,
                            width: sur.width as usize,
                            height: sur.height as usize,
                            format: sur.format,
                            data: pd,
                            sbro: sb,
                            color: Seq::empty(),
                        },
                    ),
                ),
            },
        },
    }
}

/// The images a LightHeader message's modules contribute, in module
/// order, or the first error among them.
pub open spec fn images_of(mods: Seq<ModuleEntry>, data: Seq<u8>) -> Result<
    Seq<ImageModel>,
    LriError,
>
    decreases mods.len(),
{
    if mods.len() == 0 {
        Ok(Seq::empty())
    } else {
        match module_image(mods.first(), data) {
            Err(e) => Err(e),
            Ok(opt) => match images_of(mods.drop_first(), data) {
                Err(e2) => Err(e2),
                Ok(rest) => Ok(
                    match opt {
                        Some(im) => seq![im].add(rest),
                        None => rest,
                    },
                ),
            },
        }
    }
}

/// Scanning two module runs in turn: the first error wins, and clean
/// runs concatenate their images.
proof fn lemma_images_concat(a: Seq<ModuleEntry>, b: Seq<ModuleEntry>, data: Seq<u8>)
    ensures
        images_of(a.add(b), data) == match images_of(a, data) {
            Err(e) => Err::<Seq<ImageModel>, LriError>(e),
            Ok(s) => match images_of(b, data) {
                Err(e2) => Err::<Seq<ImageModel>, LriError>(e2),
                Ok(r) => Ok::<Seq<ImageModel>, LriError>(s.add(r)),
            },
        },
    decreases a.len(),
{
    if a.len() == 0 {
        assert(a.add(b) =~= b);
        match images_of(b, data) {
            Ok(r) => {
                assert(Seq::<ImageModel>::empty().add(r) =~= r);
            },
            Err(_) => {},
        }
    } else {
        assert(a.add(b).first() == a.first());
        assert(a.add(b).drop_first() =~= a.drop_first().add(b));
        lemma_images_concat(a.drop_first(), b, data);
        match module_image(a.first(), data) {
            Err(_) => {},
            Ok(opt0) => {
                match (images_of(a.drop_first(), data), images_of(b, data)) {
                    (Ok(s1), Ok(r)) => {
                        match opt0 {
                            Some(im0) => {
                                assert(seq![im0].add(s1.add(r)) =~= seq![im0].add(s1).add(r));
                            },
                            None => {},
                        }
                    },
                    _ => {},
                }
            },
        }
    }
}

/// One more module after some processed ones: its image, if any, comes
/// last; its error only surfaces if the earlier modules were clean.
proof fn lemma_images_snoc(mods: Seq<ModuleEntry>, m: ModuleEntry, data: Seq<u8>)
    ensures
        images_of(mods.push(m), data) == match images_of(mods, data) {
            Err(e) => Err::<Seq<ImageModel>, LriError>(e),
            Ok(s) => match module_image(m, data) {
                Err(e) => Err::<Seq<ImageModel>, LriError>(e),
                Ok(opt) => Ok::<Seq<ImageModel>, LriError>(
                    match opt {
                        Some(im) => s.push(im),
                        None => s,
                    },
                ),
            },
        },
{
    assert(mods.push(m) =~= mods.add(seq![m]));
    lemma_images_concat(mods, seq![m], data);
    assert(seq![m].first() == m);
    assert(seq![m].drop_first() =~= Seq::<ModuleEntry>::empty());
    assert(images_of(Seq::<ModuleEntry>::empty(), data) == Ok::<Seq<ImageModel>, LriError>(
        Seq::<ImageModel>::empty(),
    ));
    match module_image(m, data) {
        Err(_) => {},
        Ok(opt) => {
            match opt {
                Some(im) => {
                    assert(images_of(seq![m], data) == Ok::<Seq<ImageModel>, LriError>(
                        seq![im].add(Seq::<ImageModel>::empty()),
                    ));
                    assert(seq![im].add(Seq::<ImageModel>::empty()) =~= seq![im]);
                    match images_of(mods, data) {
                        Ok(s) => {
                            assert(s.add(seq![im]) =~= s.push(im));
                        },
                        Err(_) => {},
                    }
                },
                None => {
                    match images_of(mods, data) {
                        Ok(s) => {
                            assert(s.add(Seq::<ImageModel>::empty()) =~= s);
                        },
                        Err(_) => {},
                    }
                },
            }
        },
    }
}

/// An error met at module `i`, after `i` clean modules, is the error of
/// the whole run.
proof fn lemma_images_err_at(mods: Seq<ModuleEntry>, data: Seq<u8>, i: int, e: LriError)
    requires
        0 <= i < mods.len(),
        images_of(mods.take(i), data) is Ok,
        module_image(mods[i], data) == Err::<Option<ImageModel>, LriError>(e),
    ensures
        images_of(mods, data) == Err::<Seq<ImageModel>, LriError>(e),
{
    assert(mods.take(i + 1) =~= mods.take(i).push(mods[i]));
    lemma_images_snoc(mods.take(i), mods[i], data);
    assert(images_of(mods.take(i + 1), data) == Err::<Seq<ImageModel>, LriError>(e));
    assert(mods =~= mods.take(i + 1).add(mods.skip(i + 1)));
    lemma_images_concat(mods.take(i + 1), mods.skip(i + 1), data);
}

/// First-wins folding of a LightHeader message's scalars into the
/// accumulator: a field already recorded is kept; one not yet recorded
/// takes the message's value, if it carries one.
pub open spec fn lh_scalars(ext: ExtractedData, msg: LightHeaderMsg) -> ExtractedData {
    ExtractedData {
        reference_camera: if ext.reference_camera is Some {
            ext.reference_camera
        } else {
            msg.image_reference_camera
        },
        fw_version: if ext.fw_version is Some {
            ext.fw_version
        } else {
            msg.device_fw_version
        },
        focal_length: if ext.focal_length is Some {
            ext.focal_length
        } else {
            msg.image_focal_length
        },
        af_achieved: if ext.af_achieved is Some {
            ext.af_achieved
        } else {
            msg.af_achieved
        },
        image_gain: ext.image_gain,
        image_integration_time: ext.image_integration_time,
        hdr: ext.hdr,
        scene: ext.scene,
        on_tripod: ext.on_tripod,
        awb: ext.awb,
        awb_gain: ext.awb_gain,
    }
}

/// First-wins folding of a ViewPreferences message's scalars into the
/// accumulator.
pub open spec fn vp_scalars(ext: ExtractedData, vp: ViewPreferencesMsg) -> ExtractedData {
    ExtractedData {
        reference_camera: ext.reference_camera,
        fw_version: ext.fw_version,
        focal_length: ext.focal_length,
        af_achieved: ext.af_achieved,
        image_gain: if ext.image_gain is Some {
            ext.image_gain
        } else {
            vp.image_gain
        },
        image_integration_time: if ext.image_integration_time is Some {
            ext.image_integration_time
        } else {
            vp.image_integration_time_ns
        },
        hdr: if ext.hdr is Some {
            ext.hdr
        } else {
            vp.hdr
        },
        scene: if ext.scene is Some {
            ext.scene
        } else {
            vp.scene
        },
        on_tripod: if ext.on_tripod is Some {
            ext.on_tripod
        } else {
            vp.on_tripod
        },
        awb: if ext.awb is Some {
            ext.awb
        } else {
            vp.awb
        },
        awb_gain: if ext.awb_gain is Some {
            ext.awb_gain
        } else {
            vp.awb_gain
        },
    }
}

/// Folds a ViewPreferences message into the accumulator, first-wins.
pub fn extract_view(vp: &ViewPreferencesMsg, ext: &mut ExtractedData)
    ensures
        *final(ext) == vp_scalars(*old(ext), *vp),
{
    if ext.image_gain.is_none() {
        ext.image_gain = vp.image_gain;
    }
    if ext.image_integration_time.is_none() {
        ext.image_integration_time = vp.image_integration_time_ns;
    }
    if ext.hdr.is_none() {
        ext.hdr = vp.hdr;
    }
    if ext.scene.is_none() {
        ext.scene = vp.scene;
    }
    if ext.on_tripod.is_none() {
        ext.on_tripod = vp.on_tripod;
    }
    if ext.awb.is_none() {
        ext.awb = vp.awb;
    }
    if ext.awb_gain.is_none() {
        ext.awb_gain = vp.awb_gain;
    }
}

impl Block {
    /// Folds one block's decoded message into the accumulator: hardware
    /// entries extend the camera inventory, calibration entries with a
    /// forward matrix extend the color records, camera modules with a
    /// raw-data surface contribute images whose payloads are sliced out of
    /// this block, and scalars are recorded first-wins. On an error
    /// nothing is changed.
    pub fn extract_meaningful_data(
        &self,
        msg: &Message,
        ext: &mut ExtractedData,
        images: &mut Vec<RawImage>,
        colors: &mut Vec<ColorInfo>,
        infos: &mut Vec<CameraInfo>,
    ) -> (r: Result<(), LriError>)
        ensures
            match *msg {
                Message::LightHeader(lh) => match images_of(lh.modules@, self.data@) {
                    Ok(ims) => {
                        &&& r is Ok
                        &&& final(infos)@ == old(infos)@ + inventory_of(lh)
                        &&& final(colors)@ == old(colors)@ + colors_of(lh)
                        &&& final(images)@.map_values(|im: RawImage| im.model()) == old(images)@
                            .map_values(|im: RawImage| im.model()) + ims
                        &&& *final(ext) == lh_scalars(*old(ext), lh)
                    },
                    Err(e) => {
                        &&& r == Err::<(), LriError>(e)
                        &&& final(infos)@ == old(infos)@
                        &&& final(colors)@ == old(colors)@
                        &&& final(images)@ == old(images)@
                        &&& *final(ext) == *old(ext)
                    },
                },
                Message::ViewPreferences(vp) => {
                    &&& r is Ok
                    &&& *final(ext) == vp_scalars(*old(ext), vp)
                    &&& final(infos)@ == old(infos)@
                    &&& final(colors)@ == old(colors)@
                    &&& final(images)@ == old(images)@
                },
                Message::Gps => {
                    &&& r is Ok
                    &&& final(infos)@ == old(infos)@
                    &&& final(colors)@ == old(colors)@
                    &&& final(images)@ == old(images)@
                    &&& *final(ext) == *old(ext)
                },
            },
    {
        let lh = match msg {
            Message::LightHeader(lh) => lh,
            Message::ViewPreferences(vp) => {
                extract_view(vp, ext);
                return Ok(());
            },
            Message::Gps => {
                return Ok(());
            },
        };
        // The images themselves, into a scratch list so that an error
        // leaves the accumulator untouched.
        let mut fresh: Vec<RawImage> = Vec::new();
        let mut i: usize = 0;
        let ghost mods = lh.modules@;
        proof {
            assert(mods.take(0) =~= Seq::<ModuleEntry>::empty());
            assert(fresh@.map_values(|im: RawImage| im.model()) =~= Seq::<ImageModel>::empty());
        }
        while i < lh.modules.len()
            invariant
                i <= mods.len(),
                mods == lh.modules@,
                match *msg {
                    Message::LightHeader(lh2) => lh2.modules@ == mods,
                    _ => false,
                },
                images_of(mods.take(i as int), self.data@) == Ok::<Seq<ImageModel>, LriError>(
                    fresh@.map_values(|im: RawImage| im.model()),
                ),
                infos@ == old(infos)@,
                colors@ == old(colors)@,
                images@ == old(images)@,
                *ext == *old(ext),
            decreases mods.len() - i,
        {
            let ghost pre = mods.take(i as int);
            let m = &lh.modules[i];
            let surface = match m.sensor_data_surface {
                Some(sur) => sur,
                None => {
                    proof {
                        assert(mods.take(i + 1) =~= pre.push(mods[i as int]));
                        lemma_images_snoc(pre, mods[i as int], self.data@);
                    }
                    i = i + 1;
                    continue ;
                },
            };
            let payload = match locate_payload(&surface, self.data.as_slice()) {
                Ok(pd) => pd,
                Err(e) => {
                    proof {
                        assert(module_image(mods[i as int], self.data@) == Err::<
                            Option<ImageModel>,
                            LriError,
                        >(e));
                        lemma_images_err_at(mods, self.data@, i as int, e);
                    }
                    return Err(e);
                },
            };
            let sbro = match m.sensor_bayer_red_override {
                Some(sb) => sb,
                None => {
                    let e = LriError::MissingRequiredOverride { camera: m.camera };
                    proof {
                        assert(module_image(mods[i as int], self.data@) == Err::<
                            Option<ImageModel>,
                            LriError,
                        >(e));
                        lemma_images_err_at(mods, self.data@, i as int, e);
                    }
                    return Err(e);
                },
            };
            let img = RawImage {
                camera: m.camera,
                // Populated after all the blocks are processed
                sensor: SensorModel::Unknown,
                width: surface.width as usize,
                height: surface.height as usize,
                format: surface.format,
                data: payload,
                sbro,
                // Populated after all the blocks are processed
                color: Vec::new(),
            };
            proof {
                assert(img.model().color =~= Seq::<ColorInfo>::empty());
                assert(module_image(mods[i as int], self.data@) == Ok::<
                    Option<ImageModel>,
                    LriError,
                >(Some(img.model())));
            }
            let ghost fresh_pre = fresh@;
            fresh.push(img);
            i = i + 1;
            proof {
                assert(fresh@.map_values(|im: RawImage| im.model()) =~= fresh_pre.map_values(
                    |im: RawImage| im.model(),
                ).push(img.model()));
                assert(mods.take(i as int) =~= pre.push(mods[i - 1]));
                lemma_images_snoc(pre, mods[i - 1], self.data@);
            }
        }
        proof {
            assert(mods.take(i as int) =~= mods);
        }
        // Form the CameraInfo records mapping CameraId to sensor model.
        if let Some(hw) = &lh.hw_info {
            let mut a: usize = 0;
            let ghost infos0 = infos@;
            proof {
                assert(infos0 + hw@.take(0).map_values(
                    |e: crate::message::CameraEntry| CameraInfo { camera: e.camera, sensor: e.sensor },
                ) =~= infos0);
            }
            while a < hw.len()
                invariant
                    a <= hw@.len(),
                    infos@ == infos0 + hw@.take(a as int).map_values(
                        |e: crate::message::CameraEntry| CameraInfo {
                            camera: e.camera,
                            sensor: e.sensor,
                        },
                    ),
                decreases hw@.len() - a,
            {
                let e = hw[a];
                infos.push(CameraInfo { camera: e.camera, sensor: e.sensor });
                a = a + 1;
                proof {
                    assert(hw@.take(a as int) =~= hw@.take(a - 1).push(hw@[a - 1]));
                    assert(infos@ =~= infos0 + hw@.take(a as int).map_values(
                        |e: crate::message::CameraEntry| CameraInfo {
                            camera: e.camera,
                            sensor: e.sensor,
                        },
                    ));
                }
            }
            proof {
                assert(hw@.take(hw@.len() as int) =~= hw@);
            }
        } else {
            proof {
                assert(infos@ =~= infos@ + inventory_of(*lh));
            }
        }
        // Color information for the camera modules.
        let mut a: usize = 0;
        let ghost colors0 = colors@;
        let ghost mcals = lh.module_calibration@;
        proof {
            assert(mcals.take(0).map_values(|mc: ModuleCalibration| colors_of_cal(mc)).flatten()
                =~= Seq::<ColorInfo>::empty());
            assert(colors@ =~= colors0 + mcals.take(0).map_values(
                |mc: ModuleCalibration| colors_of_cal(mc),
            ).flatten());
        }
        while a < lh.module_calibration.len()
            invariant
                a <= mcals.len(),
                mcals == lh.module_calibration@,
                colors@ == colors0 + mcals.take(a as int).map_values(
                    |mc: ModuleCalibration| colors_of_cal(mc),
                ).flatten(),
            decreases mcals.len() - a,
        {
            let mcal = &lh.module_calibration[a];
            let camera = mcal.camera;
            let mut b: usize = 0;
            let ghost colors1 = colors@;
            let ghost entries = mcal.color@;
            proof {
                assert(entries.take(0).map_values(|e: ColorEntry| color_of_entry(camera, e))
                    .flatten() =~= Seq::<ColorInfo>::empty());
                assert(colors@ =~= colors1 + entries.take(0).map_values(
                    |e: ColorEntry| color_of_entry(camera, e),
                ).flatten());
            }
            while b < mcal.color.len()
                invariant
                    b <= entries.len(),
                    entries == mcal.color@,
                    camera == mcal.camera,
                    colors@ == colors1 + entries.take(b as int).map_values(
                        |e: ColorEntry| color_of_entry(camera, e),
                    ).flatten(),
                decreases entries.len() - b,
            {
                let e = mcal.color[b];
                let ghost epre = entries.take(b as int).map_values(
                    |e: ColorEntry| color_of_entry(camera, e),
                );
                if let Some(fm) = e.forward_matrix {
                    let cm = match e.color_matrix {
                        Some(cm) => cm,
                        // The forward matrix is what we want: without it the
                        // entry is dropped; a missing color matrix is only
                        // zero-filled.
                        None => Mat3::zero(),
                    };
                    colors.push(
                        ColorInfo {
                            camera,
                            whitepoint: e.whitepoint,
                            forward_matrix: fm,
                            color_matrix: cm,
                            rg: e.rg,
                            bg: e.bg,
                        },
                    );
                }
                b = b + 1;
                proof {
                    assert(entries.take(b as int) =~= entries.take(b - 1).push(entries[b - 1]));
                    assert(entries.take(b as int).map_values(
                        |e: ColorEntry| color_of_entry(camera, e),
                    ) =~= epre.push(color_of_entry(camera, entries[b - 1])));
                    epre.lemma_flatten_push(color_of_entry(camera, entries[b - 1]));
                    assert(colors@ =~= colors1 + entries.take(b as int).map_values(
                        |e: ColorEntry| color_of_entry(camera, e),
                    ).flatten());
                }
            }
            a = a + 1;
            proof {
                assert(entries.take(entries.len() as int) =~= entries);
                assert(colors@ =~= colors1 + colors_of_cal(mcals[a - 1]));
                let mpre = mcals.take(a - 1).map_values(|mc: ModuleCalibration| colors_of_cal(mc));
                assert(mcals.take(a as int) =~= mcals.take(a - 1).push(mcals[a - 1]));
                assert(mcals.take(a as int).map_values(|mc: ModuleCalibration| colors_of_cal(mc))
                    =~= mpre.push(colors_of_cal(mcals[a - 1])));
                mpre.lemma_flatten_push(colors_of_cal(mcals[a - 1]));
                assert(colors@ =~= colors0 + mcals.take(a as int).map_values(
                    |mc: ModuleCalibration| colors_of_cal(mc),
                ).flatten());
            }
        }
        proof {
            assert(mcals.take(mcals.len() as int) =~= mcals);
        }
        // Hand the scratch images over.
        let ghost images0 = images@;
        let ghost freshm = fresh@.map_values(|im: RawImage| im.model());
        images.append(&mut fresh);
        proof {
            assert(images@.map_values(|im: RawImage| im.model()) =~= images0.map_values(
                |im: RawImage| im.model(),
            ) + freshm);
        }
        // Scalars, first-wins.
        if ext.reference_camera.is_none() {
            ext.reference_camera = lh.image_reference_camera;
        }
        if ext.fw_version.is_none() {
            ext.fw_version = match &lh.device_fw_version {
                Some(s) => Some(s.clone()),
                None => None,
            };
        }
        if ext.focal_length.is_none() {
            ext.focal_length = lh.image_focal_length;
        }
        if ext.af_achieved.is_none() {
            ext.af_achieved = lh.af_achieved;
        }
        Ok(())
    }
}


/// Color entry retention: an entry carrying a forward matrix but no color
/// matrix is retained with the all-zero color matrix; an entry carrying
/// neither matrix is dropped.
pub proof fn lemma_color_entry_retention(cam: CameraId, e: ColorEntry)
    ensures
        e.forward_matrix is Some && e.color_matrix is None ==> color_of_entry(cam, e) == seq![
            ColorInfo {
                camera: cam,
                whitepoint: e.whitepoint,
                forward_matrix: e.forward_matrix->0,
                color_matrix: Mat3::zero_spec(),
                rg: e.rg,
                bg: e.bg,
            },
        ],
        e.forward_matrix is None ==> color_of_entry(cam, e) == Seq::<ColorInfo>::empty(),
{
}

/// First-wins scalar accumulation: when an accumulator that has not yet
/// recorded a firmware version folds two LightHeader messages in order,
/// and the first carries a firmware version, the first one's value is
/// retained whatever the second carries.
pub proof fn lemma_first_wins_firmware(ext: ExtractedData, m1: LightHeaderMsg, m2: LightHeaderMsg)
    requires
        ext.fw_version is None,
        m1.device_fw_version is Some,
    ensures
        lh_scalars(lh_scalars(ext, m1), m2).fw_version == m1.device_fw_version,
{
}

} // verus!
