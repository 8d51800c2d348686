//! Decoder for the LRI multi-sensor camera raw container format: a sequence
//! of self-delimiting binary blocks carrying structured metadata and packed
//! or JPEG-tiled sensor payloads for up to sixteen camera modules.
//!
//! The byte buffer is sliced into blocks ([`block`]), each block's decoded
//! message is folded into an accumulator ([`extract`]), and a final join
//! pass back-fills every image's sensor model and color calibrations from
//! the inventory gathered across all blocks. Pixel payloads are expanded by
//! the 10-bit unpacker ([`unpacker`]) or reassembled from JPEG-coded
//! quadrant planes ([`mosaic`]).

use vstd::prelude::*;

pub mod block;
pub mod bytes;
pub mod error;
pub mod extract;
pub mod fine;
pub mod inspect;
pub mod image;
pub mod message;
pub mod mosaic;
pub mod rotate;
pub mod payload;
pub mod types;
pub mod unpacker;

use crate::block::Block;
use crate::error::LriError;
use crate::extract::{
    empty_extracted,
    images_of,
    inventory_of,
    colors_of,
    lh_scalars,
    vp_scalars,
    ExtractedData,
};
use crate::image::{ImageModel, RawImage};
use crate::message::Message;
use crate::types::{
    AwbGain,
    AwbMode,
    CameraId,
    CameraInfo,
    ColorInfo,
    HdrMode,
    SceneMode,
    SensorModel,
};

verus! {

/// The rolling state of the block fold: the scalar accumulator and the
/// growing inventory, color and image lists.
pub struct FoldModel {
    pub ext: ExtractedData,
    pub images: Seq<ImageModel>,
    pub colors: Seq<ColorInfo>,
    pub infos: Seq<CameraInfo>,
}

/// The fold state before any block.
pub open spec fn empty_fold() -> FoldModel {
    FoldModel {
        ext: empty_extracted(),
        images: Seq::empty(),
        colors: Seq::empty(),
        infos: Seq::empty(),
    }
}

/// One block folded: a LightHeader contributes inventory, colors, images
/// and scalars; ViewPreferences contributes scalars; GPS data contributes
/// nothing modeled.
pub open spec fn fold_block(st: FoldModel, msg: Message, data: Seq<u8>) -> Result<
    FoldModel,
    LriError,
> {
    match msg {
        Message::LightHeader(lh) => match images_of(lh.modules@, data) {
            Err(e) => Err(e),
            Ok(ims) => Ok(
                FoldModel {
                    ext: lh_scalars(st.ext, lh),
                    images: st.images + ims,
                    colors: st.colors + colors_of(lh),
                    infos: st.infos + inventory_of(lh),
                },
            ),
        },
        Message::ViewPreferences(vp) => Ok(
            FoldModel {
                ext: vp_scalars(st.ext, vp),
                images: st.images,
                colors: st.colors,
                infos: st.infos,
            },
        ),
        Message::Gps => Ok(st),
    }
}

/// Every block folded in byte order, or the first error.
pub open spec fn fold_blocks(st: FoldModel, msgs: Seq<Message>, datas: Seq<Seq<u8>>) -> Result<
    FoldModel,
    LriError,
>
    decreases msgs.len(),
{
    if msgs.len() == 0 {
        Ok(st)
    } else {
        match fold_block(st, msgs.first(), datas.first()) {
            Err(e) => Err(e),
            Ok(st2) => fold_blocks(st2, msgs.drop_first(), datas.drop_first()),
        }
    }
}

/// Folding one more block at the end.
proof fn lemma_fold_snoc(
    st: FoldModel,
    msgs: Seq<Message>,
    datas: Seq<Seq<u8>>,
    m: Message,
    d: Seq<u8>,
)
    requires
        msgs.len() == datas.len(),
    ensures
        fold_blocks(st, msgs.push(m), datas.push(d)) == match fold_blocks(st, msgs, datas) {
            Err(e) => Err::<FoldModel, LriError>(e),
            Ok(st2) => fold_block(st2, m, d),
        },
    decreases msgs.len(),
{
    if msgs.len() == 0 {
        assert(msgs.push(m).first() == m);
        assert(datas.push(d).first() == d);
        assert(msgs.push(m).drop_first() =~= Seq::<Message>::empty());
        assert(datas.push(d).drop_first() =~= Seq::<Seq<u8>>::empty());
        match fold_block(st, m, d) {
            Ok(st2) => {
                assert(fold_blocks(st2, Seq::<Message>::empty(), Seq::<Seq<u8>>::empty()) == Ok::<
                    FoldModel,
                    LriError,
                >(st2));
            },
            Err(_) => {},
        }
    } else {
        assert(msgs.push(m).first() == msgs.first());
        assert(datas.push(d).first() == datas.first());
        assert(msgs.push(m).drop_first() =~= msgs.drop_first().push(m));
        assert(datas.push(d).drop_first() =~= datas.drop_first().push(d));
        match fold_block(st, msgs.first(), datas.first()) {
            Ok(st2) => {
                lemma_fold_snoc(st2, msgs.drop_first(), datas.drop_first(), m, d);
            },
            Err(_) => {},
        }
    }
}

/// An error at block `i`, after `i` clean blocks, is the error of the
/// whole fold.
proof fn lemma_fold_err_stays(
    st: FoldModel,
    msgs: Seq<Message>,
    datas: Seq<Seq<u8>>,
    i: int,
    e: LriError,
)
    requires
        msgs.len() == datas.len(),
        0 <= i < msgs.len(),
        fold_blocks(st, msgs.take(i), datas.take(i)) is Ok,
        fold_block(fold_blocks(st, msgs.take(i), datas.take(i))->Ok_0, msgs[i], datas[i]) == Err::<
            FoldModel,
            LriError,
        >(e),
    ensures
        fold_blocks(st, msgs, datas) == Err::<FoldModel, LriError>(e),
    decreases i,
{
    if i == 0 {
        assert(msgs.take(0 as int) =~= Seq::<Message>::empty());
        assert(datas.take(0 as int) =~= Seq::<Seq<u8>>::empty());
        assert(fold_block(st, msgs.first(), datas.first()) == Err::<FoldModel, LriError>(e));
    } else {
        assert(msgs.take(i).first() == msgs.first());
        assert(datas.take(i).first() == datas.first());
        assert(msgs.take(i).drop_first() =~= msgs.drop_first().take(i - 1));
        assert(datas.take(i).drop_first() =~= datas.drop_first().take(i - 1));
        match fold_block(st, msgs.first(), datas.first()) {
            Ok(stx) => {
                assert(msgs.drop_first()[i - 1] == msgs[i]);
                assert(datas.drop_first()[i - 1] == datas[i]);
                lemma_fold_err_stays(stx, msgs.drop_first(), datas.drop_first(), i - 1, e);
            },
            Err(_) => {
                assert(fold_blocks(st, msgs.take(i), datas.take(i)) is Err);
            },
        }
    }
}

/// The sensor model the inventory records for a camera, or `Unknown` if
/// the inventory has no entry for it; the first entry wins.
pub open spec fn join_sensor(infos: Seq<CameraInfo>, cam: CameraId) -> SensorModel
    decreases infos.len(),
{
    if infos.len() == 0 {
        SensorModel::Unknown
    } else if infos.first().camera == cam {
        infos.first().sensor
    } else {
        join_sensor(infos.drop_first(), cam)
    }
}

/// If no entry among the first `j` is for `cam`, the join result is
/// decided by the rest.
proof fn lemma_join_sensor_skip(infos: Seq<CameraInfo>, cam: CameraId, j: int)
    requires
        0 <= j <= infos.len(),
        forall|k: int| 0 <= k < j ==> (#[trigger] infos[k]).camera != cam,
    ensures
        join_sensor(infos, cam) == join_sensor(infos.skip(j), cam),
    decreases j,
{
    if j > 0 {
        assert(infos.first().camera != cam);
        assert(infos.drop_first().skip(j - 1) =~= infos.skip(j));
        assert(forall|k: int|
            0 <= k < j - 1 ==> (#[trigger] infos.drop_first()[k]).camera != cam) by {
            assert(forall|k: int|
                0 <= k < j - 1 ==> infos.drop_first()[k] == #[trigger] infos[k + 1]);
        }
        lemma_join_sensor_skip(infos.drop_first(), cam, j - 1);
    } else {
        assert(infos.skip(0) =~= infos);
    }
}

/// One image after the join pass: its sensor from the inventory, its
/// color list every record for its camera in encounter order, all else as
/// the fold left it.
pub open spec fn join_image(
    im: ImageModel,
    colors: Seq<ColorInfo>,
    infos: Seq<CameraInfo>,
) -> ImageModel {
    ImageModel {
        camera: im.camera,
        sensor: join_sensor(infos, im.camera),
        width: im.width,
        height: im.height,
        format: im.format,
        data: im.data,
        sbro: im.sbro,
        color: colors.filter(|c: ColorInfo| c.camera == im.camera),
    }
}

/// The decoded file a finished fold state denotes, after the join pass.
pub struct LriFileModel {
    pub image_reference_camera: Option<CameraId>,
    pub images: Seq<ImageModel>,
    pub colors: Seq<ColorInfo>,
    pub camera_infos: Seq<CameraInfo>,
    pub focal_length: Option<i32>,
    pub firmware_version: Seq<char>,
    pub has_firmware_version: bool,
    pub image_integration_time: Option<u64>,
    pub af_achieved: Option<bool>,
    pub image_gain: Option<u32>,
    pub hdr: Option<HdrMode>,
    pub scene: Option<SceneMode>,
    pub on_tripod: Option<bool>,
    pub awb: Option<AwbMode>,
    pub awb_gain: Option<AwbGain>,
}

/// The decoded file a finished fold state denotes.
pub open spec fn file_of(st: FoldModel) -> LriFileModel {
    LriFileModel {
        image_reference_camera: st.ext.reference_camera,
        images: st.images.map_values(|im: ImageModel| join_image(im, st.colors, st.infos)),
        colors: st.colors,
        camera_infos: st.infos,
        focal_length: st.ext.focal_length,
        firmware_version: match st.ext.fw_version {
            Some(s) => s@,
            None => Seq::empty(),
        },
        has_firmware_version: st.ext.fw_version is Some,
        image_integration_time: st.ext.image_integration_time,
        af_achieved: st.ext.af_achieved,
        image_gain: st.ext.image_gain,
        hdr: st.ext.hdr,
        scene: st.ext.scene,
        on_tripod: st.ext.on_tripod,
        awb: st.ext.awb,
        awb_gain: st.ext.awb_gain,
    }
}

/// The decoded file: reference camera, the richly populated image list,
/// the color and inventory records, and the scalar acquisition settings.
#[derive(Debug)]
pub struct LriFile {
    pub image_reference_camera: Option<CameraId>,
    pub images: Vec<RawImage>,
    pub colors: Vec<ColorInfo>,
    pub camera_infos: Vec<CameraInfo>,
    pub focal_length: Option<i32>,
    pub firmware_version: Option<String>,
    /// Integration time in nanoseconds.
    pub image_integration_time: Option<u64>,
    pub af_achieved: Option<bool>,
    /// Gain, as an IEEE 754 single-precision bit pattern.
    pub image_gain: Option<u32>,
    pub hdr: Option<HdrMode>,
    pub scene: Option<SceneMode>,
    pub on_tripod: Option<bool>,
    pub awb: Option<AwbMode>,
    pub awb_gain: Option<AwbGain>,
}

impl LriFile {
    /// The file's mathematical value.
    pub open spec fn model(&self) -> LriFileModel {
        LriFileModel {
            image_reference_camera: self.image_reference_camera,
            images: self.images@.map_values(|im: RawImage| im.model()),
            colors: self.colors@,
            camera_infos: self.camera_infos@,
            focal_length: self.focal_length,
            firmware_version: match self.firmware_version {
                Some(s) => s@,
                None => Seq::empty(),
            },
            has_firmware_version: self.firmware_version is Some,
            image_integration_time: self.image_integration_time,
            af_achieved: self.af_achieved,
            image_gain: self.image_gain,
            hdr: self.hdr,
            scene: self.scene,
            on_tripod: self.on_tripod,
            awb: self.awb,
            awb_gain: self.awb_gain,
        }
    }

    /// Decodes a file from its blocks and their decoded messages, one
    /// message per block in byte order: every block is folded into the
    /// accumulator, then the join pass back-fills each image's sensor
    /// model and color list from the whole file's records.
    pub fn decode(blocks: &Vec<Block>, msgs: &Vec<Message>) -> (r: Result<LriFile, LriError>)
        requires
            msgs@.len() == blocks@.len(),
        ensures
            ({
                let folded = fold_blocks(
                    empty_fold(),
                    msgs@,
                    blocks@.map_values(|b: Block| b.data@),
                );
                match r {
                    Ok(f) => folded is Ok && f.model() == file_of(folded->Ok_0),
                    Err(e) => folded == Err::<FoldModel, LriError>(e),
                }
            }),
    {
        let ghost datas = blocks@.map_values(|b: Block| b.data@);
        let mut ext = ExtractedData::new();
        let mut images: Vec<RawImage> = Vec::new();
        let mut colors: Vec<ColorInfo> = Vec::new();
        let mut infos: Vec<CameraInfo> = Vec::new();
        let mut i: usize = 0;
        proof {
            assert(msgs@.take(0 as int) =~= Seq::<Message>::empty());
            assert(datas.take(0 as int) =~= Seq::<Seq<u8>>::empty());
            assert(images@.map_values(|im: RawImage| im.model()) =~= Seq::<ImageModel>::empty());
        }
        while i < blocks.len()
            invariant
                i <= blocks@.len(),
                msgs@.len() == blocks@.len(),
                datas == blocks@.map_values(|b: Block| b.data@),
                fold_blocks(empty_fold(), msgs@.take(i as int), datas.take(i as int)) == Ok::<
                    FoldModel,
                    LriError,
                >(
                    FoldModel {
                        ext: ext,
                        images: images@.map_values(|im: RawImage| im.model()),
                        colors: colors@,
                        infos: infos@,
                    },
                ),
            decreases blocks@.len() - i,
        {
            let ghost st_pre = FoldModel {
                ext: ext,
                images: images@.map_values(|im: RawImage| im.model()),
                colors: colors@,
                infos: infos@,
            };
            let block = &blocks[i];
            let msg = &msgs[i];
            let res = block.extract_meaningful_data(
                msg,
                &mut ext,
                &mut images,
                &mut colors,
                &mut infos,
            );
            proof {
                assert(msgs@.take(i + 1) =~= msgs@.take(i as int).push(msgs@[i as int]));
                assert(datas.take(i + 1) =~= datas.take(i as int).push(datas[i as int]));
                lemma_fold_snoc(
                    empty_fold(),
                    msgs@.take(i as int),
                    datas.take(i as int),
                    msgs@[i as int],
                    datas[i as int],
                );
            }
            match res {
                Ok(()) => {},
                Err(e) => {
                    proof {
                        assert(fold_block(st_pre, msgs@[i as int], datas[i as int]) == Err::<
                            FoldModel,
                            LriError,
                        >(e));
                        lemma_fold_err_stays(empty_fold(), msgs@, datas, i as int, e);
                    }
                    return Err(e);
                },
            }
            i = i + 1;
        }
        proof {
            assert(msgs@.take(i as int) =~= msgs@);
            assert(datas.take(i as int) =~= datas);
        }
        let ghost st = FoldModel {
            ext: ext,
            images: images@.map_values(|im: RawImage| im.model()),
            colors: colors@,
            infos: infos@,
        };
        // Join pass: back-fill each image's sensor and color list.
        let mut joined: Vec<RawImage> = Vec::new();
        let ghost images0 = images@.map_values(|im: RawImage| im.model());
        let n0 = images.len();
        proof {
            assert(images0.len() == n0);
        }
        let mut k: usize = 0;
        proof {
            assert(images@.map_values(|im: RawImage| im.model()) =~= images0.skip(0));
            assert(joined@.map_values(|im: RawImage| im.model()) =~= images0.take(0 as int)
                .map_values(|im: ImageModel| join_image(im, st.colors, st.infos)));
        }
        while images.len() > 0
            invariant
                k + images@.len() == images0.len(),
                images0.len() <= usize::MAX,
                images@.map_values(|im: RawImage| im.model()) == images0.skip(k as int),
                colors@ == st.colors,
                infos@ == st.infos,
                joined@.map_values(|im: RawImage| im.model()) == images0.take(k as int).map_values(
                    |im: ImageModel| join_image(im, st.colors, st.infos),
                ),
            decreases images@.len(),
        {
            let ghost joined_pre = joined@;
            let ghost imgs_pre = images@;
            let im = images.remove(0);
            proof {
                assert(im == imgs_pre[0]);
                assert(im.model() == imgs_pre.map_values(|imm: RawImage| imm.model())[0]);
                assert(im.model() == images0.skip(k as int)[0]);
                assert(im.model() == images0[k as int]);
                assert(images@ =~= imgs_pre.remove(0));
                assert(forall|j: int|
                    0 <= j < images@.len() ==> #[trigger] images@[j] == imgs_pre[j + 1]);
                assert forall|j: int| 0 <= j < images@.len() implies (#[trigger] images@[j]).model()
                    == images0.skip(k + 1)[j] by {
                    assert(images@[j] == imgs_pre[j + 1]);
                    assert(imgs_pre.map_values(|imm: RawImage| imm.model())[j + 1] == images0.skip(
                        k as int,
                    )[j + 1]);
                }
                assert(images@.map_values(|imm: RawImage| imm.model()) =~= images0.skip(k + 1));
            }
            let sensor = find_sensor(&infos, im.camera);
            let color = filter_colors(&colors, im.camera);
            let rebuilt = RawImage {
                camera: im.camera,
                sensor,
                width: im.width,
                height: im.height,
                format: im.format,
                data: im.data,
                sbro: im.sbro,
                color,
            };
            proof {
                assert(rebuilt.model() == join_image(images0[k as int], st.colors, st.infos));
            }
            joined.push(rebuilt);
            k = k + 1;
            proof {
                assert(images0.take(k as int) =~= images0.take(k - 1).push(images0[k - 1]));
                assert(joined@.map_values(|imm: RawImage| imm.model()) =~= joined_pre.map_values(
                    |imm: RawImage| imm.model(),
                ).push(rebuilt.model()));
                assert(images0.take(k as int).map_values(
                    |imm: ImageModel| join_image(imm, st.colors, st.infos),
                ) =~= images0.take(k - 1).map_values(
                    |imm: ImageModel| join_image(imm, st.colors, st.infos),
                ).push(join_image(images0[k - 1], st.colors, st.infos)));
            }
        }
        proof {
            assert(images0.take(k as int) =~= images0);
        }
        let file = LriFile {
            image_reference_camera: ext.reference_camera,
            images: joined,
            colors,
            camera_infos: infos,
            focal_length: ext.focal_length,
            firmware_version: ext.fw_version,
            image_integration_time: ext.image_integration_time,
            af_achieved: ext.af_achieved,
            image_gain: ext.image_gain,
            hdr: ext.hdr,
            scene: ext.scene,
            on_tripod: ext.on_tripod,
            awb: ext.awb,
            awb_gain: ext.awb_gain,
        };
        Ok(file)
    }

    /// Number of images present in the file.
    pub fn image_count(&self) -> (n: usize)
        ensures
            n == self.images@.len(),
    {
        self.images.len()
    }

    /// The images, in file order.
    pub fn images(&self) -> (r: &Vec<RawImage>)
        ensures
            r == &self.images,
    {
        &self.images
    }

    /// The image the camera showed in the viewfinder, if the file records
    /// a reference camera and holds an image of it: the first such image.
    pub fn reference_image(&self) -> (r: Option<&RawImage>)
        ensures
            match r {
                Some(im) => {
                    &&& self.image_reference_camera == Some(im.camera)
                    &&& exists|i: int|
                        0 <= i < self.images@.len() && self.images@[i] == *im && forall|j: int|
                            0 <= j < i ==> (#[trigger] self.images@[j]).camera != im.camera
                },
                None => match self.image_reference_camera {
                    Some(cam) => forall|i: int|
                        0 <= i < self.images@.len() ==> (#[trigger] self.images@[i]).camera != cam,
                    None => true,
                },
            },
    {
        let cam = match self.image_reference_camera {
            Some(c) => c,
            None => {
                return None;
            },
        };
        let mut i: usize = 0;
        while i < self.images.len()
            invariant
                i <= self.images@.len(),
                self.image_reference_camera == Some(cam),
                forall|j: int| 0 <= j < i ==> (#[trigger] self.images@[j]).camera != cam,
            decreases self.images@.len() - i,
        {
            if self.images[i].camera == cam {
                return Some(&self.images[i]);
            }
            i = i + 1;
        }
        None
    }
}

/// Finds the sensor the inventory records for `cam`; `Unknown` without an
/// entry.
fn find_sensor(infos: &Vec<CameraInfo>, cam: CameraId) -> (s: SensorModel)
    ensures
        s == join_sensor(infos@, cam),
{
    let mut j: usize = 0;
    while j < infos.len()
        invariant
            j <= infos@.len(),
            forall|k: int| 0 <= k < j ==> (#[trigger] infos@[k]).camera != cam,
        decreases infos@.len() - j,
    {
        if infos[j].camera == cam {
            proof {
                lemma_join_sensor_skip(infos@, cam, j as int);
                assert(infos@.skip(j as int).first() == infos@[j as int]);
            }
            return infos[j].sensor;
        }
        j = j + 1;
    }
    proof {
        lemma_join_sensor_skip(infos@, cam, j as int);
        assert(infos@.skip(j as int) =~= Seq::<CameraInfo>::empty());
    }
    SensorModel::Unknown
}

/// Collects every color record for `cam`, in encounter order.
fn filter_colors(colors: &Vec<ColorInfo>, cam: CameraId) -> (r: Vec<ColorInfo>)
    ensures
        r@ == colors@.filter(|c: ColorInfo| c.camera == cam),
{
    let mut r: Vec<ColorInfo> = Vec::new();
    let mut j: usize = 0;
    proof {
        assert(colors@.take(0 as int) =~= Seq::<ColorInfo>::empty());
        reveal_with_fuel(Seq::filter, 2);
    }
    while j < colors.len()
        invariant
            j <= colors@.len(),
            r@ == colors@.take(j as int).filter(|c: ColorInfo| c.camera == cam),
        decreases colors@.len() - j,
    {
        let ghost pre = colors@.take(j as int);
        proof {
            assert(colors@.take(j + 1) =~= pre.push(colors@[j as int]));
            crate::image::lemma_filter_push(pre, colors@[j as int], |c: ColorInfo| c.camera == cam);
        }
        if colors[j].camera == cam {
            r.push(colors[j]);
        }
        j = j + 1;
    }
    proof {
        assert(colors@.take(j as int) =~= colors@);
    }
    r
}

} // verus!
