//! A decoded raw-image descriptor and the color-pipeline queries on it:
//! color-filter-array resolution, calibration-profile selection, and the
//! color/grayscale distinction.

use vstd::prelude::*;
use crate::error::LriError;
use crate::payload::{RawData, RawDataModel};
use crate::types::{CameraId, ColorInfo, ColorType, DataFormat, SensorModel, Whitepoint};

verus! {

/// One raw image described by the file: its camera, dimensions, payload,
/// sensor bayer red override, and every color calibration for its camera.
/// `sensor` and `color` start `Unknown`/empty and are back-filled once all
/// blocks are processed, by joining on `camera`.
#[derive(Debug)]
pub struct RawImage {
    /// Camera that captured this image.
    pub camera: CameraId,
    /// The model of the sensor of the camera.
    pub sensor: SensorModel,
    pub width: usize,
    pub height: usize,
    /// What format the payload is in.
    pub format: DataFormat,
    pub data: RawData,
    /// Sensor bayer red override: the phase offset of the red filter.
    pub sbro: (i32, i32),
    /// All color information associated with this camera, for different
    /// whitepoints, in calibration-block encounter order.
    pub color: Vec<ColorInfo>,
}

/// The mathematical value of a raw image.
pub struct ImageModel {
    pub camera: CameraId,
    pub sensor: SensorModel,
    pub width: usize,
    pub height: usize,
    pub format: DataFormat,
    pub data: RawDataModel,
    pub sbro: (i32, i32),
    pub color: Seq<ColorInfo>,
}

impl RawImage {
    /// The image's mathematical value.
    pub open spec fn model(&self) -> ImageModel {
        ImageModel {
            camera: self.camera,
            sensor: self.sensor,
            width: self.width,
            height: self.height,
            format: self.format,
            data: self.data.model(),
            sbro: self.sbro,
            color: self.color@,
        }
    }
}

/// Some entry of `colors` is for whitepoint `wp`.
pub open spec fn has_wp(colors: Seq<ColorInfo>, wp: Whitepoint) -> bool {
    exists|i: int| 0 <= i < colors.len() && #[trigger] colors[i].whitepoint == wp
}

/// `colors[i]` is the first entry for whitepoint `wp`.
pub open spec fn is_first_wp(colors: Seq<ColorInfo>, wp: Whitepoint, i: int) -> bool {
    &&& 0 <= i < colors.len()
    &&& colors[i].whitepoint == wp
    &&& forall|j: int| 0 <= j < i ==> #[trigger] colors[j].whitepoint != wp
}

/// Finds the first entry of `colors` for whitepoint `wp`.
fn find_wp(colors: &Vec<ColorInfo>, wp: Whitepoint) -> (r: Option<&ColorInfo>)
    ensures
        match r {
            Some(c) => exists|i: int| is_first_wp(colors@, wp, i) && colors@[i] == *c,
            None => !has_wp(colors@, wp),
        },
{
    let mut i: usize = 0;
    while i < colors.len()
        invariant
            i <= colors@.len(),
            forall|j: int| 0 <= j < i ==> #[trigger] colors@[j].whitepoint != wp,
        decreases colors@.len() - i,
    {
        if colors[i].whitepoint == wp {
            proof {
                assert(is_first_wp(colors@, wp, i as int));
            }
            return Some(&colors[i]);
        }
        i = i + 1;
    }
    None
}

impl RawImage {
    /// The color profile for noon daylight: the first `F7` entry and, if
    /// there is none, the first `D65` entry.
    pub fn daylight(&self) -> (r: Option<&ColorInfo>)
        ensures
            match r {
                Some(c) => (exists|i: int|
                    is_first_wp(self.color@, Whitepoint::F7, i) && self.color@[i] == *c) || (!has_wp(
                    self.color@,
                    Whitepoint::F7,
                ) && exists|i: int|
                    is_first_wp(self.color@, Whitepoint::D65, i) && self.color@[i] == *c),
                None => !has_wp(self.color@, Whitepoint::F7) && !has_wp(
                    self.color@,
                    Whitepoint::D65,
                ),
            },
    {
        match find_wp(&self.color, Whitepoint::F7) {
            Some(c) => Some(c),
            None => find_wp(&self.color, Whitepoint::D65),
        }
    }

    /// The first color profile matching the provided whitepoint, if any.
    pub fn color_info(&self, whitepoint: Whitepoint) -> (r: Option<&ColorInfo>)
        ensures
            match r {
                Some(c) => exists|i: int|
                    is_first_wp(self.color@, whitepoint, i) && self.color@[i] == *c,
                None => !has_wp(self.color@, whitepoint),
            },
    {
        find_wp(&self.color, whitepoint)
    }

    /// Resolves the physical color-filter pattern from the sensor bayer
    /// red override: `(-1, -1)` is a monochrome sensor with no pattern,
    /// the four unit offsets select the four phases, and any other pair
    /// is a fatal input-contract violation.
    pub fn cfa_string(&self) -> (r: Result<Option<&'static str>, LriError>)
        ensures
            self.sbro == (-1i32, -1i32) ==> r == Ok::<Option<&'static str>, LriError>(None),
            self.sbro == (0i32, 0i32) ==> (r matches Ok(Some(s)) && s@ == "BGGR"@),
            self.sbro == (1i32, 0i32) ==> (r matches Ok(Some(s)) && s@ == "GRBG"@),
            self.sbro == (0i32, 1i32) ==> (r matches Ok(Some(s)) && s@ == "GBRG"@),
            self.sbro == (1i32, 1i32) ==> (r matches Ok(Some(s)) && s@ == "RGGB"@),
            !(self.sbro == (-1i32, -1i32) || self.sbro == (0i32, 0i32) || self.sbro == (1i32, 0i32)
                || self.sbro == (0i32, 1i32) || self.sbro == (1i32, 1i32)) ==> r == Err::<
                Option<&'static str>,
                LriError,
            >(LriError::InvalidBayerOffset { x: self.sbro.0, y: self.sbro.1 }),
    {
        let (x, y) = self.sbro;
        if x == -1 && y == -1 {
            Ok(None)
        } else if x == 0 && y == 0 {
            Ok(Some("BGGR"))
        } else if x == 1 && y == 0 {
            Ok(Some("GRBG"))
        } else if x == 0 && y == 1 {
            Ok(Some("GBRG"))
        } else if x == 1 && y == 1 {
            Ok(Some("RGGB"))
        } else {
            Err(LriError::InvalidBayerOffset { x, y })
        }
    }

    /// Whether this image's samples are color or single-channel, from its
    /// sensor model; an unknown sensor is treated as grayscale.
    pub fn color_type(&self) -> (r: ColorType)
        ensures
            r == match self.sensor {
                SensorModel::Ar1335 | SensorModel::Ar835 | SensorModel::Imx386 => ColorType::Rgb,
                SensorModel::Ar1335Mono | SensorModel::Imx386Mono | SensorModel::Unknown
                    => ColorType::Grayscale,
            },
    {
        match self.sensor {
            SensorModel::Ar1335 | SensorModel::Ar835 | SensorModel::Imx386 => ColorType::Rgb,
            SensorModel::Ar1335Mono | SensorModel::Imx386Mono | SensorModel::Unknown
                => ColorType::Grayscale,
        }
    }
}

/// How many images a camera captured, and with which sensor.
#[derive(Copy, Clone, Debug, PartialEq, Eq, Structural)]
pub struct Entry {
    pub sensor: SensorModel,
    pub count: usize,
}

/// The number of images in `imgs` captured by `cam`.
pub open spec fn camera_count(imgs: Seq<ImageModel>, cam: CameraId) -> int {
    imgs.filter(|im: ImageModel| im.camera == cam).len() as int
}

/// `imgs[i]` is the first image captured by `cam`.
pub open spec fn is_first_camera(imgs: Seq<ImageModel>, cam: CameraId, i: int) -> bool {
    &&& 0 <= i < imgs.len()
    &&& imgs[i].camera == cam
    &&& forall|j: int| 0 <= j < i ==> #[trigger] imgs[j].camera != cam
}

/// Some tally entry is keyed by `cam`.
pub open spec fn tallied(r: Seq<(CameraId, Entry)>, cam: CameraId) -> bool {
    exists|k: int| 0 <= k < r.len() && (#[trigger] r[k]).0 == cam
}

/// The sensor of the first image captured by `cam`; `Unknown` if none is.
pub open spec fn first_sensor(imgs: Seq<ImageModel>, cam: CameraId) -> SensorModel
    decreases imgs.len(),
{
    if imgs.len() == 0 {
        SensorModel::Unknown
    } else if imgs.first().camera == cam {
        imgs.first().sensor
    } else {
        first_sensor(imgs.drop_first(), cam)
    }
}

/// If none of the first `j` images is by `cam`, the rest decide.
proof fn lemma_first_sensor_skip(imgs: Seq<ImageModel>, cam: CameraId, j: int)
    requires
        0 <= j <= imgs.len(),
        forall|k: int| 0 <= k < j ==> (#[trigger] imgs[k]).camera != cam,
    ensures
        first_sensor(imgs, cam) == first_sensor(imgs.skip(j), cam),
    decreases j,
{
    if j > 0 {
        assert(imgs.first().camera != cam);
        assert(imgs.drop_first().skip(j - 1) =~= imgs.skip(j));
        assert(forall|k: int|
            0 <= k < j - 1 ==> (#[trigger] imgs.drop_first()[k]).camera != cam) by {
            assert(forall|k: int|
                0 <= k < j - 1 ==> imgs.drop_first()[k] == #[trigger] imgs[k + 1]);
        }
        lemma_first_sensor_skip(imgs.drop_first(), cam, j - 1);
    } else {
        assert(imgs.skip(0) =~= imgs);
    }
}

/// A pushed entry keeps everything tallied, and tallies its own key.
proof fn lemma_tallied_push(r: Seq<(CameraId, Entry)>, x: (CameraId, Entry), cam: CameraId)
    requires
        tallied(r, cam) || x.0 == cam,
    ensures
        tallied(r.push(x), cam),
{
    if x.0 == cam {
        assert(r.push(x)[r.len() as int].0 == cam);
    } else {
        let k = choose|k: int| 0 <= k < r.len() && (#[trigger] r[k]).0 == cam;
        assert(r.push(x)[k].0 == cam);
    }
}

/// Whether some tally entry is for `cam`.
fn contains_camera(r: &Vec<(CameraId, Entry)>, cam: CameraId) -> (b: bool)
    ensures
        b == tallied(r@, cam),
{
    let mut k: usize = 0;
    while k < r.len()
        invariant
            k <= r@.len(),
            forall|l: int| 0 <= l < k ==> (#[trigger] r@[l]).0 != cam,
        decreases r@.len() - k,
    {
        if r[k].0 == cam {
            return true;
        }
        k = k + 1;
    }
    false
}

/// Counts the images captured by `cam`.
fn count_camera(images: &Vec<RawImage>, cam: CameraId) -> (n: usize)
    ensures
        n == camera_count(images@.map_values(|im: RawImage| im.model()), cam),
{
    let ghost ims = images@.map_values(|im: RawImage| im.model());
    let mut n: usize = 0;
    let mut j: usize = 0;
    proof {
        assert(ims.take(0) =~= Seq::<ImageModel>::empty());
        reveal_with_fuel(Seq::filter, 2);
    }
    while j < images.len()
        invariant
            j <= images@.len(),
            ims == images@.map_values(|im: RawImage| im.model()),
            n <= j,
            n == camera_count(ims.take(j as int), cam),
        decreases images@.len() - j,
    {
        let ghost pre = ims.take(j as int);
        proof {
            assert(ims.take(j + 1) =~= pre.push(ims[j as int]));
            lemma_filter_push(pre, ims[j as int], |im: ImageModel| im.camera == cam);
        }
        if images[j].camera == cam {
            n = n + 1;
        }
        j = j + 1;
    }
    proof {
        assert(ims.take(j as int) =~= ims);
    }
    n
}

/// Tallies the images by camera: one entry per camera that captured at
/// least one image, in order of first appearance, counting its images and
/// recording the sensor of its first image.
pub fn tally_cameras(images: &Vec<RawImage>) -> (r: Vec<(CameraId, Entry)>)
    ensures
        ({
            let ims = images@.map_values(|im: RawImage| im.model());
            &&& forall|k: int, l: int|
                0 <= k < l < r@.len() ==> (#[trigger] r@[k]).0 != (#[trigger] r@[l]).0
            &&& forall|k: int|
                0 <= k < r@.len() ==> (#[trigger] r@[k]).1.count == camera_count(ims, r@[k].0)
            &&& forall|k: int|
                0 <= k < r@.len() ==> (#[trigger] r@[k]).1.sensor == first_sensor(ims, r@[k].0)
            &&& forall|i: int| 0 <= i < ims.len() ==> tallied(r@, (#[trigger] ims[i]).camera)
        }),
{
    let ghost ims = images@.map_values(|im: RawImage| im.model());
    let mut r: Vec<(CameraId, Entry)> = Vec::new();
    let mut i: usize = 0;
    while i < images.len()
        invariant
            i <= images@.len(),
            ims == images@.map_values(|im: RawImage| im.model()),
            forall|k: int, l: int|
                0 <= k < l < r@.len() ==> (#[trigger] r@[k]).0 != (#[trigger] r@[l]).0,
            forall|k: int|
                0 <= k < r@.len() ==> (#[trigger] r@[k]).1.count == camera_count(ims, r@[k].0),
            forall|k: int|
                0 <= k < r@.len() ==> (#[trigger] r@[k]).1.sensor == first_sensor(ims, r@[k].0),
            forall|j: int| 0 <= j < i ==> tallied(r@, (#[trigger] ims[j]).camera),
        decreases images@.len() - i,
    {
        let cam = images[i].camera;
        let ghost r_old = r@;
        if !contains_camera(&r, cam) {
            let n = count_camera(images, cam);
            let entry = (cam, Entry { sensor: images[i].sensor, count: n });
            proof {
                assert(forall|j: int| 0 <= j < i ==> #[trigger] ims[j].camera != cam);
                lemma_first_sensor_skip(ims, cam, i as int);
                assert(ims.skip(i as int).first() == ims[i as int]);
                assert(first_sensor(ims, cam) == ims[i as int].sensor);
            }
            r.push(entry);
            proof {
                assert(forall|k: int| 0 <= k < r_old.len() ==> r@[k] == #[trigger] r_old[k]);
                assert(r@[r@.len() - 1] == entry);
                assert forall|j: int| 0 <= j < i + 1 implies tallied(
                    r@,
                    (#[trigger] ims[j]).camera,
                ) by {
                    lemma_tallied_push(r_old, entry, ims[j].camera);
                }
            }
        } else {
            proof {
                assert forall|j: int| 0 <= j < i + 1 implies tallied(
                    r@,
                    (#[trigger] ims[j]).camera,
                ) by {
                }
            }
        }
        i = i + 1;
    }
    r
}

/// Filtering after appending one element appends it when it passes.
pub(crate) proof fn lemma_filter_push<A>(s: Seq<A>, x: A, p: spec_fn(A) -> bool)
    ensures
        s.push(x).filter(p) == if p(x) {
            s.filter(p).push(x)
        } else {
            s.filter(p)
        },
    decreases s.len(),
{
    reveal_with_fuel(Seq::filter, 2);
    assert(s.push(x).drop_last() =~= s);
    assert(s.push(x).last() == x);
}

} // verus!
