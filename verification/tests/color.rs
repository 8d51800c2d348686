use lri_rs::error::LriError;
use lri_rs::image::RawImage;
use lri_rs::payload::RawData;
use lri_rs::types::{CameraId, ColorInfo, ColorType, DataFormat, Mat3, SensorModel, Whitepoint};

fn image(sbro: (i32, i32), sensor: SensorModel, color: Vec<ColorInfo>) -> RawImage {
    RawImage {
        camera: CameraId::A1,
        sensor,
        width: 2,
        height: 2,
        format: DataFormat::Packed10bpp,
        data: RawData::Packed10bpp { data: vec![] },
        sbro,
        color,
    }
}

fn info(wp: Whitepoint, rg: u32) -> ColorInfo {
    ColorInfo {
        camera: CameraId::A1,
        whitepoint: wp,
        forward_matrix: Mat3::zero(),
        color_matrix: Mat3::zero(),
        rg,
        bg: 0,
    }
}

#[test]
fn cfa_mapping() {
    let cases = [
        ((0, 0), Some("BGGR")),
        ((1, 0), Some("GRBG")),
        ((0, 1), Some("GBRG")),
        ((1, 1), Some("RGGB")),
        ((-1, -1), None),
    ];
    for (sbro, expected) in cases {
        let im = image(sbro, SensorModel::Ar1335, vec![]);
        assert_eq!(im.cfa_string().unwrap(), expected);
    }
}

#[test]
fn cfa_invalid_offset() {
    let im = image((2, 5), SensorModel::Ar1335, vec![]);
    assert_eq!(
        im.cfa_string(),
        Err(LriError::InvalidBayerOffset { x: 2, y: 5 })
    );
}

#[test]
fn daylight_prefers_f7() {
    // With both D65 and F7 on record, F7 wins.
    let im = image(
        (0, 0),
        SensorModel::Ar1335,
        vec![info(Whitepoint::D65, 1), info(Whitepoint::F7, 2)],
    );
    assert_eq!(im.daylight().unwrap().whitepoint, Whitepoint::F7);
    assert_eq!(im.daylight().unwrap().rg, 2);
}

#[test]
fn daylight_falls_back_to_d65() {
    let im = image(
        (0, 0),
        SensorModel::Ar1335,
        vec![info(Whitepoint::A, 1), info(Whitepoint::D65, 9)],
    );
    assert_eq!(im.daylight().unwrap().whitepoint, Whitepoint::D65);
    assert_eq!(im.daylight().unwrap().rg, 9);
}

#[test]
fn daylight_none_without_either() {
    let im = image((0, 0), SensorModel::Ar1335, vec![info(Whitepoint::A, 1)]);
    assert!(im.daylight().is_none());
}

#[test]
fn color_info_matches_requested_whitepoint() {
    let im = image(
        (0, 0),
        SensorModel::Ar1335,
        vec![info(Whitepoint::TL84, 4), info(Whitepoint::F11, 5)],
    );
    assert_eq!(im.color_info(Whitepoint::F11).unwrap().rg, 5);
    assert!(im.color_info(Whitepoint::D50).is_none());
}

#[test]
fn color_info_first_match_wins() {
    let im = image(
        (0, 0),
        SensorModel::Ar1335,
        vec![info(Whitepoint::D65, 1), info(Whitepoint::D65, 2)],
    );
    assert_eq!(im.color_info(Whitepoint::D65).unwrap().rg, 1);
}

#[test]
fn color_type_by_sensor() {
    let rgb = [SensorModel::Ar1335, SensorModel::Ar835, SensorModel::Imx386];
    let gray = [
        SensorModel::Ar1335Mono,
        SensorModel::Imx386Mono,
        SensorModel::Unknown,
    ];
    for s in rgb {
        assert_eq!(image((0, 0), s, vec![]).color_type(), ColorType::Rgb);
    }
    for s in gray {
        assert_eq!(image((0, 0), s, vec![]).color_type(), ColorType::Grayscale);
    }
}
