use lri_rs::block::{Block, BlockType, Header};
use lri_rs::error::LriError;
use lri_rs::extract::{extract_view, ExtractedData};
use lri_rs::image::RawImage;
use lri_rs::message::{
    CameraEntry, ColorEntry, LightHeaderMsg, Message, ModuleCalibration, ModuleEntry, Surface,
    ViewPreferencesMsg,
};
use lri_rs::payload::RawData;
use lri_rs::types::{CameraId, CameraInfo, DataFormat, Mat3, SensorModel, Whitepoint};
use lri_rs::LriFile;

fn empty_lh() -> LightHeaderMsg {
    LightHeaderMsg {
        hw_info: None,
        module_calibration: vec![],
        modules: vec![],
        image_reference_camera: None,
        device_fw_version: None,
        image_focal_length: None,
        af_achieved: None,
    }
}

fn empty_vp() -> ViewPreferencesMsg {
    ViewPreferencesMsg {
        image_integration_time_ns: None,
        image_gain: None,
        hdr: None,
        scene: None,
        on_tripod: None,
        awb: None,
        awb_gain: None,
    }
}

fn plain_block(kind: BlockType, extra: &[u8]) -> Block {
    let mut data = Vec::new();
    data.extend_from_slice(b"LELR");
    data.extend_from_slice(&((32 + extra.len()) as u64).to_le_bytes());
    data.extend_from_slice(&32u64.to_le_bytes());
    data.extend_from_slice(&0u32.to_le_bytes());
    data.push(match kind {
        BlockType::LightHeader => 0,
        BlockType::ViewPreferences => 1,
        BlockType::GPSData => 2,
    });
    data.extend_from_slice(&[0u8; 7]);
    data.extend_from_slice(extra);
    let header = Header::ingest(&data).unwrap();
    Block { header, data }
}

fn mat(seed: u32) -> Mat3 {
    Mat3 {
        x00: seed,
        x01: seed + 1,
        x02: seed + 2,
        x10: seed + 3,
        x11: seed + 4,
        x12: seed + 5,
        x20: seed + 6,
        x21: seed + 7,
        x22: seed + 8,
    }
}

fn extract(
    block: &Block,
    msg: &Message,
) -> (
    Result<(), LriError>,
    ExtractedData,
    Vec<RawImage>,
    Vec<lri_rs::types::ColorInfo>,
    Vec<CameraInfo>,
) {
    let mut ext = ExtractedData::new();
    let mut images = Vec::new();
    let mut colors = Vec::new();
    let mut infos = Vec::new();
    let r = block.extract_meaningful_data(msg, &mut ext, &mut images, &mut colors, &mut infos);
    (r, ext, images, colors, infos)
}

#[test]
fn color_entry_retention() {
    // An entry with a forward matrix but no color matrix is retained with
    // an all-zero color matrix; an entry with neither is dropped.
    let mut lh = empty_lh();
    lh.module_calibration = vec![ModuleCalibration {
        camera: CameraId::A1,
        color: vec![
            ColorEntry {
                whitepoint: Whitepoint::D65,
                forward_matrix: Some(mat(100)),
                color_matrix: None,
                rg: 11,
                bg: 22,
            },
            ColorEntry {
                whitepoint: Whitepoint::F7,
                forward_matrix: None,
                color_matrix: None,
                rg: 33,
                bg: 44,
            },
        ],
    }];
    let block = plain_block(BlockType::LightHeader, &[]);
    let (r, _, _, colors, _) = extract(&block, &Message::LightHeader(lh));
    assert!(r.is_ok());
    assert_eq!(colors.len(), 1);
    assert_eq!(colors[0].camera, CameraId::A1);
    assert_eq!(colors[0].whitepoint, Whitepoint::D65);
    assert_eq!(colors[0].forward_matrix, mat(100));
    assert_eq!(colors[0].color_matrix, Mat3::zero());
    assert_eq!(colors[0].rg, 11);
    assert_eq!(colors[0].bg, 22);
}

#[test]
fn first_wins_firmware() {
    // Two LightHeader blocks both specifying a firmware version: the
    // first block's value is retained.
    let block = plain_block(BlockType::LightHeader, &[]);
    let mut ext = ExtractedData::new();
    let mut images = Vec::new();
    let mut colors = Vec::new();
    let mut infos = Vec::new();
    let mut lh1 = empty_lh();
    lh1.device_fw_version = Some(String::from("first"));
    lh1.image_focal_length = Some(70);
    let mut lh2 = empty_lh();
    lh2.device_fw_version = Some(String::from("second"));
    lh2.image_focal_length = Some(150);
    block
        .extract_meaningful_data(
            &Message::LightHeader(lh1),
            &mut ext,
            &mut images,
            &mut colors,
            &mut infos,
        )
        .unwrap();
    block
        .extract_meaningful_data(
            &Message::LightHeader(lh2),
            &mut ext,
            &mut images,
            &mut colors,
            &mut infos,
        )
        .unwrap();
    assert_eq!(ext.fw_version.as_deref(), Some("first"));
    assert_eq!(ext.focal_length, Some(70));
}

#[test]
fn view_preferences_first_wins() {
    let mut ext = ExtractedData::new();
    let mut vp1 = empty_vp();
    vp1.image_integration_time_ns = Some(5_000_000);
    vp1.image_gain = Some(0x3F800000);
    extract_view(&vp1, &mut ext);
    let mut vp2 = empty_vp();
    vp2.image_integration_time_ns = Some(9);
    vp2.on_tripod = Some(true);
    extract_view(&vp2, &mut ext);
    assert_eq!(ext.image_integration_time, Some(5_000_000));
    assert_eq!(ext.image_gain, Some(0x3F800000));
    assert_eq!(ext.on_tripod, Some(true));
}

#[test]
fn module_without_surface_is_skipped() {
    let mut lh = empty_lh();
    lh.modules = vec![ModuleEntry {
        camera: CameraId::B2,
        sensor_data_surface: None,
        sensor_bayer_red_override: None,
    }];
    let block = plain_block(BlockType::LightHeader, &[]);
    let (r, _, images, _, _) = extract(&block, &Message::LightHeader(lh));
    assert!(r.is_ok());
    assert!(images.is_empty());
}

#[test]
fn missing_override_is_fatal() {
    let mut lh = empty_lh();
    lh.modules = vec![ModuleEntry {
        camera: CameraId::B2,
        sensor_data_surface: Some(Surface {
            width: 2,
            height: 1,
            data_offset: 32,
            row_stride: 2,
            format: DataFormat::Packed10bpp,
        }),
        sensor_bayer_red_override: None,
    }];
    let block = plain_block(BlockType::LightHeader, &[7, 7]);
    let (r, _, images, _, _) = extract(&block, &Message::LightHeader(lh));
    assert_eq!(
        r,
        Err(LriError::MissingRequiredOverride {
            camera: CameraId::B2
        })
    );
    assert!(images.is_empty());
}

#[test]
fn packed_payload_is_sliced() {
    let mut lh = empty_lh();
    lh.modules = vec![ModuleEntry {
        camera: CameraId::C6,
        sensor_data_surface: Some(Surface {
            width: 2,
            height: 2,
            data_offset: 33,
            row_stride: 2,
            format: DataFormat::Packed10bpp,
        }),
        sensor_bayer_red_override: Some((0, 0)),
    }];
    let block = plain_block(BlockType::LightHeader, &[10, 11, 12, 13, 14]);
    let (r, _, images, _, _) = extract(&block, &Message::LightHeader(lh));
    assert!(r.is_ok());
    assert_eq!(images.len(), 1);
    let im = &images[0];
    assert_eq!(im.camera, CameraId::C6);
    assert_eq!(im.sensor, SensorModel::Unknown);
    assert_eq!((im.width, im.height), (2, 2));
    assert_eq!(im.sbro, (0, 0));
    match &im.data {
        RawData::Packed10bpp { data } => assert_eq!(data, &vec![11, 12, 13, 14]),
        _ => panic!("expected packed payload"),
    }
}

#[test]
fn out_of_bounds_payload_is_fatal() {
    let mut lh = empty_lh();
    lh.modules = vec![ModuleEntry {
        camera: CameraId::A1,
        sensor_data_surface: Some(Surface {
            width: 100,
            height: 100,
            data_offset: 32,
            row_stride: 100,
            format: DataFormat::Packed10bpp,
        }),
        sensor_bayer_red_override: Some((0, 0)),
    }];
    let block = plain_block(BlockType::LightHeader, &[0; 16]);
    let (r, _, _, _, _) = extract(&block, &Message::LightHeader(lh));
    assert_eq!(r, Err(LriError::OutOfBoundsPayload { offset: 32 }));
}

#[test]
fn decode_joins_sensor_and_colors() {
    // Calibration and inventory in a later block back-fill an image from
    // an earlier block, and the color list keeps encounter order.
    let mut lh1 = empty_lh();
    lh1.modules = vec![ModuleEntry {
        camera: CameraId::A2,
        sensor_data_surface: Some(Surface {
            width: 2,
            height: 1,
            data_offset: 32,
            row_stride: 2,
            format: DataFormat::Packed10bpp,
        }),
        sensor_bayer_red_override: Some((1, 1)),
    }];
    lh1.image_reference_camera = Some(CameraId::A2);
    let block1 = plain_block(BlockType::LightHeader, &[1, 2]);

    let mut lh2 = empty_lh();
    lh2.hw_info = Some(vec![
        CameraEntry {
            camera: CameraId::A2,
            sensor: SensorModel::Ar1335,
        },
        CameraEntry {
            camera: CameraId::B1,
            sensor: SensorModel::Ar1335Mono,
        },
    ]);
    lh2.module_calibration = vec![
        ModuleCalibration {
            camera: CameraId::A2,
            color: vec![ColorEntry {
                whitepoint: Whitepoint::D65,
                forward_matrix: Some(mat(1)),
                color_matrix: Some(mat(50)),
                rg: 1,
                bg: 2,
            }],
        },
        ModuleCalibration {
            camera: CameraId::B1,
            color: vec![ColorEntry {
                whitepoint: Whitepoint::F2,
                forward_matrix: Some(mat(60)),
                color_matrix: None,
                rg: 3,
                bg: 4,
            }],
        },
        ModuleCalibration {
            camera: CameraId::A2,
            color: vec![ColorEntry {
                whitepoint: Whitepoint::F7,
                forward_matrix: Some(mat(70)),
                color_matrix: None,
                rg: 5,
                bg: 6,
            }],
        },
    ];
    let block2 = plain_block(BlockType::LightHeader, &[]);

    let blocks = vec![block1, block2];
    let msgs = vec![Message::LightHeader(lh1), Message::LightHeader(lh2)];
    let file = LriFile::decode(&blocks, &msgs).unwrap();

    assert_eq!(file.image_count(), 1);
    assert_eq!(file.camera_infos.len(), 2);
    assert_eq!(file.colors.len(), 3);
    let im = &file.images()[0];
    assert_eq!(im.sensor, SensorModel::Ar1335);
    // Exactly the A2 entries, in encounter order.
    assert_eq!(im.color.len(), 2);
    assert_eq!(im.color[0].whitepoint, Whitepoint::D65);
    assert_eq!(im.color[1].whitepoint, Whitepoint::F7);
    // The reference image is the A2 image.
    let reference = file.reference_image().unwrap();
    assert_eq!(reference.camera, CameraId::A2);
    assert_eq!(file.image_reference_camera, Some(CameraId::A2));
}

#[test]
fn decode_error_aborts_whole_file() {
    let mut lh = empty_lh();
    lh.modules = vec![ModuleEntry {
        camera: CameraId::A1,
        sensor_data_surface: Some(Surface {
            width: 4,
            height: 4,
            data_offset: 9999,
            row_stride: 4,
            format: DataFormat::Packed10bpp,
        }),
        sensor_bayer_red_override: Some((0, 0)),
    }];
    let blocks = vec![plain_block(BlockType::LightHeader, &[])];
    let msgs = vec![Message::LightHeader(lh)];
    assert_eq!(
        LriFile::decode(&blocks, &msgs).unwrap_err(),
        LriError::OutOfBoundsPayload { offset: 9999 }
    );
}

#[test]
fn gps_blocks_fold_as_no_ops() {
    let blocks = vec![plain_block(BlockType::GPSData, &[])];
    let msgs = vec![Message::Gps];
    let file = LriFile::decode(&blocks, &msgs).unwrap();
    assert_eq!(file.image_count(), 0);
    assert!(file.colors.is_empty());
    assert!(file.camera_infos.is_empty());
    assert_eq!(file.firmware_version, None);
    assert!(file.reference_image().is_none());
}
