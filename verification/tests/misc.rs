use lri_rs::bytes::{copy_range, read_le_u32, read_le_u64};
use lri_rs::fine::Signature;
use lri_rs::image::tally_cameras;
use lri_rs::inspect::{Block, DataHeader};
use lri_rs::message::{CameraEntry, LightHeaderMsg, ModuleEntry};
use lri_rs::payload::RawData;
use lri_rs::types::{CameraId, DataFormat, Mat3, SensorModel};

#[test]
fn le_readers() {
    let data = [0x78u8, 0x56, 0x34, 0x12, 0xEF, 0xCD, 0xAB, 0x89, 0x67, 0x45, 0x23, 0x01];
    assert_eq!(read_le_u32(&data, 0), 0x12345678);
    assert_eq!(read_le_u64(&data, 4), 0x0123456789ABCDEF);
}

#[test]
fn copy_range_copies() {
    let data = [1u8, 2, 3, 4, 5];
    assert_eq!(copy_range(&data, 1, 4), vec![2, 3, 4]);
    assert_eq!(copy_range(&data, 2, 2), Vec::<u8>::new());
}

#[test]
fn data_header_reads_raw_fields() {
    let mut data = Vec::new();
    data.extend_from_slice(b"LELR");
    data.extend_from_slice(&1000u64.to_le_bytes());
    data.extend_from_slice(&48u64.to_le_bytes());
    data.extend_from_slice(&7u32.to_le_bytes());
    data.push(2);
    data.extend_from_slice(&[1, 2, 3, 4, 5, 6, 7]);
    let h = DataHeader::new(&data);
    assert_eq!(&h.magic_number, b"LELR");
    assert_eq!(h.combined_length, 1000);
    assert_eq!(h.header_length, 48);
    assert_eq!(h.message_length, 7);
    assert_eq!(h.kind, 2);
    assert_eq!(h.reserved, [1, 2, 3, 4, 5, 6, 7]);
}

#[test]
fn sensor_blocks_by_header_length() {
    let mut data = Vec::new();
    data.extend_from_slice(b"LELR");
    data.extend_from_slice(&40u64.to_le_bytes());
    data.extend_from_slice(&32u64.to_le_bytes());
    data.extend_from_slice(&0u32.to_le_bytes());
    data.extend_from_slice(&[0u8; 8]);
    data.extend_from_slice(&[9u8; 8]);
    let header = DataHeader::new(&data);
    let block = Block { header, data };
    assert!(!block.is_sensor());
    assert_eq!(block.body(), &[9u8; 8]);

    let mut data2 = Vec::new();
    data2.extend_from_slice(b"LELR");
    data2.extend_from_slice(&40u64.to_le_bytes());
    data2.extend_from_slice(&4096u64.to_le_bytes());
    data2.extend_from_slice(&0u32.to_le_bytes());
    data2.extend_from_slice(&[0u8; 8]);
    let header2 = DataHeader::new(&data2);
    let block2 = Block {
        header: header2,
        data: data2,
    };
    assert!(block2.is_sensor());
}

#[test]
fn signature_counts_fields() {
    let mut sig = Signature::new();
    assert_eq!(sig.lh.modules, 0);
    let msg = LightHeaderMsg {
        hw_info: Some(vec![CameraEntry {
            camera: CameraId::A1,
            sensor: SensorModel::Ar835,
        }]),
        module_calibration: vec![],
        modules: vec![
            ModuleEntry {
                camera: CameraId::A1,
                sensor_data_surface: None,
                sensor_bayer_red_override: None,
            },
            ModuleEntry {
                camera: CameraId::A2,
                sensor_data_surface: None,
                sensor_bayer_red_override: None,
            },
        ],
        image_reference_camera: None,
        device_fw_version: Some(String::from("v1")),
        image_focal_length: None,
        af_achieved: Some(true),
    };
    sig.merge(&msg);
    sig.merge(&msg);
    assert_eq!(sig.lh.hw_info, 2);
    assert_eq!(sig.lh.modules, 4);
    assert_eq!(sig.lh.module_calibration, 0);
    assert_eq!(sig.lh.device_fw_version, 2);
    assert_eq!(sig.lh.image_reference_camera, 0);
    assert_eq!(sig.lh.af_info, 2);
}

#[test]
fn tally_counts_by_camera() {
    let mk = |camera: CameraId, sensor: SensorModel| lri_rs::image::RawImage {
        camera,
        sensor,
        width: 1,
        height: 1,
        format: DataFormat::Packed10bpp,
        data: RawData::Packed10bpp { data: vec![] },
        sbro: (0, 0),
        color: vec![],
    };
    let images = vec![
        mk(CameraId::A1, SensorModel::Ar1335),
        mk(CameraId::B1, SensorModel::Ar1335Mono),
        mk(CameraId::A1, SensorModel::Unknown),
        mk(CameraId::A1, SensorModel::Ar835),
    ];
    let tally = tally_cameras(&images);
    assert_eq!(tally.len(), 2);
    assert_eq!(tally[0].0, CameraId::A1);
    assert_eq!(tally[0].1.count, 3);
    assert_eq!(tally[0].1.sensor, SensorModel::Ar1335);
    assert_eq!(tally[1].0, CameraId::B1);
    assert_eq!(tally[1].1.count, 1);
    assert_eq!(tally[1].1.sensor, SensorModel::Ar1335Mono);
}

#[test]
fn zero_matrix_is_all_zero() {
    let z = Mat3::zero();
    assert_eq!(
        (z.x00, z.x01, z.x02, z.x10, z.x11, z.x12, z.x20, z.x21, z.x22),
        (0, 0, 0, 0, 0, 0, 0, 0, 0)
    );
}
