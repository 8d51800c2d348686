use lri_rs::error::LriError;
use lri_rs::image::RawImage;
use lri_rs::message::Surface;
use lri_rs::mosaic::place_quadrant;
use lri_rs::payload::{locate_payload, RawData};
use lri_rs::rotate::rotate_180;
use lri_rs::types::{CameraId, DataFormat, SensorModel};

fn raw_image(width: usize, height: usize, data: RawData) -> RawImage {
    RawImage {
        camera: CameraId::A1,
        sensor: SensorModel::Ar1335,
        width,
        height,
        format: DataFormat::Packed10bpp,
        data,
        sbro: (0, 0),
        color: vec![],
    }
}

#[test]
fn interleave_four_single_pixel_planes() {
    // A 2x2 mosaic from four single-pixel quadrant planes lands at
    // (0,0), (1,0), (0,1), (1,1) respectively.
    let mut mosaic = vec![0u8; 4];
    place_quadrant(&mut mosaic, &[10], 2, 2, 0);
    place_quadrant(&mut mosaic, &[20], 2, 2, 1);
    place_quadrant(&mut mosaic, &[30], 2, 2, 2);
    place_quadrant(&mut mosaic, &[40], 2, 2, 3);
    assert_eq!(mosaic, vec![10, 20, 30, 40]);
}

#[test]
fn interleave_four_by_two() {
    // A 4x2 mosaic from four 2x1 planes.
    let mut mosaic = vec![0u8; 8];
    place_quadrant(&mut mosaic, &[1, 2], 4, 2, 0);
    place_quadrant(&mut mosaic, &[3, 4], 4, 2, 1);
    place_quadrant(&mut mosaic, &[5, 6], 4, 2, 2);
    place_quadrant(&mut mosaic, &[7, 8], 4, 2, 3);
    assert_eq!(mosaic, vec![1, 3, 2, 4, 5, 7, 6, 8]);
}

#[test]
fn bayer_packed_quantizes() {
    // Samples 1023, 0, 0, 0: black level 42 off, then two bits dropped.
    let im = raw_image(
        2,
        2,
        RawData::Packed10bpp {
            data: vec![0xFF, 0xC0, 0x00, 0x00, 0x00],
        },
    );
    assert_eq!(im.bayer().unwrap(), vec![245, 0, 0, 0]);
}

#[test]
fn bayer_packed_too_short_is_none() {
    let im = raw_image(4, 4, RawData::Packed10bpp { data: vec![0xFF] });
    assert!(im.bayer().is_none());
}

#[test]
fn bayer_rejects_undecodable_plane() {
    // Four bytes that are no JPEG stream: were the external decode a
    // pass-through of its input, the sizes would match and a mosaic would
    // come out; the real decoder refuses them.
    let im = raw_image(
        2,
        2,
        RawData::BayerJpeg {
            header: vec![],
            format: 1,
            jpeg0: vec![9, 9, 9, 9],
            jpeg1: vec![],
            jpeg2: vec![],
            jpeg3: vec![],
        },
    );
    assert!(im.bayer().is_none());
}

/// A minimal one-pixel grayscale baseline JPEG: flat quantization, one
/// one-bit Huffman code per table, a zero DC difference and an immediate
/// end-of-block, decoding to the single level-shifted sample 128.
fn tiny_jpeg() -> Vec<u8> {
    let mut v = Vec::new();
    v.extend_from_slice(&[0xFF, 0xD8]);
    v.extend_from_slice(&[0xFF, 0xDB, 0x00, 0x43, 0x00]);
    v.extend_from_slice(&[1u8; 64]);
    v.extend_from_slice(&[
        0xFF, 0xC0, 0x00, 0x0B, 0x08, 0x00, 0x01, 0x00, 0x01, 0x01, 0x01, 0x11, 0x00,
    ]);
    v.extend_from_slice(&[0xFF, 0xC4, 0x00, 0x14, 0x00]);
    v.push(0x01);
    v.extend_from_slice(&[0u8; 15]);
    v.push(0x00);
    v.extend_from_slice(&[0xFF, 0xC4, 0x00, 0x14, 0x10]);
    v.push(0x01);
    v.extend_from_slice(&[0u8; 15]);
    v.push(0x00);
    v.extend_from_slice(&[0xFF, 0xDA, 0x00, 0x08, 0x01, 0x01, 0x00, 0x00, 0x3F, 0x00]);
    v.push(0x3F);
    v.extend_from_slice(&[0xFF, 0xD9]);
    v
}

#[test]
fn bayer_combined_stream_decodes() {
    let im = raw_image(
        1,
        1,
        RawData::BayerJpeg {
            header: vec![],
            format: 1,
            jpeg0: tiny_jpeg(),
            jpeg1: vec![],
            jpeg2: vec![],
            jpeg3: vec![],
        },
    );
    assert_eq!(im.bayer().unwrap(), vec![128]);
}

#[test]
fn bayer_quadrant_streams_decode() {
    let im = raw_image(
        2,
        2,
        RawData::BayerJpeg {
            header: vec![],
            format: 0,
            jpeg0: tiny_jpeg(),
            jpeg1: tiny_jpeg(),
            jpeg2: tiny_jpeg(),
            jpeg3: tiny_jpeg(),
        },
    );
    assert_eq!(im.bayer().unwrap(), vec![128, 128, 128, 128]);
}

#[test]
fn bayer_unknown_variant_is_none() {
    let im = raw_image(
        2,
        2,
        RawData::BayerJpeg {
            header: vec![],
            format: 7,
            jpeg0: vec![],
            jpeg1: vec![],
            jpeg2: vec![],
            jpeg3: vec![],
        },
    );
    assert!(im.bayer().is_none());
}

fn tiled_block_bytes(format: u32, streams: [&[u8]; 4]) -> Vec<u8> {
    // A payload region laid out as the locator expects, standing at
    // offset 0 of a block: discriminant at +4, four stream lengths, the
    // fixed header region, then the streams back to back.
    let mut v = vec![0u8; 4];
    v.extend_from_slice(&format.to_le_bytes());
    for s in streams {
        v.extend_from_slice(&(s.len() as u32).to_le_bytes());
    }
    v.extend_from_slice(&[0xEE; 1576]);
    for s in streams {
        v.extend_from_slice(s);
    }
    v
}

#[test]
fn locate_packed_payload() {
    let surface = Surface {
        width: 2,
        height: 2,
        data_offset: 1,
        row_stride: 2,
        format: DataFormat::Packed10bpp,
    };
    let data = [0u8, 5, 6, 7, 8, 9];
    match locate_payload(&surface, &data).unwrap() {
        RawData::Packed10bpp { data } => assert_eq!(data, vec![5, 6, 7, 8]),
        _ => panic!("expected packed payload"),
    }
}

#[test]
fn locate_packed_out_of_bounds() {
    let surface = Surface {
        width: 2,
        height: 2,
        data_offset: 4,
        row_stride: 2,
        format: DataFormat::Packed10bpp,
    };
    assert_eq!(
        locate_payload(&surface, &[0u8; 6]).unwrap_err(),
        LriError::OutOfBoundsPayload { offset: 4 }
    );
}

#[test]
fn locate_tiled_combined_stream() {
    let bytes = tiled_block_bytes(1, [&[1, 2, 3], &[], &[], &[]]);
    let surface = Surface {
        width: 2,
        height: 2,
        data_offset: 0,
        row_stride: 0,
        format: DataFormat::BayerJpeg,
    };
    match locate_payload(&surface, &bytes).unwrap() {
        RawData::BayerJpeg {
            header,
            format,
            jpeg0,
            jpeg1,
            jpeg2,
            jpeg3,
        } => {
            assert_eq!(format, 1);
            assert_eq!(header, vec![0xEE; 1576]);
            assert_eq!(jpeg0, vec![1, 2, 3]);
            assert!(jpeg1.is_empty() && jpeg2.is_empty() && jpeg3.is_empty());
        }
        _ => panic!("expected tiled payload"),
    }
}

#[test]
fn locate_tiled_quadrant_streams() {
    let bytes = tiled_block_bytes(0, [&[1], &[2, 2], &[3], &[4, 4, 4]]);
    let surface = Surface {
        width: 2,
        height: 2,
        data_offset: 0,
        row_stride: 0,
        format: DataFormat::BayerJpeg,
    };
    match locate_payload(&surface, &bytes).unwrap() {
        RawData::BayerJpeg {
            format,
            jpeg0,
            jpeg1,
            jpeg2,
            jpeg3,
            ..
        } => {
            assert_eq!(format, 0);
            assert_eq!(jpeg0, vec![1]);
            assert_eq!(jpeg1, vec![2, 2]);
            assert_eq!(jpeg2, vec![3]);
            assert_eq!(jpeg3, vec![4, 4, 4]);
        }
        _ => panic!("expected tiled payload"),
    }
}

#[test]
fn locate_tiled_unknown_variant() {
    let bytes = tiled_block_bytes(5, [&[], &[], &[], &[]]);
    let surface = Surface {
        width: 2,
        height: 2,
        data_offset: 0,
        row_stride: 0,
        format: DataFormat::BayerJpeg,
    };
    assert_eq!(
        locate_payload(&surface, &bytes).unwrap_err(),
        LriError::UnsupportedBayerJpegVariant { variant: 5 }
    );
}

#[test]
fn locate_tiled_truncated_stream() {
    let mut bytes = tiled_block_bytes(1, [&[1, 2, 3], &[], &[], &[]]);
    bytes.truncate(bytes.len() - 2);
    let surface = Surface {
        width: 2,
        height: 2,
        data_offset: 0,
        row_stride: 0,
        format: DataFormat::BayerJpeg,
    };
    assert_eq!(
        locate_payload(&surface, &bytes).unwrap_err(),
        LriError::OutOfBoundsPayload { offset: 0 }
    );
}

#[test]
fn rotate_two_pixels() {
    let mut data = [1u8, 2, 3, 4, 5, 6];
    rotate_180(&mut data);
    assert_eq!(data, [4, 5, 6, 1, 2, 3]);
}

#[test]
fn rotate_odd_pixel_count() {
    let mut data = [1u8, 2, 3, 4, 5, 6, 7, 8, 9];
    rotate_180(&mut data);
    assert_eq!(data, [7, 8, 9, 4, 5, 6, 1, 2, 3]);
}
