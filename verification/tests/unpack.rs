use lri_rs::unpacker::{unpack_bytes, Unpacker};

/// Packs 10-bit values MSB-first, four samples per five bytes, the last
/// byte zero-padded, mirroring the scheme the unpacker expands.
fn pack(vals: &[u16]) -> Vec<u8> {
    let mut bits: Vec<bool> = Vec::new();
    for &v in vals {
        assert!(v < 1024);
        for k in (0..10).rev() {
            bits.push((v >> k) & 1 == 1);
        }
    }
    while bits.len() % 8 != 0 {
        bits.push(false);
    }
    bits.chunks(8)
        .map(|c| c.iter().fold(0u8, |acc, &b| (acc << 1) | (b as u8)))
        .collect()
}

fn samples(out: &[u8]) -> Vec<u16> {
    out.chunks(2)
        .map(|c| u16::from_le_bytes([c[0], c[1]]))
        .collect()
}

#[test]
fn unpack_example() {
    // The worked example: five bytes holding 1023, 0, 0, 0.
    let mut up = Unpacker::new();
    for b in [0xFFu8, 0xC0, 0x00, 0x00, 0x00] {
        up.push(b);
    }
    up.finish();
    assert_eq!(up.out, vec![0xFF, 0x03, 0x00, 0x00, 0x00, 0x00, 0x00, 0x00]);
    assert_eq!(samples(&up.out), vec![1023, 0, 0, 0]);
}

#[test]
fn unpack_bytes_example() {
    let out = unpack_bytes(&[0xFF, 0xC0, 0x00, 0x00, 0x00]);
    assert_eq!(samples(&out), vec![1023, 0, 0, 0]);
}

#[test]
fn unpack_empty() {
    assert_eq!(unpack_bytes(&[]), Vec::<u8>::new());
}

#[test]
fn finish_pads_remaining_bits() {
    // One byte holds eight bits; finish pads them to ten with two zeros.
    let mut up = Unpacker::new();
    up.push(0xFF);
    assert!(up.out.is_empty());
    up.finish();
    assert_eq!(samples(&up.out), vec![0b11_1111_1100]);
}

#[test]
fn round_trip_full_group() {
    let vals = [1u16, 2, 3, 4, 1023, 0, 511, 512];
    let out = unpack_bytes(&pack(&vals));
    assert_eq!(samples(&out), vals.to_vec());
}

#[test]
fn round_trip_with_remainder() {
    // Five values: the padding bits of the final partial group come back
    // as one extra all-zero sample.
    let vals = [5u16, 700, 3, 1023, 42];
    let out = unpack_bytes(&pack(&vals));
    assert_eq!(samples(&out), vec![5, 700, 3, 1023, 42, 0]);
}

#[test]
fn round_trip_single_value() {
    let out = unpack_bytes(&pack(&[777]));
    assert_eq!(samples(&out), vec![777, 0]);
}

#[test]
fn pack_scheme_matches_example() {
    assert_eq!(pack(&[1023, 0, 0, 0]), vec![0xFF, 0xC0, 0x00, 0x00, 0x00]);
}
