//! A literal view of a block header for survey tooling: every raw field
//! kept as read, nothing validated, so that a malformed or unfamiliar
//! capture can still be examined.

use vstd::prelude::*;
use crate::bytes::{le_u32_at, le_u64_at, read_le_u32, read_le_u64};

verus! {

/// The raw fields of one block header, as they lie in the file. The
/// second length field is carried under its historical name; on blocks
/// holding sensor payload it differs from the header's own size.
#[derive(Clone, Debug)]
pub struct DataHeader {
    /// The four magic bytes, as read; not checked here.
    pub magic_number: [u8; 4],
    pub combined_length: u64,
    pub header_length: u64,
    pub message_length: u32,
    pub kind: u8,
    pub reserved: [u8; 7],
}

impl DataHeader {
    /// Reads the raw header fields from the first 32 bytes of `data`.
    pub fn new(data: &[u8]) -> (r: DataHeader)
        requires
            data@.len() >= 32,
        ensures
            r.magic_number@ == data@.subrange(0, 4),
            r.combined_length == le_u64_at(data@, 4),
            r.header_length == le_u64_at(data@, 12),
            r.message_length == le_u32_at(data@, 20),
            r.kind == data@[24],
            r.reserved@ == data@.subrange(25, 32),
    {
        let magic_number = [data[0], data[1], data[2], data[3]];
        let combined_length = read_le_u64(data, 4);
        let header_length = read_le_u64(data, 12);
        let message_length = read_le_u32(data, 20);
        let kind = data[24];
        let reserved = [
            data[25],
            data[26],
            data[27],
            data[28],
            data[29],
            data[30],
            data[31],
        ];
        proof {
            assert(magic_number@ =~= data@.subrange(0, 4));
            assert(reserved@ =~= data@.subrange(25, 32));
        }
        DataHeader { magic_number, combined_length, header_length, message_length, kind, reserved }
    }
}

/// One block paired with its raw header view.
#[derive(Clone, Debug)]
pub struct Block {
    pub header: DataHeader,
    pub data: Vec<u8>,
}

impl Block {
    /// The block's bytes after the 32-byte header.
    pub fn body(&self) -> (r: &[u8])
        requires
            self.data@.len() >= 32,
        ensures
            r@ == self.data@.subrange(32, self.data@.len() as int),
    {
        &self.data.as_slice()[32..self.data.len()]
    }

    /// Whether the block holds sensor payload: its second length field
    /// then differs from the 32 bytes a plain header occupies.
    pub fn is_sensor(&self) -> (r: bool)
        ensures
            r == (self.header.header_length != 32),
    {
        self.header.header_length != 32
    }
}

} // verus!
