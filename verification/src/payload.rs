//! Locating a raw-image payload inside its owning block.

use vstd::prelude::*;
use crate::bytes::{copy_range, le_u32_at, read_le_u32};
use crate::error::LriError;
use crate::message::Surface;
use crate::types::DataFormat;

verus! {

/// Length of the fixed header region of a tiled payload, which follows
/// the discriminant and sub-stream length fields.
pub const BAYER_JPEG_HEADER_LEN: u64 = 1576;

/// A raw-image payload: either four JPEG-encoded quadrant streams (or one
/// combined stream), or a packed 10-bits-per-pixel stream.
#[derive(Clone, Debug)]
pub enum RawData {
    BayerJpeg {
        /// The fixed-size header region of the tiled payload.
        header: Vec<u8>,
        /// The format discriminant: one combined stream or four quadrants.
        format: u32,
        jpeg0: Vec<u8>,
        jpeg1: Vec<u8>,
        jpeg2: Vec<u8>,
        jpeg3: Vec<u8>,
    },
    Packed10bpp { data: Vec<u8> },
}

/// The mathematical value of a payload.
pub enum RawDataModel {
    BayerJpeg {
        header: Seq<u8>,
        format: u32,
        jpeg0: Seq<u8>,
        jpeg1: Seq<u8>,
        jpeg2: Seq<u8>,
        jpeg3: Seq<u8>,
    },
    Packed10bpp { data: Seq<u8> },
}

impl RawData {
    /// The payload's mathematical value.
    pub open spec fn model(&self) -> RawDataModel {
        match self {
            RawData::BayerJpeg { header, format, jpeg0, jpeg1, jpeg2, jpeg3 } => {
                RawDataModel::BayerJpeg {
                    header: header@,
                    format: *format,
                    jpeg0: jpeg0@,
                    jpeg1: jpeg1@,
                    jpeg2: jpeg2@,
                    jpeg3: jpeg3@,
                }
            },
            RawData::Packed10bpp { data } => RawDataModel::Packed10bpp { data: data@ },
        }
    }
}

/// Where the payload of a surface lies within its owning block's bytes
/// (header included), or why it cannot be laid out.
///
/// A packed payload is the `row_stride * height` bytes at `data_offset`.
/// A tiled payload carries at `data_offset` a format discriminant (at +4)
/// and four sub-stream lengths (at +8 through +20); a fixed header region
/// follows these fields, and the sub-streams follow the header back to
/// back, each of its declared length. Discriminant 1 is one combined
/// stream; discriminant 0 is four independent quadrant streams; any other
/// discriminant is unsupported. Any slice that would overrun the block is
/// out of bounds.
pub open spec fn locate_spec(surface: Surface, data: Seq<u8>) -> Result<RawDataModel, LriError> {
    let off = surface.data_offset as int;
    if surface.format == DataFormat::Packed10bpp {
        let len = surface.row_stride * surface.height;
        if off + len > data.len() {
            Err(LriError::OutOfBoundsPayload { offset: surface.data_offset })
        } else {
            Ok(RawDataModel::Packed10bpp { data: data.subrange(off, off + len) })
        }
    } else {
        if off + 24 > data.len() {
            Err(LriError::OutOfBoundsPayload { offset: surface.data_offset })
        } else {
            let format = le_u32_at(data, off + 4);
            let l0 = le_u32_at(data, off + 8) as int;
            let l1 = le_u32_at(data, off + 12) as int;
            let l2 = le_u32_at(data, off + 16) as int;
            let l3 = le_u32_at(data, off + 20) as int;
            let hdr_start = off + 24;
            let s0 = hdr_start + BAYER_JPEG_HEADER_LEN;
            if format == 1 {
                if s0 + l0 > data.len() {
                    Err(LriError::OutOfBoundsPayload { offset: surface.data_offset })
                } else {
                    Ok(RawDataModel::BayerJpeg {
                        header: data.subrange(hdr_start, s0),
                        format,
                        jpeg0: data.subrange(s0, s0 + l0),
                        jpeg1: Seq::empty(),
                        jpeg2: Seq::empty(),
                        jpeg3: Seq::empty(),
                    })
                }
            } else if format == 0 {
                if s0 + l0 + l1 + l2 + l3 > data.len() {
                    Err(LriError::OutOfBoundsPayload { offset: surface.data_offset })
                } else {
                    Ok(RawDataModel::BayerJpeg {
                        header: data.subrange(hdr_start, s0),
                        format,
                        jpeg0: data.subrange(s0, s0 + l0),
                        jpeg1: data.subrange(s0 + l0, s0 + l0 + l1),
                        jpeg2: data.subrange(s0 + l0 + l1, s0 + l0 + l1 + l2),
                        jpeg3: data.subrange(s0 + l0 + l1 + l2, s0 + l0 + l1 + l2 + l3),
                    })
                }
            } else {
                Err(LriError::UnsupportedBayerJpegVariant { variant: format })
            }
        }
    }
}

/// Slices the payload a surface describes out of its owning block's bytes.
pub fn locate_payload(surface: &Surface, data: &[u8]) -> (r: Result<RawData, LriError>)
    ensures
        r is Ok <==> locate_spec(*surface, data@) is Ok,
        r is Ok ==> r->Ok_0.model() == locate_spec(*surface, data@)->Ok_0,
        r is Err ==> r->Err_0 == locate_spec(*surface, data@)->Err_0,
{
    let dl = data.len() as u64;
    let off = surface.data_offset;
    match surface.format {
        DataFormat::Packed10bpp => {
            proof {
                let a = surface.row_stride as int;
                let b = surface.height as int;
                assert(a * b <= 0xFFFF_FFFF * 0xFFFF_FFFF) by (nonlinear_arith)
                    requires
                        0 <= a <= 0xFFFF_FFFF,
                        0 <= b <= 0xFFFF_FFFF,
                ;
            }
            let len = (surface.row_stride as u64) * (surface.height as u64);
            if off > dl || len > dl - off {
                return Err(LriError::OutOfBoundsPayload { offset: off });
            }
            let start = off as usize;
            let end = (off + len) as usize;
            Ok(RawData::Packed10bpp { data: copy_range(data, start, end) })
        },
        DataFormat::BayerJpeg => {
            if off > dl || 24 > dl - off {
                return Err(LriError::OutOfBoundsPayload { offset: off });
            }
            let base = off as usize;
            let format = read_le_u32(data, base + 4);
            let l0 = read_le_u32(data, base + 8) as u64;
            let l1 = read_le_u32(data, base + 12) as u64;
            let l2 = read_le_u32(data, base + 16) as u64;
            let l3 = read_le_u32(data, base + 20) as u64;
            if format == 1 {
                if BAYER_JPEG_HEADER_LEN > dl - off - 24 || l0 > dl - off - 24
                    - BAYER_JPEG_HEADER_LEN {
                    return Err(LriError::OutOfBoundsPayload { offset: off });
                }
                let hdr_start = base + 24;
                let s0 = hdr_start + BAYER_JPEG_HEADER_LEN as usize;
                Ok(RawData::BayerJpeg {
                    header: copy_range(data, hdr_start, s0),
                    format,
                    jpeg0: copy_range(data, s0, s0 + l0 as usize),
                    jpeg1: Vec::new(),
                    jpeg2: Vec::new(),
                    jpeg3: Vec::new(),
                })
            } else if format == 0 {
                let total = l0 + l1 + l2 + l3;
                if BAYER_JPEG_HEADER_LEN > dl - off - 24 || total > dl - off - 24
                    - BAYER_JPEG_HEADER_LEN {
                    return Err(LriError::OutOfBoundsPayload { offset: off });
                }
                let hdr_start = base + 24;
                let s0 = hdr_start + BAYER_JPEG_HEADER_LEN as usize;
                let e0 = s0 + l0 as usize;
                let e1 = e0 + l1 as usize;
                let e2 = e1 + l2 as usize;
                let e3 = e2 + l3 as usize;
                Ok(RawData::BayerJpeg {
                    header: copy_range(data, hdr_start, s0),
                    format,
                    jpeg0: copy_range(data, s0, e0),
                    jpeg1: copy_range(data, e0, e1),
                    jpeg2: copy_range(data, e1, e2),
                    jpeg3: copy_range(data, e2, e3),
                })
            } else {
                Err(LriError::UnsupportedBayerJpegVariant { variant: format })
            }
        },
    }
}

} // verus!
