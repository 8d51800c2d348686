//! The block container: a sequence of self-delimiting blocks, each with a
//! fixed 32-byte header, covering the input buffer exactly.

use vstd::prelude::*;
use crate::bytes::{copy_range, le_u32_at, le_u64_at, read_le_u32, read_le_u64};
use crate::error::LriError;

verus! {

/// The kind of message embedded in a block. Any other tag value is a
/// decode failure.
#[derive(Copy, Clone, Debug, PartialEq, Eq, Structural)]
pub enum BlockType {
    LightHeader,
    ViewPreferences,
    GPSData,
}

/// The fixed-size header at the start of every block.
#[derive(Copy, Clone, Debug, PartialEq, Eq, Structural)]
pub struct Header {
    /// Total bytes belonging to this block, measured from the start of this
    /// header and including the header itself.
    pub block_length: u64,
    /// Offset from the block start to the embedded message.
    pub message_offset: u64,
    /// Length in bytes of the embedded message.
    pub message_length: u32,
    /// The kind of message in the block.
    pub kind: BlockType,
}

/// The first four bytes of `s` are the ASCII literal `LELR`.
pub open spec fn magic_ok(s: Seq<u8>) -> bool {
    &&& s.len() >= 4
    &&& s[0] == 0x4cu8
    &&& s[1] == 0x45u8
    &&& s[2] == 0x4cu8
    &&& s[3] == 0x52u8
}

/// The block kind encoded by a tag byte; meaningful only for tags 0 to 2.
pub open spec fn kind_of_tag(b: u8) -> BlockType {
    if b == 0 {
        BlockType::LightHeader
    } else if b == 1 {
        BlockType::ViewPreferences
    } else {
        BlockType::GPSData
    }
}

/// The header encoded by the first 32 bytes of `s`.
pub open spec fn header_of(s: Seq<u8>) -> Header {
    Header {
        block_length: le_u64_at(s, 4),
        message_offset: le_u64_at(s, 12),
        message_length: le_u32_at(s, 20),
        kind: kind_of_tag(s[24]),
    }
}

/// Outcome of reading a block header at the start of `s`, which begins
/// `base` bytes into the input buffer: the magic must read `LELR`, 32
/// bytes must be available, and the kind tag must be known.
pub open spec fn header_check(s: Seq<u8>, base: usize) -> Result<Header, LriError> {
    if s.len() >= 4 && !magic_ok(s) {
        Err(LriError::MalformedContainer { offset: base })
    } else if s.len() < 32 {
        Err(LriError::TruncatedBlock { offset: base })
    } else if s[24] > 2 {
        Err(LriError::UnknownBlockKind { offset: (base + 24) as usize, kind: s[24] })
    } else {
        Ok(header_of(s))
    }
}

/// Outcome of slicing the whole remaining buffer `s` (which begins `base`
/// bytes into the input) into blocks: the byte range of each block in
/// order, or the first structural error. A block whose declared length is
/// shorter than its own header or longer than what remains is truncated.
pub open spec fn spec_scan(s: Seq<u8>, base: usize) -> Result<Seq<Seq<u8>>, LriError>
    decreases s.len(),
{
    if s.len() == 0 {
        Ok(Seq::empty())
    } else {
        match header_check(s, base) {
            Err(e) => Err(e),
            Ok(h) => {
                let bl = h.block_length as int;
                if bl < 32 || bl > s.len() {
                    Err(LriError::TruncatedBlock { offset: base })
                } else {
                    match spec_scan(s.skip(bl), (base + bl) as usize) {
                        Err(e) => Err(e),
                        Ok(rest) => Ok(seq![s.take(bl)].add(rest)),
                    }
                }
            },
        }
    }
}

/// Prepends already-sliced blocks to the outcome of scanning a remainder.
pub open spec fn prepend_scan(p: Seq<Seq<u8>>, r: Result<Seq<Seq<u8>>, LriError>) -> Result<
    Seq<Seq<u8>>,
    LriError,
> {
    match r {
        Ok(rest) => Ok(p.add(rest)),
        Err(e) => Err(e),
    }
}

/// One block of the container, holding its header and its full byte range,
/// the 32 header bytes included.
#[derive(Clone, Debug)]
pub struct Block {
    pub header: Header,
    /// This includes the 32 bytes that make up the header.
    pub data: Vec<u8>,
}

impl Block {
    /// A well-formed block: its bytes begin with a valid header that
    /// declares exactly the length of the bytes held.
    pub open spec fn wf(&self) -> bool {
        &&& self.data@.len() >= 32
        &&& magic_ok(self.data@)
        &&& self.data@[24] <= 2
        &&& self.header == header_of(self.data@)
        &&& self.header.block_length == self.data@.len()
    }

    /// The block's bytes after the 32-byte header.
    pub fn body(&self) -> (r: &[u8])
        requires
            self.data@.len() >= 32,
        ensures
            r@ == self.data@.subrange(32, self.data@.len() as int),
    {
        &self.data.as_slice()[32..self.data.len()]
    }

    /// The bytes of the embedded message, located by the header.
    pub fn message_data(&self) -> (r: &[u8])
        requires
            self.header.message_offset + self.header.message_length <= self.data@.len(),
        ensures
            r@ == self.data@.subrange(
                self.header.message_offset as int,
                self.header.message_offset + self.header.message_length,
            ),
    {
        let n = self.data.len();
        proof {
            assert(self.header.message_offset <= n);
            assert(self.header.message_offset + self.header.message_length <= n);
        }
        let start = self.header.message_offset as usize;
        let end = start + self.header.message_length as usize;
        &self.data.as_slice()[start..end]
    }
}

impl Header {
    /// Reads the fixed-size header at the start of `data`: magic bytes,
    /// three little-endian length fields and the kind tag. Reports offsets
    /// relative to the start of `data`.
    pub fn ingest(data: &[u8]) -> (r: Result<Header, LriError>)
        ensures
            r == header_check(data@, 0),
    {
        if data.len() >= 4 && !(data[0] == 0x4c && data[1] == 0x45 && data[2] == 0x4c && data[3]
            == 0x52) {
            return Err(LriError::MalformedContainer { offset: 0 });
        }
        if data.len() < 32 {
            return Err(LriError::TruncatedBlock { offset: 0 });
        }
        let tag = data[24];
        if tag > 2 {
            return Err(LriError::UnknownBlockKind { offset: 24, kind: tag });
        }
        let block_length = read_le_u64(data, 4);
        let message_offset = read_le_u64(data, 12);
        let message_length = read_le_u32(data, 20);
        let kind = if tag == 0 {
            BlockType::LightHeader
        } else if tag == 1 {
            BlockType::ViewPreferences
        } else {
            BlockType::GPSData
        };
        Ok(Header { block_length, message_offset, message_length, kind })
    }
}

/// Prepending nothing leaves a scan outcome unchanged.
proof fn lemma_prepend_scan_empty(r: Result<Seq<Seq<u8>>, LriError>)
    ensures
        prepend_scan(Seq::empty(), r) == r,
{
    match r {
        Ok(rest) => {
            assert(Seq::empty().add(rest) =~= rest);
        },
        Err(_) => {},
    }
}

/// Prepending blocks in two steps is prepending their concatenation.
proof fn lemma_prepend_scan_compose(
    p: Seq<Seq<u8>>,
    q: Seq<Seq<u8>>,
    r: Result<Seq<Seq<u8>>, LriError>,
)
    ensures
        prepend_scan(p, prepend_scan(q, r)) == prepend_scan(p.add(q), r),
{
    match r {
        Ok(rest) => {
            assert(p.add(q.add(rest)) =~= p.add(q).add(rest));
        },
        Err(_) => {},
    }
}

/// Walks the byte buffer and slices it into an ordered sequence of blocks
/// covering it exactly, with no gaps or overlaps. Zero blocks is a valid
/// (empty) result; the first structural violation aborts the walk.
pub fn parse_blocks(data: &[u8]) -> (r: Result<Vec<Block>, LriError>)
    ensures
        match r {
            Ok(blocks) => {
                &&& spec_scan(data@, 0) == Ok::<Seq<Seq<u8>>, LriError>(
                    blocks@.map_values(|b: Block| b.data@),
                )
                &&& forall|i: int| 0 <= i < blocks@.len() ==> (#[trigger] blocks@[i]).wf()
            },
            Err(e) => spec_scan(data@, 0) == Err::<Seq<Seq<u8>>, LriError>(e),
        },
{
    let mut blocks: Vec<Block> = Vec::new();
    let mut pos: usize = 0;
    let total = data.len();
    proof {
        assert(data@.skip(0) =~= data@);
        assert(blocks@.map_values(|b: Block| b.data@) =~= Seq::<Seq<u8>>::empty());
        lemma_prepend_scan_empty(spec_scan(data@, 0));
    }
    while pos < total
        invariant
            pos <= total == data@.len(),
            spec_scan(data@, 0) == prepend_scan(
                blocks@.map_values(|b: Block| b.data@),
                spec_scan(data@.skip(pos as int), pos),
            ),
            forall|i: int| 0 <= i < blocks@.len() ==> (#[trigger] blocks@[i]).wf(),
        decreases total - pos,
    {
        let ghost prefix = blocks@.map_values(|b: Block| b.data@);
        let ghost rem = data@.skip(pos as int);
        let sub = &data[pos..total];
        proof {
            assert(sub@ =~= rem);
        }
        let header = match Header::ingest(sub) {
            Ok(h) => h,
            Err(e) => {
                let err = match e {
                    LriError::MalformedContainer { offset: _ } => LriError::MalformedContainer {
                        offset: pos,
                    },
                    LriError::UnknownBlockKind { offset: _, kind } => {
                        proof {
                            assert(rem.len() >= 32);
                        }
                        LriError::UnknownBlockKind { offset: pos + 24, kind }
                    },
                    _ => LriError::TruncatedBlock { offset: pos },
                };
                proof {
                    assert(header_check(rem, pos) == Err::<Header, LriError>(err));
                }
                return Err(err);
            },
        };
        let rem_len = total - pos;
        if header.block_length < 32 || header.block_length > rem_len as u64 {
            proof {
                assert(spec_scan(rem, pos) == Err::<Seq<Seq<u8>>, LriError>(
                    LriError::TruncatedBlock { offset: pos },
                ));
            }
            return Err(LriError::TruncatedBlock { offset: pos });
        }
        let bl = header.block_length as usize;
        let block_data = copy_range(data, pos, pos + bl);
        proof {
            assert(block_data@ =~= rem.take(bl as int));
        }
        let block = Block { header, data: block_data };
        proof {
            assert(rem.take(bl as int)[24] == rem[24]);
            assert(block.wf());
        }
        blocks.push(block);
        pos = pos + bl;
        proof {
            assert(rem.skip(bl as int) =~= data@.skip(pos as int));
            assert(spec_scan(rem, (pos - bl) as usize) == prepend_scan(
                seq![rem.take(bl as int)],
                spec_scan(data@.skip(pos as int), pos),
            ));
            lemma_prepend_scan_compose(
                prefix,
                seq![rem.take(bl as int)],
                spec_scan(data@.skip(pos as int), pos),
            );
            assert(blocks@.map_values(|b: Block| b.data@) =~= prefix.add(
                seq![rem.take(bl as int)],
            ));
        }
    }
    proof {
        assert(data@.skip(pos as int) =~= Seq::<u8>::empty());
        match spec_scan(data@, 0) {
            Ok(bs) => {
                assert(blocks@.map_values(|b: Block| b.data@).add(Seq::empty()) =~= blocks@
                    .map_values(|b: Block| b.data@));
            },
            Err(_) => {},
        }
    }
    Ok(blocks)
}

/// The number of bytes covered by a sequence of byte ranges.
pub open spec fn sum_lens(bs: Seq<Seq<u8>>) -> int
    decreases bs.len(),
{
    if bs.len() == 0 {
        0
    } else {
        bs.first().len() + sum_lens(bs.drop_first())
    }
}

/// Coverage: on any buffer the scan accepts, the block byte ranges
/// concatenate back to exactly the input buffer — they tile it in order
/// with no gaps or overlaps — the lengths each block declares are the
/// lengths of its range, and they sum to the input length.
pub proof fn lemma_blocks_tile(s: Seq<u8>, base: usize)
    requires
        spec_scan(s, base) is Ok,
    ensures
        spec_scan(s, base)->Ok_0.flatten() == s,
        sum_lens(spec_scan(s, base)->Ok_0) == s.len(),
        forall|i: int|
            0 <= i < spec_scan(s, base)->Ok_0.len() ==> header_of(
                #[trigger] spec_scan(s, base)->Ok_0[i],
            ).block_length == spec_scan(s, base)->Ok_0[i].len(),
    decreases s.len(),
{
    let bs = spec_scan(s, base)->Ok_0;
    if s.len() == 0 {
        assert(bs.flatten() =~= s);
    } else {
        let h = header_check(s, base)->Ok_0;
        let bl = h.block_length as int;
        let tail = s.skip(bl);
        let tail_base = (base + bl) as usize;
        lemma_blocks_tile(tail, tail_base);
        let rest = spec_scan(tail, tail_base)->Ok_0;
        assert(bs == seq![s.take(bl)].add(rest));
        assert(bs.drop_first() =~= rest);
        assert(bs.first() == s.take(bl));
        assert(bs.flatten() == s.take(bl).add(rest.flatten()));
        assert(s.take(bl).add(rest.flatten()) =~= s);
        assert(header_of(s.take(bl)) == header_of(s)) by {
            assert(s.take(bl)[4] == s[4]);
            assert(s.take(bl)[5] == s[5]);
            assert(s.take(bl)[6] == s[6]);
            assert(s.take(bl)[7] == s[7]);
            assert(s.take(bl)[8] == s[8]);
            assert(s.take(bl)[9] == s[9]);
            assert(s.take(bl)[10] == s[10]);
            assert(s.take(bl)[11] == s[11]);
            assert(s.take(bl)[12] == s[12]);
            assert(s.take(bl)[13] == s[13]);
            assert(s.take(bl)[14] == s[14]);
            assert(s.take(bl)[15] == s[15]);
            assert(s.take(bl)[16] == s[16]);
            assert(s.take(bl)[17] == s[17]);
            assert(s.take(bl)[18] == s[18]);
            assert(s.take(bl)[19] == s[19]);
            assert(s.take(bl)[20] == s[20]);
            assert(s.take(bl)[21] == s[21]);
            assert(s.take(bl)[22] == s[22]);
            assert(s.take(bl)[23] == s[23]);
            assert(s.take(bl)[24] == s[24]);
        }
        assert(forall|i: int|
            0 <= i < bs.len() ==> header_of(#[trigger] bs[i]).block_length == bs[i].len()) by {
            assert(forall|i: int| 1 <= i < bs.len() ==> bs[i] == rest[i - 1]);
        }
    }
}

} // verus!
