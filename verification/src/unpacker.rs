//! Expansion of a packed 10-bit little-endian sample stream into one
//! 16-bit sample per logical pixel.
//!
//! Bytes are consumed strictly in order into a shift register; whenever the
//! register holds ten or more bits, the ten most significant are emitted as
//! one sample, serialized as a little-endian 16-bit value. At end of input,
//! a partly filled register is left-padded with zero bits to form one final
//! best-effort sample.

use vstd::prelude::*;
use vstd::arithmetic::div_mod::lemma_fundamental_div_mod_converse;

verus! {

/// `2^k`.
pub open spec fn pot(k: nat) -> int
    decreases k,
{
    if k == 0 {
        1
    } else {
        2 * pot((k - 1) as nat)
    }
}

/// The powers of two the unpacker's register can hold.
pub proof fn lemma_pot_values()
    ensures
        pot(0) == 1,
        pot(1) == 2,
        pot(2) == 4,
        pot(3) == 8,
        pot(4) == 16,
        pot(5) == 32,
        pot(6) == 64,
        pot(7) == 128,
        pot(8) == 256,
        pot(9) == 512,
        pot(10) == 1024,
{
    assert(pot(0) == 1);
    assert(pot(1) == 2);
    assert(pot(2) == 4);
    assert(pot(3) == 8);
    assert(pot(4) == 16);
    assert(pot(5) == 32);
    assert(pot(6) == 64);
    assert(pot(7) == 128);
    assert(pot(8) == 256);
    assert(pot(9) == 512);
    assert(pot(10) == 1024);
}

/// The samples serialized in an output buffer: each consecutive byte pair,
/// read little-endian.
pub open spec fn le_samples(out: Seq<u8>) -> Seq<int> {
    Seq::new((out.len() / 2) as nat, |i: int| out[2 * i] + 256 * out[2 * i + 1])
}

/// The mathematical state of the unpacker: samples emitted so far, the
/// bits still held, and how many they are.
pub struct Machine {
    pub out: Seq<int>,
    pub work: int,
    pub idx: nat,
}

impl Machine {
    /// Between pushes the register holds an even number of bits, at most
    /// eight, and no stray higher bits.
    pub open spec fn wf(self) -> bool {
        &&& (self.idx == 0 || self.idx == 2 || self.idx == 4 || self.idx == 6 || self.idx == 8)
        &&& 0 <= self.work < pot(self.idx)
    }
}

/// One byte consumed: the register gains eight bits; if it then holds ten
/// or more, the top ten leave as a sample.
pub open spec fn step(m: Machine, b: u8) -> Machine {
    let t = m.work * 256 + b;
    if m.idx < 2 {
        Machine { out: m.out, work: t, idx: (m.idx + 8) as nat }
    } else {
        let sh = (m.idx - 2) as nat;
        Machine { out: m.out.push(t / pot(sh)), work: t % pot(sh), idx: sh }
    }
}

/// The state after consuming every byte of `bytes` in order.
pub open spec fn run(m: Machine, bytes: Seq<u8>) -> Machine
    decreases bytes.len(),
{
    if bytes.len() == 0 {
        m
    } else {
        run(step(m, bytes.first()), bytes.drop_first())
    }
}

/// End of input: left-pad the remaining bits to ten and emit one final
/// sample, if any bits remain.
pub open spec fn fin(m: Machine) -> Machine {
    if m.idx == 0 {
        m
    } else {
        Machine { out: m.out.push(m.work * pot((10 - m.idx) as nat)), ..m }
    }
}

/// The machine started empty.
pub open spec fn empty_machine() -> Machine {
    Machine { out: Seq::empty(), work: 0, idx: 0 }
}

/// The samples unpacked from a whole byte stream.
pub open spec fn unpack_spec(bytes: Seq<u8>) -> Seq<int> {
    fin(run(empty_machine(), bytes)).out
}

/// Register-based expander of a packed 10-bit sample stream. `out` holds
/// each emitted sample as a little-endian byte pair.
#[derive(Debug)]
pub struct Unpacker {
    pub out: Vec<u8>,
    pub work: u16,
    pub work_idx: usize,
}

/// The mathematical state an unpacker value is in.
pub open spec fn machine_of(u: Unpacker) -> Machine {
    Machine { out: le_samples(u.out@), work: u.work as int, idx: u.work_idx as nat }
}

impl Unpacker {
    /// The output length is even (samples are byte pairs) and the register
    /// state is well formed.
    pub open spec fn wf(&self) -> bool {
        &&& self.out@.len() % 2 == 0
        &&& machine_of(*self).wf()
    }

    /// A fresh unpacker with an empty register and no output.
    pub fn new() -> (u: Unpacker)
        ensures
            u.wf(),
            machine_of(u) == empty_machine(),
            u.out@ == Seq::<u8>::empty(),
    {
        let u = Unpacker { out: Vec::new(), work: 0, work_idx: 0 };
        proof {
            assert(le_samples(u.out@) =~= Seq::<int>::empty());
        }
        u
    }

    /// Consumes one input byte, emitting one sample as a little-endian
    /// byte pair whenever the register reaches ten bits.
    pub fn push(&mut self, byte: u8)
        requires
            old(self).wf(),
        ensures
            final(self).wf(),
            machine_of(*final(self)) == step(machine_of(*old(self)), byte),
            old(self).work_idx < 2 ==> final(self).out@ == old(self).out@,
            old(self).work_idx >= 2 ==> {
                let s = step(machine_of(*old(self)), byte).out.last();
                final(self).out@ == old(self).out@.push((s % 256) as u8).push((s / 256) as u8)
            },
    {
        proof {
            lemma_pot_values();
        }
        let ghost o = *old(self);
        let ghost ow = o.work;
        let ghost t = o.work * 256 + byte;
        self.work = (self.work << 8) | (byte as u16);
        self.work_idx = self.work_idx + 8;
        let ghost w1 = self.work;
        proof {
            assert(w1 == ow * 256 + byte) by (bit_vector)
                requires
                    ow < 256,
                    w1 == (ow << 8) | (byte as u16),
            ;
        }
        if self.work_idx >= 10 {
            let to_front = self.work_idx - 10;
            let fronted = self.work >> to_front;
            let masked = fronted & 0x3FF;
            let fixwork = fronted << to_front;
            self.out.push((masked & 0xFF) as u8);
            self.out.push((masked >> 8) as u8);
            self.work_idx = self.work_idx - 10;
            self.work = self.work ^ fixwork;
            proof {
                let sh = (o.work_idx - 2) as nat;
                assert(to_front == sh);
                if o.work_idx == 2 {
                    assert((((w1 >> 0) & 0x3FF) as int) == w1 as int && ((w1 ^ ((w1 >> 0) << 0))
                        as int) == 0 && ((w1 >> 0) & 0x3FF) < 1024) by (bit_vector)
                        requires
                            w1 < 1024,
                    ;
                } else if o.work_idx == 4 {
                    assert((((w1 >> 2) & 0x3FF) as int) == w1 as int / 4 && ((w1 ^ ((w1 >> 2) << 2))
                        as int) == w1 as int % 4 && ((w1 >> 2) & 0x3FF) < 1024) by (bit_vector)
                        requires
                            w1 < 4096,
                    ;
                } else if o.work_idx == 6 {
                    assert((((w1 >> 4) & 0x3FF) as int) == w1 as int / 16 && ((w1 ^ ((w1 >> 4) << 4))
                        as int) == w1 as int % 16 && ((w1 >> 4) & 0x3FF) < 1024) by (bit_vector)
                        requires
                            w1 < 16384,
                    ;
                } else {
                    assert(o.work_idx == 8);
                    assert((((w1 >> 6) & 0x3FF) as int) == w1 as int / 64 && ((w1 ^ ((w1 >> 6) << 6))
                        as int) == w1 as int % 64 && ((w1 >> 6) & 0x3FF) < 1024) by (bit_vector);
                }
                assert(masked as int == t / pot(sh));
                assert(self.work as int == t % pot(sh));
                let s = t / pot(sh);
                assert(((masked & 0xFF) as u8) as int == masked as int % 256 && ((masked >> 8) as u8)
                    as int == masked as int / 256) by (bit_vector);
                assert(s == masked as int);
                lemma_le_samples_push(o.out@, (masked & 0xFF) as u8, (masked >> 8) as u8);
                assert(machine_of(*self) =~= step(machine_of(o), byte));
            }
        } else {
            proof {
                assert(le_samples(self.out@) == le_samples(o.out@));
                assert(machine_of(*self) =~= step(machine_of(o), byte));
            }
        }
    }

    /// Flushes a partly filled register: the remaining bits, left-padded
    /// with zeros to ten, leave as one final sample. The register is not
    /// cleared.
    pub fn finish(&mut self)
        requires
            old(self).wf(),
        ensures
            final(self).wf(),
            machine_of(*final(self)).out == fin(machine_of(*old(self))).out,
            final(self).work == old(self).work,
            final(self).work_idx == old(self).work_idx,
            old(self).work_idx == 0 ==> final(self).out@ == old(self).out@,
            old(self).work_idx > 0 ==> {
                let s = old(self).work * pot((10 - old(self).work_idx) as nat);
                final(self).out@ == old(self).out@.push((s % 256) as u8).push((s / 256) as u8)
            },
    {
        proof {
            lemma_pot_values();
        }
        let ghost o = *old(self);
        let ghost ow = o.work;
        if self.work_idx > 0 {
            let remain = 10 - self.work_idx;
            let outv = self.work << remain;
            proof {
                let sh = (10 - o.work_idx) as nat;
                if o.work_idx == 2 {
                    assert(outv as int == ow * 256 && outv < 1024) by (bit_vector)
                        requires
                            ow < 4,
                            outv == ow << 8,
                    ;
                } else if o.work_idx == 4 {
                    assert(outv as int == ow * 64 && outv < 1024) by (bit_vector)
                        requires
                            ow < 16,
                            outv == ow << 6,
                    ;
                } else if o.work_idx == 6 {
                    assert(outv as int == ow * 16 && outv < 1024) by (bit_vector)
                        requires
                            ow < 64,
                            outv == ow << 4,
                    ;
                } else {
                    assert(o.work_idx == 8);
                    assert(outv as int == ow * 4 && outv < 1024) by (bit_vector)
                        requires
                            ow < 256,
                            outv == ow << 2,
                    ;
                }
                assert(outv as int == o.work * pot(sh));
            }
            self.out.push((outv & 0xFF) as u8);
            self.out.push((outv >> 8) as u8);
            proof {
                let s = o.work * pot((10 - o.work_idx) as nat);
                assert(((outv & 0xFF) as u8) as int == outv as int % 256 && ((outv >> 8) as u8)
                    as int == outv as int / 256) by (bit_vector);
                assert(s == outv as int);
                lemma_le_samples_push(o.out@, (outv & 0xFF) as u8, (outv >> 8) as u8);
            }
        }
    }
}

/// Appending one little-endian byte pair appends one sample.
proof fn lemma_le_samples_push(out: Seq<u8>, lo: u8, hi: u8)
    requires
        out.len() % 2 == 0,
    ensures
        le_samples(out.push(lo).push(hi)) == le_samples(out).push(lo + 256 * hi),
{
    assert(le_samples(out.push(lo).push(hi)) =~= le_samples(out).push(lo + 256 * hi));
}

/// Unpacks a whole packed byte stream: every byte is pushed in order and
/// the register is flushed.
pub fn unpack_bytes(data: &[u8]) -> (out: Vec<u8>)
    ensures
        out@.len() % 2 == 0,
        le_samples(out@) == unpack_spec(data@),
{
    let mut up = Unpacker::new();
    let mut i: usize = 0;
    proof {
        assert(data@.take(0) =~= Seq::<u8>::empty());
    }
    while i < data.len()
        invariant
            i <= data@.len(),
            up.wf(),
            machine_of(up) == run(empty_machine(), data@.take(i as int)),
        decreases data@.len() - i,
    {
        let ghost pre = data@.take(i as int);
        up.push(data[i]);
        i = i + 1;
        proof {
            assert(data@.take(i as int) =~= pre.push(data@[i - 1]));
            lemma_run_snoc(empty_machine(), pre, data@[i - 1]);
        }
    }
    proof {
        assert(data@.take(data@.len() as int) =~= data@);
    }
    up.finish();
    up.out
}

/// Consuming one more byte after a run is one more step.
proof fn lemma_run_snoc(m: Machine, bytes: Seq<u8>, b: u8)
    ensures
        run(m, bytes.push(b)) == step(run(m, bytes), b),
    decreases bytes.len(),
{
    if bytes.len() == 0 {
        assert(bytes.push(b).first() == b);
        assert(bytes.push(b).drop_first() =~= Seq::<u8>::empty());
        assert(run(m, bytes.push(b)) == run(step(m, b), Seq::<u8>::empty()));
    } else {
        assert(bytes.push(b).first() == bytes.first());
        assert(bytes.push(b).drop_first() =~= bytes.drop_first().push(b));
        lemma_run_snoc(step(m, bytes.first()), bytes.drop_first(), b);
    }
}


/// Every value is representable in ten bits.
pub open spec fn all_ten_bit(vals: Seq<int>) -> bool {
    forall|i: int| 0 <= i < vals.len() ==> 0 <= #[trigger] vals[i] < 1024
}

/// Four 10-bit samples packed MSB-first into five bytes.
pub open spec fn pack_group(s0: int, s1: int, s2: int, s3: int) -> Seq<u8> {
    seq![
        (s0 / 4) as u8,
        ((s0 % 4) * 64 + s1 / 16) as u8,
        ((s1 % 16) * 16 + s2 / 64) as u8,
        ((s2 % 64) * 4 + s3 / 256) as u8,
        (s3 % 256) as u8,
    ]
}

/// One to three trailing 10-bit samples packed MSB-first, the last byte
/// zero-padded to a byte boundary.
pub open spec fn pack_tail(vals: Seq<int>) -> Seq<u8> {
    if vals.len() == 0 {
        Seq::empty()
    } else if vals.len() == 1 {
        seq![(vals[0] / 4) as u8, ((vals[0] % 4) * 64) as u8]
    } else if vals.len() == 2 {
        seq![
            (vals[0] / 4) as u8,
            ((vals[0] % 4) * 64 + vals[1] / 16) as u8,
            ((vals[1] % 16) * 16) as u8,
        ]
    } else {
        seq![
            (vals[0] / 4) as u8,
            ((vals[0] % 4) * 64 + vals[1] / 16) as u8,
            ((vals[1] % 16) * 16 + vals[2] / 64) as u8,
            ((vals[2] % 64) * 4) as u8,
        ]
    }
}

/// A sample sequence packed per the five-bytes-per-four-samples scheme:
/// full groups of four, then a zero-padded tail.
pub open spec fn pack(vals: Seq<int>) -> Seq<u8>
    decreases vals.len(),
{
    if vals.len() >= 4 {
        pack_group(vals[0], vals[1], vals[2], vals[3]).add(pack(vals.skip(4)))
    } else {
        pack_tail(vals)
    }
}

/// Running over concatenated input is running over each part in turn.
proof fn lemma_run_append(m: Machine, a: Seq<u8>, b: Seq<u8>)
    ensures
        run(m, a.add(b)) == run(run(m, a), b),
    decreases a.len(),
{
    if a.len() == 0 {
        assert(a.add(b) =~= b);
    } else {
        assert(a.add(b).first() == a.first());
        assert(a.add(b).drop_first() =~= a.drop_first().add(b));
        lemma_run_append(step(m, a.first()), a.drop_first(), b);
    }
}

/// Consuming one full five-byte group from an empty register emits its
/// four samples exactly and empties the register again.
proof fn lemma_run_group(m: Machine, s0: int, s1: int, s2: int, s3: int)
    requires
        m.idx == 0,
        m.work == 0,
        0 <= s0 < 1024,
        0 <= s1 < 1024,
        0 <= s2 < 1024,
        0 <= s3 < 1024,
    ensures
        run(m, pack_group(s0, s1, s2, s3)) == (Machine {
            out: m.out + seq![s0, s1, s2, s3],
            work: 0,
            idx: 0,
        }),
{
    lemma_pot_values();
    let b0 = (s0 / 4) as u8;
    let b1 = ((s0 % 4) * 64 + s1 / 16) as u8;
    let b2 = ((s1 % 16) * 16 + s2 / 64) as u8;
    let b3 = ((s2 % 64) * 4 + s3 / 256) as u8;
    let b4 = (s3 % 256) as u8;
    let bs = pack_group(s0, s1, s2, s3);
    assert(b0 as int == s0 / 4);
    assert(b1 as int == (s0 % 4) * 64 + s1 / 16);
    assert(b2 as int == (s1 % 16) * 16 + s2 / 64);
    assert(b3 as int == (s2 % 64) * 4 + s3 / 256);
    assert(b4 as int == s3 % 256);
    let m1 = step(m, b0);
    let m2 = step(m1, b1);
    let m3 = step(m2, b2);
    let m4 = step(m3, b3);
    let m5 = step(m4, b4);
    assert(bs.first() == b0);
    assert(bs.drop_first() =~= seq![b1, b2, b3, b4]);
    assert(seq![b1, b2, b3, b4].drop_first() =~= seq![b2, b3, b4]);
    assert(seq![b2, b3, b4].drop_first() =~= seq![b3, b4]);
    assert(seq![b3, b4].drop_first() =~= seq![b4]);
    assert(seq![b4].drop_first() =~= Seq::<u8>::empty());
    assert(run(m, bs) == run(m1, seq![b1, b2, b3, b4]));
    assert(run(m1, seq![b1, b2, b3, b4]) == run(m2, seq![b2, b3, b4]));
    assert(run(m2, seq![b2, b3, b4]) == run(m3, seq![b3, b4]));
    assert(run(m3, seq![b3, b4]) == run(m4, seq![b4]));
    assert(run(m4, seq![b4]) == run(m5, Seq::<u8>::empty()));
    assert(run(m, bs) == m5);
    assert(m1 == Machine { out: m.out, work: s0 / 4, idx: 8 });
    let t2 = (s0 / 4) * 256 + b1;
    assert(t2 == 64 * s0 + s1 / 16);
    lemma_fundamental_div_mod_converse(t2, 64, s0, s1 / 16);
    assert(m2 == Machine { out: m.out.push(s0), work: s1 / 16, idx: 6 });
    let t3 = (s1 / 16) * 256 + b2;
    assert(t3 == 16 * s1 + s2 / 64);
    lemma_fundamental_div_mod_converse(t3, 16, s1, s2 / 64);
    assert(m3 == Machine { out: m.out.push(s0).push(s1), work: s2 / 64, idx: 4 });
    let t4 = (s2 / 64) * 256 + b3;
    assert(t4 == 4 * s2 + s3 / 256);
    lemma_fundamental_div_mod_converse(t4, 4, s2, s3 / 256);
    assert(m4 == Machine { out: m.out.push(s0).push(s1).push(s2), work: s3 / 256, idx: 2 });
    let t5 = (s3 / 256) * 256 + b4;
    assert(t5 == s3);
    lemma_fundamental_div_mod_converse(t5, 1, s3, 0);
    assert(m5 == Machine {
        out: m.out.push(s0).push(s1).push(s2).push(s3),
        work: 0,
        idx: 0,
    });
    assert(m.out.push(s0).push(s1).push(s2).push(s3) =~= m.out + seq![s0, s1, s2, s3]);
}

/// Consuming a zero-padded tail from an empty register emits the trailing
/// samples and leaves only zero bits in the register.
proof fn lemma_run_tail(m: Machine, vals: Seq<int>)
    requires
        m.idx == 0,
        m.work == 0,
        1 <= vals.len() < 4,
        all_ten_bit(vals),
    ensures
        run(m, pack_tail(vals)) == (Machine {
            out: m.out + vals,
            work: 0,
            idx: (8 - 2 * vals.len()) as nat,
        }),
{
    lemma_pot_values();
    let s0 = vals[0];
    let b0 = (s0 / 4) as u8;
    assert(b0 as int == s0 / 4);
    let m1 = step(m, b0);
    assert(m1 == Machine { out: m.out, work: s0 / 4, idx: 8 });
    if vals.len() == 1 {
        let b1 = ((s0 % 4) * 64) as u8;
        assert(b1 as int == (s0 % 4) * 64);
        let bs = pack_tail(vals);
        assert(bs.first() == b0);
        assert(bs.drop_first() =~= seq![b1]);
        assert(seq![b1].drop_first() =~= Seq::<u8>::empty());
        let t2 = (s0 / 4) * 256 + b1;
        assert(t2 == 64 * s0);
        lemma_fundamental_div_mod_converse(t2, 64, s0, 0);
        let m2 = step(m1, b1);
        assert(run(m, bs) == run(m1, seq![b1]));
        assert(run(m1, seq![b1]) == run(m2, Seq::<u8>::empty()));
        assert(run(m, bs) == m2);
        assert(m2 == Machine { out: m.out.push(s0), work: 0, idx: 6 });
        assert(m.out.push(s0) =~= m.out + vals);
    } else {
        let s1 = vals[1];
        let b1 = ((s0 % 4) * 64 + s1 / 16) as u8;
        assert(b1 as int == (s0 % 4) * 64 + s1 / 16);
        let t2 = (s0 / 4) * 256 + b1;
        assert(t2 == 64 * s0 + s1 / 16);
        lemma_fundamental_div_mod_converse(t2, 64, s0, s1 / 16);
        let m2 = step(m1, b1);
        assert(m2 == Machine { out: m.out.push(s0), work: s1 / 16, idx: 6 });
        if vals.len() == 2 {
            let b2 = ((s1 % 16) * 16) as u8;
            assert(b2 as int == (s1 % 16) * 16);
            let bs = pack_tail(vals);
            assert(bs.first() == b0);
            assert(bs.drop_first() =~= seq![b1, b2]);
            assert(seq![b1, b2].drop_first() =~= seq![b2]);
            assert(seq![b2].drop_first() =~= Seq::<u8>::empty());
            let t3 = (s1 / 16) * 256 + b2;
            assert(t3 == 16 * s1);
            lemma_fundamental_div_mod_converse(t3, 16, s1, 0);
            let m3 = step(m2, b2);
            assert(run(m, bs) == run(m1, seq![b1, b2]));
            assert(run(m1, seq![b1, b2]) == run(m2, seq![b2]));
            assert(run(m2, seq![b2]) == run(m3, Seq::<u8>::empty()));
            assert(run(m, bs) == m3);
            assert(m3 == Machine { out: m.out.push(s0).push(s1), work: 0, idx: 4 });
            assert(m.out.push(s0).push(s1) =~= m.out + vals);
        } else {
            let s2 = vals[2];
            let b2 = ((s1 % 16) * 16 + s2 / 64) as u8;
            assert(b2 as int == (s1 % 16) * 16 + s2 / 64);
            let b3 = ((s2 % 64) * 4) as u8;
            assert(b3 as int == (s2 % 64) * 4);
            let bs = pack_tail(vals);
            assert(bs.first() == b0);
            assert(bs.drop_first() =~= seq![b1, b2, b3]);
            assert(seq![b1, b2, b3].drop_first() =~= seq![b2, b3]);
            assert(seq![b2, b3].drop_first() =~= seq![b3]);
            assert(seq![b3].drop_first() =~= Seq::<u8>::empty());
            let t3 = (s1 / 16) * 256 + b2;
            assert(t3 == 16 * s1 + s2 / 64);
            lemma_fundamental_div_mod_converse(t3, 16, s1, s2 / 64);
            let m3 = step(m2, b2);
            assert(m3 == Machine { out: m.out.push(s0).push(s1), work: s2 / 64, idx: 4 });
            let t4 = (s2 / 64) * 256 + b3;
            assert(t4 == 4 * s2);
            lemma_fundamental_div_mod_converse(t4, 4, s2, 0);
            let m4 = step(m3, b3);
            assert(run(m, bs) == run(m1, seq![b1, b2, b3]));
            assert(run(m1, seq![b1, b2, b3]) == run(m2, seq![b2, b3]));
            assert(run(m2, seq![b2, b3]) == run(m3, seq![b3]));
            assert(run(m3, seq![b3]) == run(m4, Seq::<u8>::empty()));
            assert(run(m, bs) == m4);
            assert(m4 == Machine { out: m.out.push(s0).push(s1).push(s2), work: 0, idx: 2 });
            assert(m.out.push(s0).push(s1).push(s2) =~= m.out + vals);
        }
    }
}

/// Running a packed sample sequence from an empty register emits exactly
/// those samples; the register ends empty, holding only the padding bits.
proof fn lemma_run_pack(m: Machine, vals: Seq<int>)
    requires
        m.idx == 0,
        m.work == 0,
        all_ten_bit(vals),
    ensures
        run(m, pack(vals)) == (Machine {
            out: m.out + vals,
            work: 0,
            idx: (2 * ((4 - vals.len() % 4) % 4)) as nat,
        }),
    decreases vals.len(),
{
    if vals.len() >= 4 {
        let g = pack_group(vals[0], vals[1], vals[2], vals[3]);
        lemma_run_append(m, g, pack(vals.skip(4)));
        lemma_run_group(m, vals[0], vals[1], vals[2], vals[3]);
        let m4 = Machine { out: m.out + seq![vals[0], vals[1], vals[2], vals[3]], work: 0, idx: 0 };
        assert(all_ten_bit(vals.skip(4))) by {
            assert(forall|i: int|
                0 <= i < vals.skip(4).len() ==> #[trigger] vals.skip(4)[i] == vals[i + 4]);
        }
        lemma_run_pack(m4, vals.skip(4));
        assert(vals.skip(4).len() % 4 == vals.len() % 4);
        assert(m4.out + vals.skip(4) =~= m.out + vals);
    } else if vals.len() == 0 {
        assert(pack(vals) =~= Seq::<u8>::empty());
        assert(m.out + vals =~= m.out);
    } else {
        lemma_run_tail(m, vals);
        assert(8 - 2 * vals.len() == 2 * ((4 - vals.len() % 4) % 4));
    }
}

/// Round trip: unpacking a packed 10-bit sample sequence recovers exactly
/// those samples; when their count is not a multiple of four, the padding
/// bits of the final partial byte group form one extra all-zero sample.
pub proof fn lemma_unpack_pack(vals: Seq<int>)
    requires
        all_ten_bit(vals),
    ensures
        vals.len() % 4 == 0 ==> unpack_spec(pack(vals)) == vals,
        vals.len() % 4 != 0 ==> unpack_spec(pack(vals)) == vals.push(0),
{
    lemma_run_pack(empty_machine(), vals);
    let end = run(empty_machine(), pack(vals));
    assert(end.out =~= vals);
    if vals.len() % 4 != 0 {
        assert(end.idx > 0);
        assert(fin(end).out == vals.push(0 * pot((10 - end.idx) as nat)));
    }
}


/// Each step preserves well-formedness of the machine state.
pub proof fn lemma_step_wf(m: Machine, b: u8)
    requires
        m.wf(),
    ensures
        step(m, b).wf(),
{
    lemma_pot_values();
    let t = m.work * 256 + b;
    if m.idx < 2 {
        assert(t < pot(8));
    } else {
        let sh = (m.idx - 2) as nat;
        assert(pot(sh) > 0);
    }
}

/// A run from a well-formed state ends well formed.
pub proof fn lemma_run_wf(m: Machine, bytes: Seq<u8>)
    requires
        m.wf(),
    ensures
        run(m, bytes).wf(),
    decreases bytes.len(),
{
    if bytes.len() > 0 {
        lemma_step_wf(m, bytes.first());
        lemma_run_wf(step(m, bytes.first()), bytes.drop_first());
    }
}

/// Bit conservation: every consumed byte adds eight bits, and every
/// emitted sample removes ten.
pub proof fn lemma_run_bits(m: Machine, bytes: Seq<u8>)
    ensures
        10 * run(m, bytes).out.len() + run(m, bytes).idx == 10 * m.out.len() + m.idx + 8
            * bytes.len(),
    decreases bytes.len(),
{
    if bytes.len() > 0 {
        lemma_run_bits(step(m, bytes.first()), bytes.drop_first());
    }
}

/// The unpacked stream never holds more samples than there were input
/// bytes.
pub proof fn lemma_unpack_len_bound(bytes: Seq<u8>)
    ensures
        unpack_spec(bytes).len() <= bytes.len(),
{
    let end = run(empty_machine(), bytes);
    lemma_run_wf(empty_machine(), bytes);
    lemma_run_bits(empty_machine(), bytes);
    assert(10 * end.out.len() + end.idx == 8 * bytes.len());
    if end.idx == 0 {
        assert(unpack_spec(bytes) == end.out);
    } else {
        assert(end.idx >= 2);
        assert(unpack_spec(bytes).len() == end.out.len() + 1);
    }
}

} // verus!
