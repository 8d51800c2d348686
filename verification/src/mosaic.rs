//! Turning a raw payload into a single full-resolution mosaic buffer:
//! packed 10-bit streams are expanded and quantized; tiled payloads are
//! decoded plane by plane and the four quadrant planes interleaved.

use vstd::prelude::*;
use vstd::arithmetic::div_mod::{lemma_fundamental_div_mod, lemma_fundamental_div_mod_converse};
use crate::image::RawImage;
use crate::payload::{RawData, RawDataModel};
use crate::unpacker::{le_samples, unpack_bytes, unpack_spec};
use crate::unpacker::lemma_unpack_len_bound;

verus! {

/// The grayscale plane zune-jpeg's decoder yields for a JPEG byte stream,
/// or nothing when the stream does not decode. The decoder is run with its
/// portable scalar code paths, so the result depends on the bytes alone.
pub uninterp spec fn jpeg_gray_plane(bytes: Seq<u8>) -> Option<Seq<u8>>;

/// Relies on zune_jpeg::JpegDecoder::decode, with the output colorspace
/// forced to Luma and the vectorized code paths disabled: the decoded
/// plane is a function of the JPEG bytes alone.
#[verifier::external_body]
fn decode_gray_jpeg(bytes: &[u8]) -> (r: Option<Vec<u8>>)
    ensures
        match r {
            Some(v) => jpeg_gray_plane(bytes@) == Some(v@),
            None => jpeg_gray_plane(bytes@) == None::<Seq<u8>>,
        },
{
    let options = zune_jpeg::zune_core::options::DecoderOptions::default()
        .jpeg_set_out_colorspace(zune_jpeg::zune_core::colorspace::ColorSpace::Luma)
        .set_use_unsafe(false);
    let cursor = zune_jpeg::zune_core::bytestream::ZCursor::new(bytes);
    let mut decoder = zune_jpeg::JpegDecoder::new_with_options(cursor, options);
    match decoder.decode() {
        Ok(v) => Some(v),
        Err(_) => None,
    }
}

/// One 10-bit sample quantized to a byte: black level 42 subtracted
/// (clamped at zero), then the two lowest bits dropped.
pub open spec fn quant10(s: int) -> u8 {
    if s < 42 {
        0
    } else {
        (((s - 42) / 4) % 256) as u8
    }
}

/// A full mosaic interleaved from four half-resolution quadrant planes:
/// plane `q` holds the pixels whose row parity is `q / 2` and column
/// parity is `q % 2`.
pub open spec fn interleave4(
    p0: Seq<u8>,
    p1: Seq<u8>,
    p2: Seq<u8>,
    p3: Seq<u8>,
    w: int,
    h: int,
) -> Seq<u8> {
    Seq::new(
        (w * h) as nat,
        |i: int|
            {
                let x = i % w;
                let y = i / w;
                let pi = (y / 2) * (w / 2) + x / 2;
                if y % 2 == 0 && x % 2 == 0 {
                    p0[pi]
                } else if y % 2 == 0 && x % 2 == 1 {
                    p1[pi]
                } else if y % 2 == 1 && x % 2 == 0 {
                    p2[pi]
                } else {
                    p3[pi]
                }
            },
    )
}

/// The mosaic a payload denotes for a `w` by `h` image, or nothing when a
/// plane does not decode, a decoded plane has the wrong size, the packed
/// stream is too short, or the dimensions do not fit the tiling.
pub open spec fn bayer_spec(d: RawDataModel, w: int, h: int) -> Option<Seq<u8>> {
    match d {
        RawDataModel::Packed10bpp { data } => {
            let samples = unpack_spec(data);
            if samples.len() >= w * h && w * h >= 0 {
                Some(samples.take(w * h).map_values(|s: int| quant10(s)))
            } else {
                None
            }
        },
        RawDataModel::BayerJpeg { header, format, jpeg0, jpeg1, jpeg2, jpeg3 } => {
            if format == 1 {
                if 0 <= w * h <= usize::MAX {
                    match jpeg_gray_plane(jpeg0) {
                        Some(p) => if p.len() == w * h {
                            Some(p)
                        } else {
                            None
                        },
                        None => None,
                    }
                } else {
                    None
                }
            } else if format == 0 {
                if 0 < w && 0 < h && w % 2 == 0 && h % 2 == 0 && w * h <= usize::MAX {
                    match (
                        jpeg_gray_plane(jpeg0),
                        jpeg_gray_plane(jpeg1),
                        jpeg_gray_plane(jpeg2),
                        jpeg_gray_plane(jpeg3),
                    ) {
                        (Some(p0), Some(p1), Some(p2), Some(p3)) => {
                            if p0.len() == (w / 2) * (h / 2) && p1.len() == (w / 2) * (h / 2)
                                && p2.len() == (w / 2) * (h / 2) && p3.len() == (w / 2) * (h / 2) {
                                Some(interleave4(p0, p1, p2, p3, w, h))
                            } else {
                                None
                            }
                        },
                        _ => None,
                    }
                } else {
                    None
                }
            } else {
                None
            }
        },
    }
}

/// Places one decoded quadrant plane into the mosaic: plane pixel
/// `(x, y)` lands at mosaic pixel `(2x + q % 2, 2y + q / 2)`; every other
/// mosaic cell is left as it was.
pub fn place_quadrant(
    mosaic: &mut Vec<u8>,
    plane: &[u8],
    width: usize,
    height: usize,
    q: usize,
)
    requires
        q < 4,
        width % 2 == 0,
        height % 2 == 0,
        old(mosaic)@.len() == width * height,
        plane@.len() == (width / 2) * (height / 2),
    ensures
        final(mosaic)@.len() == old(mosaic)@.len(),
        forall|i: int|
            0 <= i < width * height ==> final(mosaic)@[i] == ({
                if (i / (width as int)) % 2 == q / 2 && (i % (width as int)) % 2 == q % 2 {
                    plane@[((i / (width as int)) / 2) * ((width / 2) as int) + (i % (width as int))
                        / 2]
                } else {
                    old(mosaic)@[i]
                }
            }),
{
    let ww = width / 2;
    let hh = height / 2;
    let w = width;
    let qx = q % 2;
    let qy = q / 2;
    let ml = mosaic.len();
    proof {
        assert(width * height == ml);
    }
    let mut idx: usize = 0;
    proof {
        assert(ww * hh >= 0) by (nonlinear_arith)
            requires
                ww >= 0,
                hh >= 0,
        ;
    }
    while idx < plane.len()
        invariant
            q < 4,
            qx == q % 2,
            qy == q / 2,
            w == width,
            ww == width / 2,
            hh == height / 2,
            width % 2 == 0,
            height % 2 == 0,
            mosaic@.len() == width * height,
            width * height <= usize::MAX,
            plane@.len() == ww * hh,
            idx <= plane@.len(),
            forall|i: int|
                0 <= i < width * height ==> mosaic@[i] == ({
                    if (i / (width as int)) % 2 == q / 2 && (i % (width as int)) % 2 == q % 2 && (
                    (i / (width as int)) / 2) * (ww as int) + (i % (width as int)) / 2 < idx {
                        plane@[((i / (width as int)) / 2) * (ww as int) + (i % (width as int)) / 2]
                    } else {
                        old(mosaic)@[i]
                    }
                }),
        decreases plane@.len() - idx,
    {
        proof {
            assert(ww * hh > 0);
            assert(ww > 0);
        }
        let in_x = idx % ww;
        let in_y = idx / ww;
        proof {
            lemma_fundamental_div_mod(idx as int, ww as int);
            assert(idx == (ww as int) * in_y + in_x);
            assert(in_y < hh) by (nonlinear_arith)
                requires
                    ww > 0,
                    in_y == idx / ww,
                    idx < ww * hh,
                    idx == (ww as int) * in_y + in_x,
                    0 <= in_x < ww,
            ;
            assert((2 * in_y + qy) * w + (2 * in_x + qx) < w * (height as int)) by (nonlinear_arith)
                requires
                    w > 0,
                    0 <= qx < 2,
                    0 <= qy < 2,
                    0 <= in_x,
                    0 <= in_y,
                    2 * in_x + qx < w,
                    2 * in_y + qy < height,
            ;
        }
        let bayer_x = in_x * 2 + qx;
        let bayer_y = in_y * 2 + qy;
        let bayer_idx = bayer_y * w + bayer_x;
        let v = plane[idx];
        let ghost pre = mosaic@;
        mosaic[bayer_idx] = v;
        proof {
            let wi = width as int;
            let bi = bayer_idx as int;
            lemma_fundamental_div_mod_converse(bi, wi, bayer_y as int, bayer_x as int);
            assert(bi / wi == bayer_y && bi % wi == bayer_x);
            lemma_fundamental_div_mod_converse(bayer_y as int, 2, in_y as int, qy as int);
            lemma_fundamental_div_mod_converse(bayer_x as int, 2, in_x as int, qx as int);
            lemma_fundamental_div_mod_converse(idx as int, ww as int, in_y as int, in_x as int);
            assert(mosaic@ == pre.update(bi, v));
            assert forall|i: int| 0 <= i < width * height implies #[trigger] mosaic@[i] == ({
                if (i / wi) % 2 == q / 2 && (i % wi) % 2 == q % 2 && ((i / wi) / 2) * (ww as int) + (
                i % wi) / 2 < idx + 1 {
                    plane@[((i / wi) / 2) * (ww as int) + (i % wi) / 2]
                } else {
                    old(mosaic)@[i]
                }
            }) by {
                let y = i / wi;
                let x = i % wi;
                let pi = (y / 2) * (ww as int) + x / 2;
                if i == bi {
                    assert(y == bayer_y && x == bayer_x);
                    assert(y / 2 == in_y && y % 2 == qy) by {
                        lemma_fundamental_div_mod_converse(y, 2, in_y as int, qy as int);
                    }
                    assert(x / 2 == in_x && x % 2 == qx) by {
                        lemma_fundamental_div_mod_converse(x, 2, in_x as int, qx as int);
                    }
                    assert(pi == idx);
                    assert(mosaic@[i] == v);
                } else {
                    assert(mosaic@[i] == pre[i]);
                    if y % 2 == q / 2 && x % 2 == q % 2 && pi == idx {
                        assert(x / 2 < ww) by (nonlinear_arith)
                            requires
                                x < wi,
                                wi == 2 * (ww as int),
                                0 <= x,
                                ww > 0,
                        ;
                        assert(y / 2 == in_y && x / 2 == in_x) by (nonlinear_arith)
                            requires
                                (y / 2) * (ww as int) + x / 2 == idx,
                                in_y * (ww as int) + in_x == idx,
                                0 <= x / 2 < ww,
                                0 <= in_x < ww,
                                ww > 0,
                                y / 2 >= 0,
                                in_y >= 0,
                        ;
                        lemma_fundamental_div_mod(y, 2);
                        lemma_fundamental_div_mod(x, 2);
                        lemma_fundamental_div_mod(i, wi);
                        assert(i == wi * y + x);
                        assert(bi == wi * (bayer_y as int) + bayer_x);
                        assert(y == bayer_y && x == bayer_x) by (nonlinear_arith)
                            requires
                                y == 2 * (y / 2) + y % 2,
                                x == 2 * (x / 2) + x % 2,
                                y / 2 == in_y,
                                x / 2 == in_x,
                                y % 2 == qy,
                                x % 2 == qx,
                                bayer_y == 2 * in_y + qy,
                                bayer_x == 2 * in_x + qx,
                        ;
                        assert(i == bi);
                        assert(false);
                    }
                }
            }
        }
        idx = idx + 1;
    }
    proof {
        assert forall|i: int| 0 <= i < width * height implies #[trigger] mosaic@[i] == ({
            if (i / (width as int)) % 2 == q / 2 && (i % (width as int)) % 2 == q % 2 {
                plane@[((i / (width as int)) / 2) * ((width / 2) as int) + (i % (width as int))
                    / 2]
            } else {
                old(mosaic)@[i]
            }
        }) by {
            let wi = width as int;
            let y = i / wi;
            let x = i % wi;
            if y % 2 == q / 2 && x % 2 == q % 2 {
                assert(y < height) by (nonlinear_arith)
                    requires
                        wi > 0,
                        y == i / wi,
                        i < wi * (height as int),
                        i >= 0,
                ;
                assert(x / 2 < ww && y / 2 < hh) by (nonlinear_arith)
                    requires
                        0 <= x < wi,
                        0 <= y < height,
                        wi == 2 * (ww as int),
                        (height as int) == 2 * (hh as int),
                ;
                assert((y / 2) * (ww as int) + x / 2 < (ww as int) * (hh as int))
                    by (nonlinear_arith)
                    requires
                        0 <= x / 2 < ww,
                        0 <= y / 2 < hh,
                        ww >= 0,
                ;
            }
        }
    }
}

impl RawImage {
    /// Produces this image's full-resolution mosaic: a packed payload is
    /// expanded to 10-bit samples and quantized to bytes; a tiled payload
    /// is decoded externally, one combined plane used directly and four
    /// quadrant planes interleaved. Nothing is produced when a plane does
    /// not decode or a size disagrees with the image's dimensions.
    pub fn bayer(&self) -> (r: Option<Vec<u8>>)
        ensures
            match r {
                Some(v) => bayer_spec(self.data.model(), self.width as int, self.height as int)
                    == Some(v@),
                None => bayer_spec(self.data.model(), self.width as int, self.height as int)
                    is None,
            },
    {
        let w = self.width;
        let h = self.height;
        match &self.data {
            RawData::Packed10bpp { data } => {
                let total = match w.checked_mul(h) {
                    Some(t) => t,
                    None => {
                        let n_bytes = data.len();
                        proof {
                            lemma_unpack_len_bound(data@);
                            assert(unpack_spec(data@).len() <= n_bytes);
                        }
                        return None;
                    },
                };
                let samples = unpack_bytes(data.as_slice());
                let n_samples = samples.len();
                if n_samples / 2 < total {
                    return None;
                }
                let mut out: Vec<u8> = Vec::new();
                let mut i: usize = 0;
                proof {
                    assert(out@ =~= unpack_spec(data@).take(0).map_values(|s: int| quant10(s)));
                }
                while i < total
                    invariant
                        i <= total,
                        total == w * h,
                        n_samples == samples@.len(),
                        samples@.len() % 2 == 0,
                        le_samples(samples@) == unpack_spec(data@),
                        total <= samples@.len() / 2,
                        out@ == unpack_spec(data@).take(i as int).map_values(|s: int| quant10(s)),
                    decreases total - i,
                {
                    let lo = samples[2 * i];
                    let hi = samples[2 * i + 1];
                    let p: u16 = (lo as u16) | ((hi as u16) << 8);
                    proof {
                        assert(p == lo + 256 * hi) by (bit_vector)
                            requires
                                p == (lo as u16) | ((hi as u16) << 8),
                        ;
                        assert(p as int == unpack_spec(data@)[i as int]);
                    }
                    let qv: u16 = if p < 42 {
                        0
                    } else {
                        (p - 42) / 4
                    };
                    let b = (qv % 256) as u8;
                    proof {
                        assert(b == quant10(p as int));
                        assert(unpack_spec(data@).take(i + 1) =~= unpack_spec(data@).take(
                            i as int,
                        ).push(unpack_spec(data@)[i as int]));
                        assert(unpack_spec(data@).take(i + 1).map_values(|s: int| quant10(s))
                            =~= unpack_spec(data@).take(i as int).map_values(
                            |s: int| quant10(s),
                        ).push(quant10(p as int)));
                    }
                    out.push(b);
                    i = i + 1;
                }
                Some(out)
            },
            RawData::BayerJpeg { header: _, format, jpeg0, jpeg1, jpeg2, jpeg3 } => {
                if *format == 1 {
                    let total = match w.checked_mul(h) {
                        Some(t) => t,
                        None => {
                            return None;
                        },
                    };
                    match decode_gray_jpeg(jpeg0.as_slice()) {
                        Some(p) => {
                            if p.len() == total {
                                Some(p)
                            } else {
                                None
                            }
                        },
                        None => None,
                    }
                } else if *format == 0 {
                    if w == 0 || h == 0 || w % 2 != 0 || h % 2 != 0 {
                        return None;
                    }
                    let total = match w.checked_mul(h) {
                        Some(t) => t,
                        None => {
                            return None;
                        },
                    };
                    proof {
                        assert((w / 2) * (h / 2) <= (w as int) * (h as int)) by (nonlinear_arith)
                            requires
                                0 <= w / 2 <= w,
                                0 <= h / 2 <= h,
                        ;
                    }
                    let quarter = (w / 2) * (h / 2);
                    let p0 = match decode_gray_jpeg(jpeg0.as_slice()) {
                        Some(p) => p,
                        None => {
                            return None;
                        },
                    };
                    let p1 = match decode_gray_jpeg(jpeg1.as_slice()) {
                        Some(p) => p,
                        None => {
                            return None;
                        },
                    };
                    let p2 = match decode_gray_jpeg(jpeg2.as_slice()) {
                        Some(p) => p,
                        None => {
                            return None;
                        },
                    };
                    let p3 = match decode_gray_jpeg(jpeg3.as_slice()) {
                        Some(p) => p,
                        None => {
                            return None;
                        },
                    };
                    if p0.len() != quarter || p1.len() != quarter || p2.len() != quarter
                        || p3.len() != quarter {
                        return None;
                    }
                    let mut mosaic: Vec<u8> = vec![0u8; total];
                    place_quadrant(&mut mosaic, p0.as_slice(), w, h, 0);
                    place_quadrant(&mut mosaic, p1.as_slice(), w, h, 1);
                    place_quadrant(&mut mosaic, p2.as_slice(), w, h, 2);
                    place_quadrant(&mut mosaic, p3.as_slice(), w, h, 3);
                    proof {
                        assert(mosaic@ =~= interleave4(
                            p0@,
                            p1@,
                            p2@,
                            p3@,
                            w as int,
                            h as int,
                        ));
                    }
                    Some(mosaic)
                } else {
                    None
                }
            },
        }
    }
}

} // verus!
