//! The encoder's options, the S3 parity residual, and the layout of the
//! chunks that an encode writes.
//!
//! ```text
//! META  (creator & codec metadata)
//! PREV  (JPEG preview, when enabled)
//! VEC_  (S1: Canny edges + B-Spline fitting)
//! LAT_  (S2: saliency-weighted DCT)
//! RES_  (S3: parity residual, lossless profiles only)
//! OBJM  (semantic object manifest, when enabled)
//! ```

use vstd::prelude::*;

use crate::bytes::{
    i16s_bytes, le_i16, le_u32, lemma_i16_roundtrip, lemma_i16s_bytes, lemma_i16s_len, lemma_u32_roundtrip,
    push_i16s_le, push_u32_le, u32_le_bytes,
};
use crate::chunk::{Chunk, ChunkId, ChunkModel};
use crate::file::AfixFile;
use crate::header::{AfixHeader, Dimensions, Version};
use crate::profile::Profile;
use crate::text::{dec_digits, push_decimal};

verus! {

/// Configuration for an encode operation.
#[derive(Debug, Clone, Copy, PartialEq, Eq, Structural)]
pub struct EncodeOptions {
    /// Encoding profile (determines which chunks are written).
    pub profile: Profile,
    /// Neural latent quality, 0–100 (higher = more detail, larger file).
    pub quality: u8,
    /// Whether to auto-detect semantic objects and write an `OBJM` chunk.
    pub semantic: bool,
    /// Whether to embed a JPEG preview (`PREV` chunk) for backward compatibility.
    ///
    /// When `true` (the default), a JPEG is written as the second chunk in the
    /// `PAYLOAD` (right after `META`). Legacy tools that do not understand
    /// `.aFix` can extract this chunk and display it directly.
    pub preview: bool,
    /// JPEG quality for the embedded preview, 1–100 (default: 60).
    pub preview_quality: u8,
}

impl Default for EncodeOptions {
    /// WebLossy profile, quality 85, semantic detection and preview on,
    /// preview quality 60.
    fn default() -> (o: Self)
        ensures
            o == (EncodeOptions {
                profile: Profile::WebLossy,
                quality: 85,
                semantic: true,
                preview: true,
                preview_quality: 60,
            }),
    {
        EncodeOptions {
            profile: Profile::WebLossy,
            quality: 85,
            semantic: true,
            preview: true,
            preview_quality: 60,
        }
    }
}

// ── S3 parity residual ───────────────────────────────────────────────────────

/// The `RES2` magic of a residual chunk.
pub open spec fn res2_magic() -> Seq<u8> {
    seq![0x52u8, 0x45, 0x53, 0x32]
}

/// Residual sample `k` (row-major pixel `k / 3`, channel `k % 3`): the
/// original value minus the S2 reconstruction, where the reconstruction covers
/// that pixel, and 0 elsewhere.
pub open spec fn residual_at(orig: Seq<u8>, w: int, rec: Seq<u8>, dw: int, dh: int, k: int) -> i16 {
    let p = k / 3;
    let ch = k % 3;
    let px = p % w;
    let py = p / w;
    let o = orig[(py * w + px) * 3 + ch] as int;
    let r = if px < dw && py < dh {
        rec[(py * dw + px) * 3 + ch] as int
    } else {
        o
    };
    (o - r) as i16
}

/// The bytes of the `RES_` chunk for an original `w × h` RGB image and an S2
/// reconstruction of `dw × dh` RGB pixels.
pub open spec fn residual_bytes(orig: Seq<u8>, w: u32, h: u32, rec: Seq<u8>, dw: u32, dh: u32) -> Seq<
    u8,
> {
    res2_magic() + u32_le_bytes(w) + u32_le_bytes(h) + i16s_bytes(
        Seq::new(
            (3 * w * h) as nat,
            |k: int| residual_at(orig, w as int, rec, dw as int, dh as int, k),
        ),
    )
}

proof fn lemma_sample_index(w: int, h: int, px: int, py: int, ch: int)
    requires
        0 <= px < w,
        0 <= py < h,
        0 <= ch < 3,
    ensures
        ((py * w + px) * 3 + ch) / 3 == py * w + px,
        ((py * w + px) * 3 + ch) % 3 == ch,
        (py * w + px) % w == px,
        (py * w + px) / w == py,
        0 <= (py * w + px) * 3 + ch < 3 * w * h,
{
    vstd::arithmetic::div_mod::lemma_fundamental_div_mod_converse(
        (py * w + px) * 3 + ch,
        3,
        py * w + px,
        ch,
    );
    vstd::arithmetic::div_mod::lemma_fundamental_div_mod_converse(py * w + px, w, py, px);
    assert(0 <= py * w + px < w * h) by (nonlinear_arith)
        requires
            0 <= px < w,
            0 <= py < h,
    ;
    assert(3 * w * h == (w * h) * 3) by (nonlinear_arith);
}

/// The S3 parity residual: `"RES2"`, the width and height, then for every
/// pixel in row-major order and each of its three channels the `i16`
/// difference between the original and the S2 reconstruction (0 where the
/// reconstruction does not cover the pixel).
pub fn encode_residual(orig: &[u8], w: u32, h: u32, rec: &[u8], dw: u32, dh: u32) -> (out: Vec<u8>)
    requires
        3 * w * h <= orig@.len(),
        3 * dw * dh <= rec@.len(),
        3 * w * h <= usize::MAX,
        3 * dw * dh <= usize::MAX,
    ensures
        out@ == residual_bytes(orig@, w, h, rec@, dw, dh),
{
    let ghost n = 3 * w * h;
    let wu = w as usize;
    let hu = h as usize;
    let dwu = dw as usize;
    let dhu = dh as usize;
    let mut samples: Vec<i16> = Vec::new();
    let mut py: usize = 0;
    while py < hu
        invariant
            wu == w,
            hu == h,
            dwu == dw,
            dhu == dh,
            n == 3 * w * h,
            n <= orig@.len(),
            3 * dw * dh <= rec@.len(),
            n <= usize::MAX,
            3 * dw * dh <= usize::MAX,
            py <= hu,
            samples@.len() == (py * wu) * 3,
            forall|k: int|
                0 <= k < samples@.len() ==> samples@[k] == residual_at(
                    orig@,
                    w as int,
                    rec@,
                    dw as int,
                    dh as int,
                    k,
                ),
        decreases hu - py,
    {
        let mut px: usize = 0;
        while px < wu
            invariant
                wu == w,
                hu == h,
                dwu == dw,
                dhu == dh,
                n == 3 * w * h,
                n <= orig@.len(),
                3 * dw * dh <= rec@.len(),
                n <= usize::MAX,
                3 * dw * dh <= usize::MAX,
                py < hu,
                px <= wu,
                samples@.len() == (py * wu + px) * 3,
                forall|k: int|
                    0 <= k < samples@.len() ==> samples@[k] == residual_at(
                        orig@,
                        w as int,
                        rec@,
                        dw as int,
                        dh as int,
                        k,
                    ),
            decreases wu - px,
        {
            let mut ch: usize = 0;
            while ch < 3
                invariant
                    wu == w,
                    hu == h,
                    dwu == dw,
                    dhu == dh,
                    n == 3 * w * h,
                    n <= orig@.len(),
                    3 * dw * dh <= rec@.len(),
                    n <= usize::MAX,
                    3 * dw * dh <= usize::MAX,
                    py < hu,
                    px < wu,
                    ch <= 3,
                    samples@.len() == (py * wu + px) * 3 + ch,
                    forall|k: int|
                        0 <= k < samples@.len() ==> samples@[k] == residual_at(
                            orig@,
                            w as int,
                            rec@,
                            dw as int,
                            dh as int,
                            k,
                        ),
                decreases 3 - ch,
            {
                proof {
                    lemma_sample_index(w as int, h as int, px as int, py as int, ch as int);
                    if px < dwu && py < dhu {
                        lemma_sample_index(dw as int, dh as int, px as int, py as int, ch as int);
                    }
                }
                let o = orig[(py * wu + px) * 3 + ch] as i16;
                let r = if px < dwu && py < dhu {
                    rec[(py * dwu + px) * 3 + ch] as i16
                } else {
                    o
                };
                samples.push(o - r);
                ch = ch + 1;
            }
            px = px + 1;
        }
        proof {
            assert((py + 1) * wu == py * wu + wu) by (nonlinear_arith);
        }
        py = py + 1;
    }
    let mut out: Vec<u8> = Vec::new();
    out.push(0x52u8);
    out.push(0x45u8);
    out.push(0x53u8);
    out.push(0x32u8);
    push_u32_le(&mut out, w);
    push_u32_le(&mut out, h);
    push_i16s_le(&mut out, samples.as_slice());
    proof {
        assert((hu * wu) * 3 == 3 * w * h) by (nonlinear_arith)
            requires
                hu == h,
                wu == w,
        ;
        assert(samples@ =~= Seq::new(
            (3 * w * h) as nat,
            |k: int| residual_at(orig@, w as int, rec@, dw as int, dh as int, k),
        ));
    }
    assert(out@ =~= residual_bytes(orig@, w, h, rec@, dw, dh));
    out
}

/// The S3 residual restores the source: in the `RES_` bytes of an original
/// `w × h` RGB image and an S2 reconstruction of `dw × dh` pixels, after the
/// `"RES2"` magic and the width and height, the stored residual of channel
/// `ch` of pixel `(px, py)` added to the reconstruction gives the original
/// sample back where the reconstruction covers the pixel, and is 0 where it
/// does not.
pub proof fn lemma_residual_restores(
    orig: Seq<u8>,
    w: u32,
    h: u32,
    rec: Seq<u8>,
    dw: u32,
    dh: u32,
    px: int,
    py: int,
    ch: int,
)
    requires
        0 <= px < w,
        0 <= py < h,
        0 <= ch < 3,
    ensures
        ({
            let out = residual_bytes(orig, w, h, rec, dw, dh);
            let k = (py * w + px) * 3 + ch;
            &&& out.len() == 12 + 6 * w * h
            &&& out.subrange(0, 4) == res2_magic()
            &&& le_u32(out, 4) == w
            &&& le_u32(out, 8) == h
            &&& px < dw && py < dh ==> rec[(py * dw + px) * 3 + ch] + le_i16(out, 12 + 2 * k)
                == orig[k]
            &&& !(px < dw && py < dh) ==> le_i16(out, 12 + 2 * k) == 0
        }),
{
    let out = residual_bytes(orig, w, h, rec, dw, dh);
    let samples = Seq::new(
        (3 * w * h) as nat,
        |j: int| residual_at(orig, w as int, rec, dw as int, dh as int, j),
    );
    let k = (py * w + px) * 3 + ch;
    lemma_sample_index(w as int, h as int, px, py, ch);
    lemma_i16s_bytes(samples, k);
    assert(out =~= res2_magic() + u32_le_bytes(w) + u32_le_bytes(h) + i16s_bytes(samples));
    assert(out.subrange(0, 4) =~= res2_magic());
    assert(out.subrange(4, 8) =~= u32_le_bytes(w));
    lemma_u32_roundtrip(w, out, 4);
    assert(out.subrange(8, 12) =~= u32_le_bytes(h));
    lemma_u32_roundtrip(h, out, 8);
    assert(out.subrange(12 + 2 * k, 12 + 2 * k + 2) =~= i16s_bytes(samples).subrange(
        2 * k,
        2 * k + 2,
    ));
    lemma_i16_roundtrip(samples[k], out, 12 + 2 * k);
    assert(out.len() == 12 + 6 * w * h) by {
        lemma_i16s_len(samples);
        assert(2 * (3 * w * h) == 6 * w * h) by (nonlinear_arith);
    }
    let o = orig[k] as int;
    if px < dw && py < dh {
        let r = rec[(py * dw + px) * 3 + ch] as int;
        assert(samples[k] == (o - r) as i16);
        assert(-255 <= o - r <= 255);
    } else {
        assert(samples[k] == (o - o) as i16);
    }
}

// ── Chunk layout of an encode ────────────────────────────────────────────────

/// The encoded streams of an image, ready to be packed into chunks.
pub struct EncodedStreams {
    /// `META` chunk data.
    pub meta: Vec<u8>,
    /// `PREV` chunk data, when a preview is embedded.
    pub preview: Option<Vec<u8>>,
    /// `VEC_` chunk data (S1).
    pub s1: Vec<u8>,
    /// `LAT_` chunk data (S2).
    pub s2: Vec<u8>,
    /// `RES_` chunk data (S3), for lossless profiles.
    pub s3: Option<Vec<u8>>,
    /// `OBJM` chunk data, when semantic objects are detected.
    pub objm: Option<Vec<u8>>,
}

/// An unflagged chunk with the given identifier and data.
pub open spec fn plain_chunk(id: ChunkId, data: Seq<u8>) -> ChunkModel {
    ChunkModel { id, flags: 0, data }
}

/// The chunks an encode writes, in order: `META`, `PREV` if present, `VEC_`,
/// `LAT_`, `RES_` if present, `OBJM` if present.
pub open spec fn encoded_chunks(s: EncodedStreams) -> Seq<ChunkModel> {
    seq![plain_chunk(ChunkId::Meta, s.meta@)] + (match s.preview {
        Some(p) => seq![plain_chunk(ChunkId::Preview, p@)],
        None => Seq::empty(),
    }) + seq![plain_chunk(ChunkId::Vec, s.s1@), plain_chunk(ChunkId::Lat, s.s2@)] + (match s.s3 {
        Some(r) => seq![plain_chunk(ChunkId::Res, r@)],
        None => Seq::empty(),
    }) + (match s.objm {
        Some(o) => seq![plain_chunk(ChunkId::ObjManifest, o@)],
        None => Seq::empty(),
    })
}

/// Whether the streams are those that the options call for: a preview exactly
/// when enabled, a residual exactly when the profile requires one, a manifest
/// exactly when semantic detection is on.
pub open spec fn streams_match(o: EncodeOptions, s: EncodedStreams) -> bool {
    &&& (s.preview is Some) == o.preview
    &&& (s.s3 is Some) == (o.profile == Profile::WebLossless || o.profile == Profile::Full)
    &&& (s.objm is Some) == o.semantic
}

/// Pack the encoded streams of a `width × height` image (dimensions as the
/// bit patterns of the two doubles) into an `.aFix` file, in the chunk order
/// of an encode.
pub fn assemble_file(width_bits: u64, height_bits: u64, options: &EncodeOptions, streams: EncodedStreams) -> (f: AfixFile)
    requires
        streams_match(*options, streams),
    ensures
        f@.header == (AfixHeader {
            version: Version { major: 1, minor: 0, patch: 4, flag: 0 },
            dimensions: Dimensions { width_bits, height_bits },
        }),
        f@.chunks == encoded_chunks(streams),
{
    let ghost s = streams;
    let mut afix = AfixFile::new(width_bits, height_bits, options.profile);
    let EncodedStreams { meta, preview, s1, s2, s3, objm } = streams;
    afix.add_chunk(Chunk { id: ChunkId::Meta, flags: 0, data: meta });
    if let Some(p) = preview {
        afix.add_chunk(Chunk { id: ChunkId::Preview, flags: 0, data: p });
    }
    afix.add_chunk(Chunk { id: ChunkId::Vec, flags: 0, data: s1 });
    afix.add_chunk(Chunk { id: ChunkId::Lat, flags: 0, data: s2 });
    if let Some(r) = s3 {
        afix.add_chunk(Chunk { id: ChunkId::Res, flags: 0, data: r });
    }
    if let Some(o) = objm {
        afix.add_chunk(Chunk { id: ChunkId::ObjManifest, flags: 0, data: o });
    }
    assert(afix@.chunks =~= encoded_chunks(s));
    afix
}

// ── Semantic regions of the object manifest ─────────────────────────────────

/// The side of the cells of the 3×3 region grid for an image side: a third
/// of it, and at least 1.
pub open spec fn cell_side(n: u32) -> u32 {
    if n / 3 >= 1 {
        n / 3
    } else {
        1
    }
}

/// Cell `k` of the 3×3 region grid over a `w × h` image, row by row, as
/// `(x, y, width, height)`.
pub open spec fn grid_cell(w: u32, h: u32, k: int) -> (u32, u32, u32, u32) {
    (((k % 3) * cell_side(w)) as u32, ((k / 3) * cell_side(h)) as u32, cell_side(w), cell_side(h))
}

/// The nine cells of the 3×3 region grid over a `w × h` image, row by row,
/// each `(x, y, width, height)`.
pub fn grid_cells(w: u32, h: u32) -> (cells: Vec<(u32, u32, u32, u32)>)
    ensures
        cells@.len() == 9,
        forall|k: int| 0 <= k < 9 ==> #[trigger] cells@[k] == grid_cell(w, h, k),
{
    let cw: u32 = if w / 3 >= 1 { w / 3 } else { 1 };
    let ch: u32 = if h / 3 >= 1 { h / 3 } else { 1 };
    let mut cells: Vec<(u32, u32, u32, u32)> = Vec::new();
    let mut gy: u32 = 0;
    while gy < 3
        invariant
            gy <= 3,
            cw == cell_side(w),
            ch == cell_side(h),
            cells@.len() == 3 * gy,
            forall|k: int| 0 <= k < 3 * gy ==> #[trigger] cells@[k] == grid_cell(w, h, k),
        decreases 3 - gy,
    {
        let mut gx: u32 = 0;
        while gx < 3
            invariant
                gy < 3,
                gx <= 3,
                cw == cell_side(w),
                ch == cell_side(h),
                cells@.len() == 3 * gy + gx,
                forall|k: int| 0 <= k < 3 * gy + gx ==> #[trigger] cells@[k] == grid_cell(w, h, k),
            decreases 3 - gx,
        {
            assert(gx * cw <= 2 * cw <= 0xFFFF_FFFF) by (nonlinear_arith)
                requires
                    gx < 3,
                    cw == cell_side(w),
            ;
            assert(gy * ch <= 2 * ch <= 0xFFFF_FFFF) by (nonlinear_arith)
                requires
                    gy < 3,
                    ch == cell_side(h),
            ;
            let ghost k = 3 * gy + gx;
            assert(k % 3 == gx && k / 3 == gy);
            cells.push((gx * cw, gy * ch, cw, ch));
            gx = gx + 1;
        }
        gy = gy + 1;
    }
    cells
}

/// The number of subjects among the first `k` regions.
pub open spec fn subjects_before(s: Seq<bool>, k: int) -> nat
    decreases k,
{
    if k <= 0 {
        0
    } else {
        subjects_before(s, k - 1) + if s[k - 1] {
            1nat
        } else {
            0nat
        }
    }
}

/// The identifier of region `k` of the grid: `subject_<n>` for the `n`-th
/// subject (from 1, row by row), `region_<x>_<y>` for a background cell in
/// column `x` and row `y`.
pub open spec fn region_id(s: Seq<bool>, k: int) -> Seq<char> {
    if s[k] {
        "subject_"@ + dec_digits(subjects_before(s, k) + 1)
    } else {
        "region_"@ + dec_digits((k % 3) as nat) + "_"@ + dec_digits((k / 3) as nat)
    }
}

/// The label, and the category, of region `k`: `subject` or `background`.
pub open spec fn region_kind(s: Seq<bool>, k: int) -> Seq<char> {
    if s[k] {
        "subject"@
    } else {
        "background"@
    }
}

/// The name of a region of the object manifest.
#[derive(Debug, Clone, PartialEq, Eq)]
pub struct RegionName {
    pub id: String,
    pub label: String,
    pub category: String,
}

/// The names of the regions of the grid, row by row, given which of them were
/// judged subjects.
pub fn region_names(subject: &[bool]) -> (names: Vec<RegionName>)
    ensures
        names@.len() == subject@.len(),
        forall|k: int|
            0 <= k < subject@.len() ==> {
                &&& (#[trigger] names@[k]).id@ == region_id(subject@, k)
                &&& names@[k].label@ == region_kind(subject@, k)
                &&& names@[k].category@ == region_kind(subject@, k)
            },
{
    let mut names: Vec<RegionName> = Vec::new();
    let mut count: u64 = 0;
    let mut k: usize = 0;
    while k < subject.len()
        invariant
            k <= subject@.len(),
            names@.len() == k,
            count == subjects_before(subject@, k as int),
            count <= k,
            forall|j: int|
                0 <= j < k ==> {
                    &&& (#[trigger] names@[j]).id@ == region_id(subject@, j)
                    &&& names@[j].label@ == region_kind(subject@, j)
                    &&& names@[j].category@ == region_kind(subject@, j)
                },
        decreases subject@.len() - k,
    {
        let name = if subject[k] {
            count = count + 1;
            let mut id = String::from_str("subject_");
            push_decimal(&mut id, count);
            RegionName {
                id,
                label: String::from_str("subject"),
                category: String::from_str("subject"),
            }
        } else {
            let mut id = String::from_str("region_");
            push_decimal(&mut id, (k % 3) as u64);
            id.append("_");
            push_decimal(&mut id, (k / 3) as u64);
            RegionName {
                id,
                label: String::from_str("background"),
                category: String::from_str("background"),
            }
        };
        names.push(name);
        k = k + 1;
    }
    names
}

} // verus!
