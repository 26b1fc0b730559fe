//! The DCT-based `LAT_` chunk of the S2 Latent Texture Field.
//!
//! ```text
//! [sub_format: u8]    = 0x02 (DCT-based, not raw pixels)
//! [width:  u32 LE]    tile columns
//! [height: u32 LE]    tile rows
//! [channels: u32 LE]  = 3 (Y, Cb, Cr)
//! [quality: u8]       0-100
//! [sal_scales: f32 LE × tiles_w × tiles_h]  per-tile saliency scale (1.0–3.0)
//! [coeff_data: ...]   quantised int16 DCT coefficients, block-major, zigzag order
//! ```
//!
//! Each tile is an 8×8 block, so the coefficient data holds `3 × 64` values
//! per tile. The per-tile saliency scales are carried as the bit patterns of
//! the `f32` values (`f32::to_bits`).

use vstd::prelude::*;

use crate::bytes::{
    i16s_bytes, le_i16, le_u32, lemma_i16_roundtrip, lemma_i16s_bytes, lemma_i16s_len,
    lemma_u32_roundtrip, lemma_u32s_bytes, lemma_u32s_len, push_i16s_le, push_u32_le,
    push_u32s_le, read_i16_le, read_u32_le, u32_le_bytes, u32s_bytes,
};

verus! {

/// Side of a DCT tile in pixels.
pub const BLOCK: usize = 8;

/// Sub-format byte of a DCT-based `LAT_` chunk.
pub const DCT_SUB_FORMAT: u8 = 0x02;

/// The quantised contents of a DCT-based `LAT_` chunk.
#[derive(Debug, Clone)]
pub struct DctLatent {
    /// Tile columns.
    pub tiles_w: u32,
    /// Tile rows.
    pub tiles_h: u32,
    /// Quality 0–100 that the quantisation tables were scaled by.
    pub quality: u8,
    /// Per-tile saliency scale, as `f32` bit patterns, row-major.
    pub sal_scale_bits: Vec<u32>,
    /// Quantised DCT coefficients: channel-major, then tile row-major, then
    /// 64 per tile in zigzag order.
    pub coeffs: Vec<i16>,
}

/// The view of a `DctLatent`.
pub struct DctLatentModel {
    pub tiles_w: u32,
    pub tiles_h: u32,
    pub quality: u8,
    pub sal_scale_bits: Seq<u32>,
    pub coeffs: Seq<i16>,
}

impl View for DctLatent {
    type V = DctLatentModel;

    open spec fn view(&self) -> DctLatentModel {
        DctLatentModel {
            tiles_w: self.tiles_w,
            tiles_h: self.tiles_h,
            quality: self.quality,
            sal_scale_bits: self.sal_scale_bits@,
            coeffs: self.coeffs@,
        }
    }
}

/// The number of tiles.
pub open spec fn tile_count(tiles_w: u32, tiles_h: u32) -> int {
    tiles_w as int * tiles_h as int
}

/// The number of coefficients: 3 channels × 64 per tile.
pub open spec fn coeff_count(tiles_w: u32, tiles_h: u32) -> int {
    192 * tile_count(tiles_w, tiles_h)
}

/// Whether the data starts with a DCT-based `LAT_` header.
pub open spec fn has_dct_header(d: Seq<u8>) -> bool {
    d.len() >= 14 && d[0] == DCT_SUB_FORMAT
}

/// The tile count announced by a DCT-based `LAT_` header.
pub open spec fn header_tiles(d: Seq<u8>) -> int {
    le_u32(d, 1) * le_u32(d, 5)
}

/// The `LAT_` data whose saliency table's byte length a reader can compute:
/// `14 + 4 × tiles` fits in a `usize` (a reader's length arithmetic overflows
/// otherwise).
pub open spec fn dct_sizes_fit(d: Seq<u8>) -> bool {
    has_dct_header(d) ==> 14 + 4 * header_tiles(d) <= usize::MAX
}

/// What decoding `LAT_` data gives: its header fields, saliency scales and
/// coefficients, or `None` where the data is not DCT-based or too short.
/// Bytes after the coefficients are ignored.
pub open spec fn parse_dct(d: Seq<u8>) -> Option<DctLatentModel> {
    if !has_dct_header(d) {
        None
    } else {
        let tw = le_u32(d, 1) as u32;
        let th = le_u32(d, 5) as u32;
        let nt = tile_count(tw, th);
        let nc = coeff_count(tw, th);
        if d.len() < 14 + 4 * nt + 2 * nc {
            None
        } else {
            Some(
                DctLatentModel {
                    tiles_w: tw,
                    tiles_h: th,
                    quality: d[13],
                    sal_scale_bits: Seq::new(nt as nat, |i: int| le_u32(d, 14 + 4 * i) as u32),
                    coeffs: Seq::new(nc as nat, |k: int| le_i16(d, 14 + 4 * nt + 2 * k) as i16),
                },
            )
        }
    }
}

/// The bytes of a DCT-based `LAT_` chunk.
pub open spec fn dct_bytes(l: DctLatentModel) -> Seq<u8> {
    seq![DCT_SUB_FORMAT] + u32_le_bytes(l.tiles_w) + u32_le_bytes(l.tiles_h) + u32_le_bytes(3)
        + seq![l.quality] + u32s_bytes(l.sal_scale_bits) + i16s_bytes(l.coeffs)
}

/// Decoded `LAT_` data reports the header it was read from: the data starts
/// with sub-format `0x02`, the tile columns are the little-endian `u32` at
/// bytes 1..5, the tile rows the one at bytes 5..9, and the quality is byte 13.
pub proof fn lemma_decoded_header(d: Seq<u8>)
    ensures
        parse_dct(d) matches Some(l) ==> {
            &&& d.len() >= 14
            &&& d[0] == 0x02
            &&& l.tiles_w == le_u32(d, 1)
            &&& l.tiles_h == le_u32(d, 5)
            &&& l.quality == d[13]
        },
{
}

/// Decoded `LAT_` data holds one saliency scale per tile, scale `i` being
/// the little-endian `u32` at byte `14 + 4 i`, followed by `3 × 64`
/// coefficients per tile, coefficient `k` being the little-endian `i16` right
/// after the scales, at byte `14 + 4 × tiles + 2 k`; the data is at least that
/// long.
pub proof fn lemma_decoded_tables(d: Seq<u8>)
    ensures
        parse_dct(d) matches Some(l) ==> {
            let nt = l.tiles_w * l.tiles_h;
            &&& l.sal_scale_bits.len() == nt
            &&& l.coeffs.len() == 192 * nt
            &&& d.len() >= 14 + 4 * nt + 384 * nt
            &&& forall|i: int| 0 <= i < nt ==> #[trigger] l.sal_scale_bits[i] == le_u32(d, 14 + 4 * i)
            &&& forall|k: int|
                0 <= k < 192 * nt ==> #[trigger] l.coeffs[k] == le_i16(d, 14 + 4 * nt + 2 * k)
        },
{
}

/// The `LAT_` bytes of a latent whose tables have the lengths its tile counts
/// call for hold scale `i` as the little-endian `u32` at byte `14 + 4 i` and
/// coefficient `k` as the little-endian `i16` at byte `14 + 4 × tiles + 2 k`.
pub proof fn lemma_written_tables(l: DctLatentModel)
    requires
        latent_wf(l),
    ensures
        ({
            let b = dct_bytes(l);
            let nt = l.tiles_w * l.tiles_h;
            &&& b.len() == 14 + 4 * nt + 384 * nt
            &&& forall|i: int| 0 <= i < nt ==> le_u32(b, 14 + 4 * i) == #[trigger] l.sal_scale_bits[i]
            &&& forall|k: int|
                0 <= k < 192 * nt ==> le_i16(b, 14 + 4 * nt + 2 * k) == #[trigger] l.coeffs[k]
        }),
{
    let b = dct_bytes(l);
    let nt = l.tiles_w * l.tiles_h;
    lemma_u32s_len(l.sal_scale_bits);
    lemma_i16s_len(l.coeffs);
    assert(b.len() == 14 + 4 * nt + 384 * nt);
    lemma_decode_after_encode(l);
    lemma_decoded_tables(b);
    assert(parse_dct(b) == Some(l));
    assert forall|i: int| 0 <= i < nt implies le_u32(b, 14 + 4 * i) == #[trigger] l.sal_scale_bits[i] by {
    }
    assert forall|k: int| 0 <= k < 192 * nt implies le_i16(b, 14 + 4 * nt + 2 * k)
        == #[trigger] l.coeffs[k] by {
    }
}

/// The `LAT_` bytes of a latent start with the header: sub-format `0x02`, the
/// tile columns as a little-endian `u32` at bytes 1..5, the tile rows at bytes
/// 5..9, the channel count 3 at bytes 9..13 and the quality at byte 13.
pub proof fn lemma_written_header(l: DctLatentModel)
    ensures
        ({
            let b = dct_bytes(l);
            &&& b.len() >= 14
            &&& b[0] == 0x02
            &&& le_u32(b, 1) == l.tiles_w
            &&& le_u32(b, 5) == l.tiles_h
            &&& le_u32(b, 9) == 3
            &&& b[13] == l.quality
        }),
{
    let b = dct_bytes(l);
    lemma_u32s_len(l.sal_scale_bits);
    lemma_i16s_len(l.coeffs);
    assert(b.subrange(1, 5) =~= u32_le_bytes(l.tiles_w));
    lemma_u32_roundtrip(l.tiles_w, b, 1);
    assert(b.subrange(5, 9) =~= u32_le_bytes(l.tiles_h));
    lemma_u32_roundtrip(l.tiles_h, b, 5);
    assert(b.subrange(9, 13) =~= u32_le_bytes(3));
    lemma_u32_roundtrip(3, b, 9);
}

/// A latent whose tables have the lengths its tile counts call for.
pub open spec fn latent_wf(l: DctLatentModel) -> bool {
    &&& l.sal_scale_bits.len() == tile_count(l.tiles_w, l.tiles_h)
    &&& l.coeffs.len() == coeff_count(l.tiles_w, l.tiles_h)
}

/// Decoding what encoding writes gives back the latent, for every latent whose
/// tables have the lengths its tile counts call for.
pub proof fn lemma_decode_after_encode(l: DctLatentModel)
    requires
        latent_wf(l),
    ensures
        parse_dct(dct_bytes(l)) == Some(l),
{
    let b = dct_bytes(l);
    let nt = tile_count(l.tiles_w, l.tiles_h);
    let nc = coeff_count(l.tiles_w, l.tiles_h);
    lemma_u32s_len(l.sal_scale_bits);
    lemma_i16s_len(l.coeffs);
    let sb = u32s_bytes(l.sal_scale_bits);
    let cb = i16s_bytes(l.coeffs);
    assert(b.subrange(1, 5) =~= u32_le_bytes(l.tiles_w));
    lemma_u32_roundtrip(l.tiles_w, b, 1);
    assert(b.subrange(5, 9) =~= u32_le_bytes(l.tiles_h));
    lemma_u32_roundtrip(l.tiles_h, b, 5);
    assert(b.len() == 14 + 4 * nt + 2 * nc);
    let p = parse_dct(b).unwrap();
    assert forall|i: int| 0 <= i < nt implies p.sal_scale_bits[i] == l.sal_scale_bits[i] by {
        lemma_u32s_bytes(l.sal_scale_bits, i);
        assert(b.subrange(14 + 4 * i, 14 + 4 * i + 4) =~= sb.subrange(4 * i, 4 * i + 4));
        lemma_u32_roundtrip(l.sal_scale_bits[i], b, 14 + 4 * i);
    }
    assert forall|k: int| 0 <= k < nc implies p.coeffs[k] == l.coeffs[k] by {
        lemma_i16s_bytes(l.coeffs, k);
        assert(b.subrange(14 + 4 * nt + 2 * k, 14 + 4 * nt + 2 * k + 2) =~= cb.subrange(
            2 * k,
            2 * k + 2,
        ));
        lemma_i16_roundtrip(l.coeffs[k], b, 14 + 4 * nt + 2 * k);
    }
    assert(p.sal_scale_bits =~= l.sal_scale_bits);
    assert(p.coeffs =~= l.coeffs);
}

impl DctLatent {
    /// The `LAT_` chunk data for this latent.
    pub fn to_bytes(&self) -> (out: Vec<u8>)
        ensures
            out@ == dct_bytes(self@),
    {
        let mut out: Vec<u8> = Vec::new();
        out.push(DCT_SUB_FORMAT);
        push_u32_le(&mut out, self.tiles_w);
        push_u32_le(&mut out, self.tiles_h);
        push_u32_le(&mut out, 3);
        out.push(self.quality);
        push_u32s_le(&mut out, self.sal_scale_bits.as_slice());
        push_i16s_le(&mut out, self.coeffs.as_slice());
        assert(out@ =~= dct_bytes(self@));
        out
    }
}

/// Decode a DCT-based `LAT_` chunk into its header fields, per-tile saliency
/// scales and quantised coefficients.
pub fn decode_dct(data: &[u8]) -> (r: Option<DctLatent>)
    requires
        dct_sizes_fit(data@),
    ensures
        match r {
            Some(l) => parse_dct(data@) == Some(l@),
            None => parse_dct(data@) is None,
        },
{
    if data.len() < 14 || data[0] != DCT_SUB_FORMAT {
        return None;
    }
    let tiles_w = read_u32_le(data, 1);
    let tiles_h = read_u32_le(data, 5);
    let _channels = read_u32_le(data, 9);
    let quality = data[13];
    let ghost nt = tile_count(tiles_w, tiles_h);
    let ghost nc = coeff_count(tiles_w, tiles_h);
    assert(14 + 4 * nt <= usize::MAX);
    proof {
        assert(0 <= tiles_w as int * tiles_h as int) by (nonlinear_arith);
    }
    let num_tiles: usize = (tiles_w as u64 * tiles_h as u64) as usize;
    let sal_table_bytes: usize = num_tiles * 4;
    if data.len() < 14 + sal_table_bytes {
        return None;
    }
    // The saliency table fits in the data, so the coefficient count does not
    // overflow either.
    let coeff_bytes: usize = data.len() - 14 - sal_table_bytes;
    if coeff_bytes / 384 < num_tiles {
        return None;
    }
    let num_coeffs: usize = num_tiles * 192;
    let mut sal: Vec<u32> = Vec::new();
    let mut i: usize = 0;
    while i < num_tiles
        invariant
            i <= num_tiles,
            num_tiles == nt,
            14 + 4 * num_tiles <= data.len(),
            sal@ =~= Seq::new(i as nat, |j: int| le_u32(data@, 14 + 4 * j) as u32),
        decreases num_tiles - i,
    {
        sal.push(read_u32_le(data, 14 + 4 * i));
        i = i + 1;
    }
    let base = 14 + sal_table_bytes;
    let mut coeffs: Vec<i16> = Vec::new();
    let mut k: usize = 0;
    while k < num_coeffs
        invariant
            k <= num_coeffs,
            num_coeffs == nc,
            base == 14 + 4 * nt,
            base + 2 * num_coeffs <= data.len(),
            coeffs@ =~= Seq::new(k as nat, |j: int| le_i16(data@, base + 2 * j) as i16),
        decreases num_coeffs - k,
    {
        coeffs.push(read_i16_le(data, base + 2 * k));
        k = k + 1;
    }
    Some(DctLatent { tiles_w, tiles_h, quality, sal_scale_bits: sal, coeffs })
}

// ── Tiles ────────────────────────────────────────────────────────────────────

/// The source index of pixel `i` (row-major) of the 8×8 tile at `(bx, by)`
/// in a row-major `w × h` channel: past the right and bottom edges the last
/// column and row are repeated.
pub open spec fn tile_source(w: int, h: int, bx: int, by: int, i: int) -> int {
    let x = bx + i % 8;
    let y = by + i / 8;
    let px = if x < w - 1 {
        x
    } else {
        w - 1
    };
    let py = if y < h - 1 {
        y
    } else {
        h - 1
    };
    py * w + px
}

/// The 8×8 tile of a row-major `w × h` channel whose top-left pixel is
/// `(bx, by)`, row by row, repeating the last column and row past the edges.
pub fn extract_block<T: Copy>(channel: &[T], w: usize, h: usize, bx: usize, by: usize) -> (block: Vec<T>)
    requires
        1 <= w,
        1 <= h,
        w * h <= channel@.len(),
        bx + 8 <= usize::MAX,
        by + 8 <= usize::MAX,
    ensures
        block@.len() == 64,
        forall|i: int|
            0 <= i < 64 ==> #[trigger] block@[i] == channel@[tile_source(
                w as int,
                h as int,
                bx as int,
                by as int,
                i,
            )],
{
    let mut block: Vec<T> = Vec::new();
    let len = channel.len();
    let mut dy: usize = 0;
    while dy < BLOCK
        invariant
            len == channel@.len(),
            1 <= w,
            1 <= h,
            w * h <= channel@.len(),
            bx + 8 <= usize::MAX,
            by + 8 <= usize::MAX,
            dy <= 8,
            block@.len() == 8 * dy,
            forall|i: int|
                0 <= i < 8 * dy ==> #[trigger] block@[i] == channel@[tile_source(
                    w as int,
                    h as int,
                    bx as int,
                    by as int,
                    i,
                )],
        decreases 8 - dy,
    {
        let mut dx: usize = 0;
        while dx < BLOCK
            invariant
                len == channel@.len(),
                1 <= w,
                1 <= h,
                w * h <= channel@.len(),
                bx + 8 <= usize::MAX,
                by + 8 <= usize::MAX,
                dy < 8,
                dx <= 8,
                block@.len() == 8 * dy + dx,
                forall|i: int|
                    0 <= i < 8 * dy + dx ==> #[trigger] block@[i] == channel@[tile_source(
                        w as int,
                        h as int,
                        bx as int,
                        by as int,
                        i,
                    )],
            decreases 8 - dx,
        {
            let px = if bx + dx < w - 1 { bx + dx } else { w - 1 };
            let py = if by + dy < h - 1 { by + dy } else { h - 1 };
            proof {
                assert(0 <= py * w + px < w * h) by (nonlinear_arith)
                    requires
                        px < w,
                        py < h,
                ;
                let i = 8 * dy + dx;
                assert(i % 8 == dx && i / 8 == dy);
            }
            block.push(channel[py * w + px]);
            dx = dx + 1;
        }
        dy = dy + 1;
    }
    block
}

} // verus!
