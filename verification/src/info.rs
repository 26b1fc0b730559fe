//! What a file inspector reports about the contents of known chunks.

use vstd::prelude::*;

use crate::bytes::{le_u32, lemma_u32_roundtrip, read_u32_le, u32_le_bytes};

verus! {

/// The header of a `LAT_` chunk, by sub-format.
#[derive(Debug, Clone, Copy, PartialEq, Eq, Structural)]
pub enum LatSummary {
    /// Sub-format `0x02`: DCT tiles and quality.
    Dct { tiles_w: u32, tiles_h: u32, quality: u8 },
    /// Sub-format `0x01`: VAE latent tensor dimensions (float16).
    Vae { width: u32, height: u32, channels: u32 },
    /// Any other first byte: a legacy raw pixel tensor.
    Raw { width: u32, height: u32, channels: u32 },
}

/// The summary of `LAT_` data of at least 14 bytes.
pub open spec fn lat_summary(d: Seq<u8>) -> LatSummary {
    if d[0] == 0x02 {
        LatSummary::Dct {
            tiles_w: le_u32(d, 1) as u32,
            tiles_h: le_u32(d, 5) as u32,
            quality: d[13],
        }
    } else if d[0] == 0x01 {
        LatSummary::Vae {
            width: le_u32(d, 1) as u32,
            height: le_u32(d, 5) as u32,
            channels: le_u32(d, 9) as u32,
        }
    } else {
        LatSummary::Raw {
            width: le_u32(d, 0) as u32,
            height: le_u32(d, 4) as u32,
            channels: le_u32(d, 8) as u32,
        }
    }
}

/// What the summary of `LAT_` data reports, field by field from the bytes:
/// for sub-format `0x02` the tile columns (bytes 1..5), tile rows (5..9) and
/// quality (byte 13); for `0x01` the width (1..5), height (5..9) and channels
/// (9..13) of the VAE tensor; otherwise the width (0..4), height (4..8) and
/// channels (8..12) of a raw tensor.
pub proof fn lemma_lat_summary_fields(d: Seq<u8>)
    requires
        d.len() >= 14,
    ensures
        d[0] == 0x02 ==> lat_summary(d) == (LatSummary::Dct {
            tiles_w: le_u32(d, 1) as u32,
            tiles_h: le_u32(d, 5) as u32,
            quality: d[13],
        }),
        d[0] == 0x01 ==> lat_summary(d) == (LatSummary::Vae {
            width: le_u32(d, 1) as u32,
            height: le_u32(d, 5) as u32,
            channels: le_u32(d, 9) as u32,
        }),
        d[0] != 0x01 && d[0] != 0x02 ==> lat_summary(d) == (LatSummary::Raw {
            width: le_u32(d, 0) as u32,
            height: le_u32(d, 4) as u32,
            channels: le_u32(d, 8) as u32,
        }),
{
}

/// The header of a VAE latent of width `w`, height `h` and `c` channels,
/// written as sub-format `0x01` and the three sizes in little-endian order,
/// is summarised as exactly that tensor, whatever byte follows.
pub proof fn lemma_vae_header_summary(w: u32, h: u32, c: u32, q: u8)
    ensures
        lat_summary(seq![0x01u8] + u32_le_bytes(w) + u32_le_bytes(h) + u32_le_bytes(c) + seq![q])
            == (LatSummary::Vae { width: w, height: h, channels: c }),
{
    let d = seq![0x01u8] + u32_le_bytes(w) + u32_le_bytes(h) + u32_le_bytes(c) + seq![q];
    assert(d.subrange(1, 5) =~= u32_le_bytes(w));
    assert(d.subrange(5, 9) =~= u32_le_bytes(h));
    assert(d.subrange(9, 13) =~= u32_le_bytes(c));
    lemma_u32_roundtrip(w, d, 1);
    lemma_u32_roundtrip(h, d, 5);
    lemma_u32_roundtrip(c, d, 9);
}

/// Describe `LAT_` data; `None` where it is shorter than 14 bytes.
pub fn summarize_lat(data: &[u8]) -> (r: Option<LatSummary>)
    ensures
        match r {
            Some(s) => data@.len() >= 14 && s == lat_summary(data@),
            None => data@.len() < 14,
        },
{
    if data.len() < 14 {
        return None;
    }
    if data[0] == 0x02 {
        Some(
            LatSummary::Dct {
                tiles_w: read_u32_le(data, 1),
                tiles_h: read_u32_le(data, 5),
                quality: data[13],
            },
        )
    } else if data[0] == 0x01 {
        Some(
            LatSummary::Vae {
                width: read_u32_le(data, 1),
                height: read_u32_le(data, 5),
                channels: read_u32_le(data, 9),
            },
        )
    } else {
        Some(
            LatSummary::Raw {
                width: read_u32_le(data, 0),
                height: read_u32_le(data, 4),
                channels: read_u32_le(data, 8),
            },
        )
    }
}

/// The spline count of `VEC_` data: its first four bytes as a little-endian
/// `u32`; `None` where it is shorter than four bytes.
pub fn spline_count(data: &[u8]) -> (r: Option<u32>)
    ensures
        match r {
            Some(c) => data@.len() >= 4 && c == le_u32(data@, 0),
            None => data@.len() < 4,
        },
{
    if data.len() >= 4 {
        Some(read_u32_le(data, 0))
    } else {
        None
    }
}

/// Whether data starts with the JPEG magic `FF D8 FF`.
pub fn is_jpeg(data: &[u8]) -> (r: bool)
    ensures
        r == (data@.len() >= 3 && data@[0] == 0xFF && data@[1] == 0xD8 && data@[2] == 0xFF),
{
    data.len() >= 3 && data[0] == 0xFF && data[1] == 0xD8 && data[2] == 0xFF
}

/// What `serde_json` finds at `key` of the JSON value in `data`: the text
/// there, or `None` where `data` is not JSON, has no such key, or holds no
/// text there.
pub uninterp spec fn json_text_at(data: Seq<u8>, key: Seq<char>) -> Option<Seq<char>>;

/// The text at `key` of the JSON value in `data`: `serde_json::from_slice`
/// into a `serde_json::Value`, indexed by `key`, taken with `as_str`. Nothing
/// more is stated of it than that it is a function of the data and the key.
#[verifier::external_body]
fn json_text(data: &[u8], key: &str) -> (r: Option<String>)
    ensures
        match r {
            Some(t) => json_text_at(data@, key@) == Some(t@),
            None => json_text_at(data@, key@) is None,
        },
{
    match serde_json::from_slice::<serde_json::Value>(data) {
        Ok(json) => match json[key].as_str() {
            Some(t) => Some(t.to_string()),
            None => None,
        },
        Err(_) => None,
    }
}

/// The creator and the profile that `META` data records.
pub struct MetaSummary {
    /// The `creator` text, where there is one.
    pub creator: Option<String>,
    /// The `profile` text, where there is one.
    pub profile: Option<String>,
}

/// The view of an optional text.
pub open spec fn text_view(o: Option<String>) -> Option<Seq<char>> {
    match o {
        Some(t) => Some(t@),
        None => None,
    }
}

/// The `creator` and `profile` texts of the JSON in `META` data.
pub fn summarize_meta(data: &[u8]) -> (r: MetaSummary)
    ensures
        text_view(r.creator) == json_text_at(data@, "creator"@),
        text_view(r.profile) == json_text_at(data@, "profile"@),
{
    MetaSummary { creator: json_text(data, "creator"), profile: json_text(data, "profile") }
}

} // verus!
