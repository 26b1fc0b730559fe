//! Atom chunk types for `.aFix`.

use vstd::prelude::*;

verus! {

/// A recognised chunk identifier.
#[derive(Debug, Clone, Copy, PartialEq, Eq, Hash)]
pub enum ChunkId {
    /// `META` — JSON/BSON creator & licence metadata.
    Meta,
    /// `VEC_` — S1 Geometric Skeleton (B-Spline vectors, LOD-0).
    Vec,
    /// `LAT_` — S2 Latent Texture Field (neural latents, LOD-1).
    Lat,
    /// `RES_` — S3 Parity Residual (lossless correction, LOD-2, optional).
    Res,
    /// `DPTH` — 16-bit unsigned depth map.
    Depth,
    /// `SIGB` — C2PA Ed25519 cryptographic signature block.
    Sig,
    /// `OBJM` — Semantic Object Manifest (BSON).
    ObjManifest,
    /// `PREV` — JPEG preview for viewers that do not understand `.aFix`.
    Preview,
    /// Any other four-byte chunk ID.
    Unknown([u8; 4]),
}

/// The four ASCII bytes that spell each registered chunk identifier.
pub open spec fn meta_tag() -> Seq<u8> { seq![0x4Du8, 0x45, 0x54, 0x41] }
pub open spec fn vec_tag() -> Seq<u8> { seq![0x56u8, 0x45, 0x43, 0x5F] }
pub open spec fn lat_tag() -> Seq<u8> { seq![0x4Cu8, 0x41, 0x54, 0x5F] }
pub open spec fn res_tag() -> Seq<u8> { seq![0x52u8, 0x45, 0x53, 0x5F] }
pub open spec fn depth_tag() -> Seq<u8> { seq![0x44u8, 0x50, 0x54, 0x48] }
pub open spec fn sig_tag() -> Seq<u8> { seq![0x53u8, 0x49, 0x47, 0x42] }
pub open spec fn objm_tag() -> Seq<u8> { seq![0x4Fu8, 0x42, 0x4A, 0x4D] }
pub open spec fn prev_tag() -> Seq<u8> { seq![0x50u8, 0x52, 0x45, 0x56] }

/// Whether `s` spells one of the registered chunk identifiers.
pub open spec fn is_registered_tag(s: Seq<u8>) -> bool {
    s == meta_tag() || s == vec_tag() || s == lat_tag() || s == res_tag() || s == depth_tag()
        || s == sig_tag() || s == objm_tag() || s == prev_tag()
}

/// The four bytes that encode a chunk identifier.
pub open spec fn id_bytes(id: ChunkId) -> Seq<u8> {
    match id {
        ChunkId::Meta => meta_tag(),
        ChunkId::Vec => vec_tag(),
        ChunkId::Lat => lat_tag(),
        ChunkId::Res => res_tag(),
        ChunkId::Depth => depth_tag(),
        ChunkId::Sig => sig_tag(),
        ChunkId::ObjManifest => objm_tag(),
        ChunkId::Preview => prev_tag(),
        ChunkId::Unknown(b) => b@,
    }
}

/// The identifier spelled by the four bytes `b`.
pub open spec fn id_from_bytes(b: [u8; 4]) -> ChunkId {
    if b@ == meta_tag() {
        ChunkId::Meta
    } else if b@ == vec_tag() {
        ChunkId::Vec
    } else if b@ == lat_tag() {
        ChunkId::Lat
    } else if b@ == res_tag() {
        ChunkId::Res
    } else if b@ == depth_tag() {
        ChunkId::Depth
    } else if b@ == sig_tag() {
        ChunkId::Sig
    } else if b@ == objm_tag() {
        ChunkId::ObjManifest
    } else if b@ == prev_tag() {
        ChunkId::Preview
    } else {
        ChunkId::Unknown(b)
    }
}

/// A chunk identifier in its one canonical form: `Unknown` never holds the
/// spelling of a registered identifier.
pub open spec fn id_is_canonical(id: ChunkId) -> bool {
    match id {
        ChunkId::Unknown(b) => !is_registered_tag(b@),
        _ => true,
    }
}

/// The display name of a chunk identifier.
pub open spec fn id_name(id: ChunkId) -> Seq<char> {
    match id {
        ChunkId::Meta => "META"@,
        ChunkId::Vec => "VEC_"@,
        ChunkId::Lat => "LAT_"@,
        ChunkId::Res => "RES_"@,
        ChunkId::Depth => "DPTH"@,
        ChunkId::Sig => "SIGB"@,
        ChunkId::ObjManifest => "OBJM"@,
        ChunkId::Preview => "PREV"@,
        ChunkId::Unknown(_) => "????"@,
    }
}

fn spells(b: &[u8; 4], tag: [u8; 4]) -> (r: bool)
    ensures
        r == (b@ == tag@),
{
    let r = b[0] == tag[0] && b[1] == tag[1] && b[2] == tag[2] && b[3] == tag[3];
    proof {
        if r {
            assert(b@ =~= tag@);
        }
    }
    r
}

impl ChunkId {
    /// Parse a `ChunkId` from four ASCII bytes.
    pub fn from_bytes(b: [u8; 4]) -> (id: Self)
        ensures
            id == id_from_bytes(b),
    {
        if spells(&b, [0x4D, 0x45, 0x54, 0x41]) {
            ChunkId::Meta
        } else if spells(&b, [0x56, 0x45, 0x43, 0x5F]) {
            ChunkId::Vec
        } else if spells(&b, [0x4C, 0x41, 0x54, 0x5F]) {
            ChunkId::Lat
        } else if spells(&b, [0x52, 0x45, 0x53, 0x5F]) {
            ChunkId::Res
        } else if spells(&b, [0x44, 0x50, 0x54, 0x48]) {
            ChunkId::Depth
        } else if spells(&b, [0x53, 0x49, 0x47, 0x42]) {
            ChunkId::Sig
        } else if spells(&b, [0x4F, 0x42, 0x4A, 0x4D]) {
            ChunkId::ObjManifest
        } else if spells(&b, [0x50, 0x52, 0x45, 0x56]) {
            ChunkId::Preview
        } else {
            ChunkId::Unknown(b)
        }
    }

    /// Serialise a `ChunkId` to four ASCII bytes.
    pub fn to_bytes(self) -> (b: [u8; 4])
        ensures
            b@ == id_bytes(self),
    {
        let b: [u8; 4] = match self {
            ChunkId::Meta => [0x4D, 0x45, 0x54, 0x41],
            ChunkId::Vec => [0x56, 0x45, 0x43, 0x5F],
            ChunkId::Lat => [0x4C, 0x41, 0x54, 0x5F],
            ChunkId::Res => [0x52, 0x45, 0x53, 0x5F],
            ChunkId::Depth => [0x44, 0x50, 0x54, 0x48],
            ChunkId::Sig => [0x53, 0x49, 0x47, 0x42],
            ChunkId::ObjManifest => [0x4F, 0x42, 0x4A, 0x4D],
            ChunkId::Preview => [0x50, 0x52, 0x45, 0x56],
            ChunkId::Unknown(b) => b,
        };
        assert(b@ =~= id_bytes(self));
        b
    }

    /// Human-readable name for display.
    pub fn name(self) -> (s: &'static str)
        ensures
            s@ == id_name(self),
    {
        match self {
            ChunkId::Meta => "META",
            ChunkId::Vec => "VEC_",
            ChunkId::Lat => "LAT_",
            ChunkId::Res => "RES_",
            ChunkId::Depth => "DPTH",
            ChunkId::Sig => "SIGB",
            ChunkId::ObjManifest => "OBJM",
            ChunkId::Preview => "PREV",
            ChunkId::Unknown(_) => "????",
        }
    }

    /// Whether two identifiers are the same.
    pub fn same_as(&self, other: &ChunkId) -> (r: bool)
        ensures
            r == (*self == *other),
    {
        match (self, other) {
            (ChunkId::Unknown(a), ChunkId::Unknown(b)) => {
                let r = spells(a, *b);
                proof {
                    if r {
                        assert(*a =~= *b);
                    }
                }
                r
            },
            (ChunkId::Meta, ChunkId::Meta) => true,
            (ChunkId::Vec, ChunkId::Vec) => true,
            (ChunkId::Lat, ChunkId::Lat) => true,
            (ChunkId::Res, ChunkId::Res) => true,
            (ChunkId::Depth, ChunkId::Depth) => true,
            (ChunkId::Sig, ChunkId::Sig) => true,
            (ChunkId::ObjManifest, ChunkId::ObjManifest) => true,
            (ChunkId::Preview, ChunkId::Preview) => true,
            _ => false,
        }
    }
}

/// The four-byte array holding the bytes `s`.
pub open spec fn array4_of(s: Seq<u8>) -> [u8; 4] {
    choose|a: [u8; 4]| a@ == s
}

/// The identifier spelled by the first four bytes of `s`.
pub open spec fn id_from_seq(s: Seq<u8>) -> ChunkId {
    id_from_bytes(array4_of(s.subrange(0, 4)))
}

/// Parsing an array's bytes as a sequence is parsing the array.
pub proof fn lemma_id_from_seq(b: [u8; 4], s: Seq<u8>)
    requires
        s.len() >= 4,
        b@ == s.subrange(0, 4),
    ensures
        id_from_seq(s) == id_from_bytes(b),
{
    broadcast use vstd::array::group_array_axioms;

    let a = array4_of(s.subrange(0, 4));
    assert(a@ == s.subrange(0, 4));
    assert(a =~= b);
}

/// Serialising an identifier and parsing the bytes back gives the identifier,
/// for every identifier in canonical form.
pub proof fn lemma_id_bytes_roundtrip(id: ChunkId)
    requires
        id_is_canonical(id),
    ensures
        id_from_seq(id_bytes(id)) == id,
{
    let b: [u8; 4] = match id {
        ChunkId::Meta => [0x4Du8, 0x45, 0x54, 0x41],
        ChunkId::Vec => [0x56u8, 0x45, 0x43, 0x5F],
        ChunkId::Lat => [0x4Cu8, 0x41, 0x54, 0x5F],
        ChunkId::Res => [0x52u8, 0x45, 0x53, 0x5F],
        ChunkId::Depth => [0x44u8, 0x50, 0x54, 0x48],
        ChunkId::Sig => [0x53u8, 0x49, 0x47, 0x42],
        ChunkId::ObjManifest => [0x4Fu8, 0x42, 0x4A, 0x4D],
        ChunkId::Preview => [0x50u8, 0x52, 0x45, 0x56],
        ChunkId::Unknown(b) => b,
    };
    assert(b@ =~= id_bytes(id));
    assert(id_bytes(id).subrange(0, 4) =~= id_bytes(id));
    lemma_id_from_seq(b, id_bytes(id));
}

/// Parsing four bytes and serialising the identifier gives back the bytes.
pub proof fn lemma_from_bytes_to_bytes(b: [u8; 4])
    ensures
        id_bytes(id_from_bytes(b)) == b@,
        id_is_canonical(id_from_bytes(b)),
{
}

/// A chunk's view: its identifier, flags and data bytes.
pub struct ChunkModel {
    pub id: ChunkId,
    pub flags: u16,
    pub data: Seq<u8>,
}

/// A single atom chunk inside the `.aFix` PAYLOAD.
#[derive(Debug, Clone)]
pub struct Chunk {
    /// Four-byte chunk identifier.
    pub id: ChunkId,
    /// Chunk flags (bit 0 = AES-256-GCM encrypted).
    pub flags: u16,
    /// Raw chunk data (already CRC-validated on read).
    pub data: Vec<u8>,
}

impl View for Chunk {
    type V = ChunkModel;

    open spec fn view(&self) -> ChunkModel {
        ChunkModel { id: self.id, flags: self.flags, data: self.data@ }
    }
}

impl Chunk {
    /// Returns `true` if this chunk is marked as AES-256-GCM encrypted (flag bit 0).
    pub fn is_encrypted(&self) -> (r: bool)
        ensures
            r == (self.flags % 2 == 1),
    {
        let f = self.flags;
        assert((f & 1u16 != 0) == (f % 2 == 1)) by (bit_vector);
        f & 0x0001 != 0
    }
}

} // verus!
