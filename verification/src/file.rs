//! The `.aFix` container: a header, an ATOM_MAP and a PAYLOAD of atom chunks.
//!
//! ```text
//! ┌────────────────────────────────┐
//! │  HEADER  (33 bytes)            │
//! │    Magic "AFIXK" (5 B)         │
//! │    Version VSN_ (4 B)          │
//! │    Dimensions DESC (24 B)      │
//! ├────────────────────────────────┤
//! │  ATOM_MAP (144 bytes)          │
//! │    6 × 24-byte chunk pointers  │
//! ├────────────────────────────────┤
//! │  PAYLOAD (variable)            │
//! │    Atom chunks (see ChunkId)   │
//! └────────────────────────────────┘
//! ```
//!
//! Each PAYLOAD chunk is `id (4 B) | length (u32 LE) | flags (u16 LE) |
//! reserved (2 B) | data | CRC-32 of data (u32 LE)`.

use vstd::prelude::*;

use crate::bytes::{
    le_u16, le_u32, le_u64, push_u16_le, push_u32_le, push_u64_le, read_u16_le, read_u32_le,
    read_u64_le, u16_le_bytes, u32_le_bytes, u64_le_bytes, lemma_u16_roundtrip, lemma_u32_roundtrip,
    lemma_u64_roundtrip,
};
use crate::chunk::{
    array4_of, id_bytes, id_is_canonical, lemma_id_bytes_roundtrip, id_from_bytes, id_from_seq, lemma_id_from_seq, Chunk, ChunkId, ChunkModel,
};
use crate::crc::{crc32_ieee, crc32_of};
use crate::error::AfixError;
use crate::header::{AfixHeader, Dimensions, Version};
use crate::profile::Profile;

verus! {

/// Magic bytes at the start of every `.aFix` file (`AFIXK` in ASCII).
pub const MAGIC: [u8; 5] = [0x41, 0x46, 0x49, 0x58, 0x4B];

/// Byte offset where the header ends and ATOM_MAP begins (`0x21`).
pub const ATOM_MAP_OFFSET: u64 = 0x21;

/// Size of the ATOM_MAP in bytes (144 B = 6 × 24 B).
pub const ATOM_MAP_SIZE: usize = 144;

/// Byte offset where the PAYLOAD begins (`0xB1`).
pub const PAYLOAD_OFFSET: u64 = 0xB1;

/// Each atom-map entry is 24 bytes: stream_id (4B) + byte_offset (8B) + byte_length (8B) + checksum (4B).
pub const ATOM_ENTRY_SIZE: usize = 24;

/// Maximum number of atom-map entries.
pub const MAX_ATOM_ENTRIES: usize = 6;

/// Largest chunk a reader accepts (512 MB); larger length fields are rejected.
pub const MAX_CHUNK_SIZE: usize = 536870912;

// ── The model ────────────────────────────────────────────────────────────────

/// The view of a parsed file: its header and the views of its chunks.
pub struct AfixModel {
    pub header: AfixHeader,
    pub chunks: Seq<ChunkModel>,
}

/// A parsed `.aFix` file containing a header and a list of atom chunks.
#[derive(Debug, Clone)]
pub struct AfixFile {
    pub header: AfixHeader,
    pub chunks: Vec<Chunk>,
}

impl View for AfixFile {
    type V = AfixModel;

    open spec fn view(&self) -> AfixModel {
        AfixModel { header: self.header, chunks: self.chunks@.map_values(|c: Chunk| c@) }
    }
}

// ── The byte format, read side ───────────────────────────────────────────────

/// The magic bytes as a sequence.
pub open spec fn magic_bytes() -> Seq<u8> {
    seq![0x41u8, 0x46, 0x49, 0x58, 0x4B]
}

/// The header fields stored in the first 33 bytes of `b`.
pub open spec fn header_of(b: Seq<u8>) -> AfixHeader {
    AfixHeader {
        version: Version { major: b[5], minor: b[6], patch: b[7], flag: b[8] },
        dimensions: Dimensions {
            width_bits: le_u64(b, 9) as u64,
            height_bits: le_u64(b, 17) as u64,
        },
    }
}

/// The chunk whose 12-byte chunk header starts at `b[pos]`.
pub open spec fn chunk_model_at(b: Seq<u8>, pos: int) -> ChunkModel {
    ChunkModel {
        id: id_from_seq(b.subrange(pos, pos + 4)),
        flags: le_u16(b, pos + 8) as u16,
        data: b.subrange(pos + 12, pos + 12 + le_u32(b, pos + 4)),
    }
}

/// The chunks of the PAYLOAD from `b[pos]` on, or the error that stops a
/// reader there. Fewer than four bytes left end the PAYLOAD cleanly.
#[verifier::opaque]
pub open spec fn parse_chunks(b: Seq<u8>, pos: int) -> Result<Seq<ChunkModel>, AfixError>
    decreases b.len() - pos,
{
    if pos < 0 || pos + 4 > b.len() {
        Ok(Seq::empty())
    } else if pos + 12 > b.len() {
        Err(AfixError::UnexpectedEof)
    } else {
        let len = le_u32(b, pos + 4);
        if len > MAX_CHUNK_SIZE {
            Err(AfixError::ChunkTooLarge(len as usize))
        } else if pos + 16 + len > b.len() {
            Err(AfixError::UnexpectedEof)
        } else {
            let data = b.subrange(pos + 12, pos + 12 + len);
            let stored = le_u32(b, pos + 12 + len) as u32;
            if stored != crc32_ieee(data) {
                Err(
                    AfixError::CrcMismatch {
                        id: array4_of(b.subrange(pos, pos + 4)),
                        stored,
                        computed: crc32_ieee(data),
                    },
                )
            } else {
                prefixed(seq![chunk_model_at(b, pos)], parse_chunks(b, pos + 16 + len))
            }
        }
    }
}

/// `r` with `done` put in front of its chunks.
pub open spec fn prefixed(done: Seq<ChunkModel>, r: Result<Seq<ChunkModel>, AfixError>) -> Result<
    Seq<ChunkModel>,
    AfixError,
> {
    match r {
        Ok(rest) => Ok(done + rest),
        Err(e) => Err(e),
    }
}

/// The offset field of ATOM_MAP entry `k` of `b`.
pub open spec fn entry_offset(b: Seq<u8>, k: int) -> int {
    le_u64(b, ATOM_MAP_OFFSET + ATOM_ENTRY_SIZE * k + 4)
}

/// The data-length field of ATOM_MAP entry `k` of `b`.
pub open spec fn entry_length(b: Seq<u8>, k: int) -> int {
    le_u64(b, ATOM_MAP_OFFSET + ATOM_ENTRY_SIZE * k + 12)
}

/// Where the chunk that ATOM_MAP entry `k` points to ends: after its
/// 12-byte chunk header, its data and its 4-byte CRC.
pub open spec fn entry_end(b: Seq<u8>, k: int) -> int {
    entry_offset(b, k) + 16 + entry_length(b, k)
}

/// Whether ATOM_MAP entry `k` stays inside the PAYLOAD: it is unused (offset
/// 0), or the chunk it points to starts at or after the PAYLOAD and ends
/// within the file.
pub open spec fn entry_in_bounds(b: Seq<u8>, k: int) -> bool {
    entry_offset(b, k) == 0 || (PAYLOAD_OFFSET <= entry_offset(b, k) && entry_end(b, k) <= b.len())
}

/// Whether ATOM_MAP entries `j` and `k` are both in use and point to chunks
/// that share a byte.
pub open spec fn entries_overlap(b: Seq<u8>, j: int, k: int) -> bool {
    &&& entry_offset(b, j) != 0
    &&& entry_offset(b, k) != 0
    &&& entry_offset(b, j) < entry_end(b, k)
    &&& entry_offset(b, k) < entry_end(b, j)
}

/// Whether every ATOM_MAP entry of `b` stays inside the PAYLOAD and no two
/// point to overlapping chunks.
pub open spec fn atom_map_valid(b: Seq<u8>) -> bool {
    &&& forall|k: int| 0 <= k < MAX_ATOM_ENTRIES ==> #[trigger] entry_in_bounds(b, k)
    &&& forall|j: int, k: int|
        0 <= j < k < MAX_ATOM_ENTRIES ==> !#[trigger] entries_overlap(b, j, k)
}

/// The index of the first chunk of `cs` with identifier `id`; the number of
/// chunks where none has it.
pub open spec fn first_index(cs: Seq<ChunkModel>, id: ChunkId) -> int
    decreases cs.len(),
{
    if cs.len() == 0 {
        0
    } else if cs[0].id == id {
        0
    } else {
        1 + first_index(cs.drop_first(), id)
    }
}

/// `first_index` is the least index of a chunk with the identifier, or the
/// number of chunks where there is none.
pub proof fn lemma_first_index(cs: Seq<ChunkModel>, id: ChunkId)
    ensures
        0 <= first_index(cs, id) <= cs.len(),
        first_index(cs, id) < cs.len() ==> cs[first_index(cs, id)].id == id,
        forall|j: int| 0 <= j < first_index(cs, id) ==> #[trigger] cs[j].id != id,
    decreases cs.len(),
{
    if cs.len() > 0 && cs[0].id != id {
        let rest = cs.drop_first();
        lemma_first_index(rest, id);
        assert forall|j: int| 0 <= j < first_index(cs, id) implies #[trigger] cs[j].id != id by {
            if j > 0 {
                assert(cs[j] == rest[j - 1]);
            }
        }
    }
}

/// The chunks of a file after `add_chunk` has added `adds`, one by one, to
/// the chunks `start`.
pub open spec fn add_all(start: Seq<ChunkModel>, adds: Seq<ChunkModel>) -> Seq<ChunkModel>
    decreases adds.len(),
{
    if adds.len() == 0 {
        start
    } else {
        add_all(start, adds.drop_last()).push(adds.last())
    }
}

/// A file made by `new` and then any number of `add_chunk` calls holds the
/// added chunks in the order of the calls, under the header that `new` made;
/// `get_chunk` then finds, for any identifier, the first added chunk with
/// that identifier, or nothing where no added chunk has it.
pub proof fn lemma_find_after_adds(width_bits: u64, height_bits: u64, adds: Seq<ChunkModel>, id: ChunkId)
    ensures
        ({
            let made = AfixModel {
                header: AfixHeader {
                    version: Version { major: 1, minor: 0, patch: 4, flag: 0 },
                    dimensions: Dimensions { width_bits, height_bits },
                },
                chunks: add_all(Seq::empty(), adds),
            };
            let k = first_index(made.chunks, id);
            &&& made.chunks == adds
            &&& 0 <= k <= adds.len()
            &&& k < adds.len() ==> adds[k].id == id
            &&& forall|j: int| 0 <= j < k ==> #[trigger] adds[j].id != id
        }),
    decreases adds.len(),
{
    if adds.len() > 0 {
        lemma_find_after_adds(width_bits, height_bits, adds.drop_last(), id);
        assert(add_all(Seq::empty(), adds.drop_last()).push(adds.last()) =~= adds);
    } else {
        assert(add_all(Seq::empty(), adds) =~= adds);
    }
    lemma_first_index(adds, id);
}

/// What reading the bytes `b` gives: the parsed file, or the first error.
/// The PAYLOAD is read first; a file whose PAYLOAD reads cleanly is then
/// refused where its ATOM_MAP points outside the PAYLOAD or to overlapping
/// chunks.
pub open spec fn parse_afix(b: Seq<u8>) -> Result<AfixModel, AfixError> {
    if b.len() < 5 {
        Err(AfixError::UnexpectedEof)
    } else if b.subrange(0, 5) != magic_bytes() {
        Err(AfixError::InvalidMagic(array5_of(b.subrange(0, 5))))
    } else if b.len() < PAYLOAD_OFFSET {
        Err(AfixError::UnexpectedEof)
    } else {
        match parse_chunks(b, PAYLOAD_OFFSET as int) {
            Ok(cs) => if atom_map_valid(b) {
                Ok(AfixModel { header: header_of(b), chunks: cs })
            } else {
                Err(AfixError::InvalidAtomMap)
            },
            Err(e) => Err(e),
        }
    }
}

/// The view of a read result.
pub open spec fn read_result_view(r: Result<AfixFile, AfixError>) -> Result<AfixModel, AfixError> {
    match r {
        Ok(f) => Ok(f@),
        Err(e) => Err(e),
    }
}

// ── The byte format, write side ──────────────────────────────────────────────

/// The 33 header bytes of `h`.
pub open spec fn header_bytes(h: AfixHeader) -> Seq<u8> {
    magic_bytes() + seq![h.version.major, h.version.minor, h.version.patch, h.version.flag]
        + u64_le_bytes(h.dimensions.width_bits) + u64_le_bytes(h.dimensions.height_bits)
        + Seq::new(8, |i: int| 0u8)
}

/// The PAYLOAD bytes of one chunk; its length field holds the data length
/// truncated to 32 bits.
pub open spec fn chunk_bytes(c: ChunkModel) -> Seq<u8> {
    id_bytes(c.id) + u32_le_bytes((c.data.len() % 4294967296) as u32) + u16_le_bytes(c.flags)
        + u16_le_bytes(0) + c.data + u32_le_bytes(crc32_ieee(c.data))
}

/// The PAYLOAD bytes of a sequence of chunks.
#[verifier::opaque]
pub open spec fn payload_bytes(cs: Seq<ChunkModel>) -> Seq<u8>
    decreases cs.len(),
{
    if cs.len() == 0 {
        Seq::empty()
    } else {
        payload_bytes(cs.drop_last()) + chunk_bytes(cs.last())
    }
}

/// The ATOM_MAP entry for chunk `c` stored at byte `offset`.
pub open spec fn atom_entry(c: ChunkModel, offset: int) -> Seq<u8> {
    id_bytes(c.id) + u64_le_bytes(offset as u64) + u64_le_bytes(c.data.len() as u64) + u32_le_bytes(
        crc32_ieee(c.data),
    )
}

/// Byte offset in the file of the PAYLOAD chunk `i` of `cs`.
pub open spec fn chunk_offset(cs: Seq<ChunkModel>, i: int) -> int {
    PAYLOAD_OFFSET + payload_bytes(cs.take(i)).len()
}

/// The ATOM_MAP entries of the first `k` chunks.
pub open spec fn atom_entries(cs: Seq<ChunkModel>, k: int) -> Seq<u8>
    decreases k,
{
    if k <= 0 {
        Seq::empty()
    } else {
        atom_entries(cs, k - 1) + atom_entry(cs[k - 1], chunk_offset(cs, k - 1))
    }
}

/// How many chunks the ATOM_MAP points to.
pub open spec fn atom_count(cs: Seq<ChunkModel>) -> int {
    if cs.len() < MAX_ATOM_ENTRIES {
        cs.len() as int
    } else {
        MAX_ATOM_ENTRIES as int
    }
}

/// The 144 ATOM_MAP bytes: one entry per chunk for the first six chunks,
/// zeros after them.
pub open spec fn atom_map_bytes(cs: Seq<ChunkModel>) -> Seq<u8> {
    atom_entries(cs, atom_count(cs)) + Seq::new(
        (ATOM_MAP_SIZE - ATOM_ENTRY_SIZE * atom_count(cs)) as nat,
        |i: int| 0u8,
    )
}

/// The bytes that writing `f` produces.
#[verifier::opaque]
pub open spec fn afix_bytes(f: AfixModel) -> Seq<u8> {
    header_bytes(f.header) + atom_map_bytes(f.chunks) + payload_bytes(f.chunks)
}

/// The number of bytes that writing a file with these chunks produces.
pub open spec fn encoded_len(cs: Seq<ChunkModel>) -> int {
    PAYLOAD_OFFSET + payload_bytes(cs).len()
}

// ── Lemmas on the format ─────────────────────────────────────────────────────

/// The length of a chunk's PAYLOAD bytes.
proof fn lemma_chunk_bytes_len(c: ChunkModel)
    ensures
        chunk_bytes(c).len() == 16 + c.data.len(),
{
}

/// The PAYLOAD of a prefix is a prefix of the PAYLOAD, and one more chunk adds
/// its own bytes.
proof fn lemma_payload_take(cs: Seq<ChunkModel>, i: int)
    requires
        0 <= i < cs.len(),
    ensures
        payload_bytes(cs.take(i + 1)) == payload_bytes(cs.take(i)) + chunk_bytes(cs[i]),
        payload_bytes(cs.take(i + 1)).len() == payload_bytes(cs.take(i)).len() + 16
            + cs[i].data.len(),
{
    reveal(payload_bytes);
    assert(cs.take(i + 1).drop_last() =~= cs.take(i));
    lemma_chunk_bytes_len(cs[i]);
}

/// The PAYLOAD of a prefix is no longer than the whole PAYLOAD.
proof fn lemma_payload_take_len(cs: Seq<ChunkModel>, i: int)
    requires
        0 <= i <= cs.len(),
    ensures
        payload_bytes(cs.take(i)).len() <= payload_bytes(cs).len(),
    decreases cs.len() - i,
{
    if i < cs.len() {
        lemma_payload_take(cs, i);
        lemma_payload_take_len(cs, i + 1);
    } else {
        assert(cs.take(i) =~= cs);
    }
}

/// The ATOM_MAP entries of `k` chunks take 24 bytes each.
proof fn lemma_atom_entries_len(cs: Seq<ChunkModel>, k: int)
    requires
        0 <= k <= cs.len(),
    ensures
        atom_entries(cs, k).len() == 24 * k,
    decreases k,
{
    if k > 0 {
        lemma_atom_entries_len(cs, k - 1);
    }
}

/// The five-byte array holding the bytes `s`.
pub open spec fn array5_of(s: Seq<u8>) -> [u8; 5] {
    choose|a: [u8; 5]| a@ == s
}

/// An array is the array holding its own bytes.
proof fn lemma_array4_of(a: [u8; 4], s: Seq<u8>)
    requires
        a@ == s,
    ensures
        array4_of(s) == a,
{
    broadcast use vstd::array::group_array_axioms;

    let x = array4_of(s);
    assert(x@ == s);
    assert(x =~= a);
}

/// An array is the array holding its own bytes.
proof fn lemma_array5_of(a: [u8; 5], s: Seq<u8>)
    requires
        a@ == s,
    ensures
        array5_of(s) == a,
{
    broadcast use vstd::array::group_array_axioms;

    let x = array5_of(s);
    assert(x@ == s);
    assert(x =~= a);
}

/// Putting chunks in front in two steps is putting them in front at once.
proof fn lemma_prefixed_push(done: Seq<ChunkModel>, m: ChunkModel, r: Result<Seq<ChunkModel>, AfixError>)
    ensures
        prefixed(done, prefixed(seq![m], r)) == prefixed(done.push(m), r),
{
    match r {
        Ok(rest) => {
            assert(done + (seq![m] + rest) =~= done.push(m) + rest);
        },
        Err(_) => {},
    }
}

/// The PAYLOAD of a non-empty sequence of chunks starts with the bytes of its
/// first chunk.
proof fn lemma_payload_front(cs: Seq<ChunkModel>)
    requires
        cs.len() > 0,
    ensures
        payload_bytes(cs) == chunk_bytes(cs[0]) + payload_bytes(cs.drop_first()),
    decreases cs.len(),
{
    reveal(payload_bytes);
    if cs.len() == 1 {
        assert(cs.drop_last() =~= Seq::<ChunkModel>::empty());
        assert(cs.drop_first() =~= Seq::<ChunkModel>::empty());
        assert(payload_bytes(cs) =~= chunk_bytes(cs[0]) + payload_bytes(cs.drop_first()));
    } else {
        let d = cs.drop_last();
        lemma_payload_front(d);
        assert(d.drop_first() =~= cs.drop_first().drop_last());
        assert(cs.drop_first().last() == cs.last());
        assert(d[0] == cs[0]);
        assert(payload_bytes(cs) =~= chunk_bytes(cs[0]) + payload_bytes(cs.drop_first()));
    }
}

/// A chunk that a reader takes back as it was written: its data fits the
/// reader's size cap and its identifier is in canonical form.
pub open spec fn chunk_reads_back(c: ChunkModel) -> bool {
    c.data.len() <= MAX_CHUNK_SIZE && id_is_canonical(c.id)
}

/// The fields of a chunk read back from where its bytes were written.
proof fn lemma_chunk_fields(b: Seq<u8>, p: int, c: ChunkModel)
    requires
        0 <= p,
        p + 16 + c.data.len() <= b.len(),
        b.subrange(p, p + 16 + c.data.len()) == chunk_bytes(c),
        chunk_reads_back(c),
    ensures
        le_u32(b, p + 4) == c.data.len(),
        le_u32(b, p + 12 + c.data.len()) == crc32_ieee(c.data),
        b.subrange(p + 12, p + 12 + c.data.len()) == c.data,
        chunk_model_at(b, p) == c,
{
    let cb = chunk_bytes(c);
    let len = c.data.len() as int;
    assert(b.subrange(p, p + 4) =~= cb.subrange(0, 4));
    assert(cb.subrange(0, 4) =~= id_bytes(c.id));
    lemma_id_bytes_roundtrip(c.id);
    assert(id_bytes(c.id).subrange(0, 4) =~= id_bytes(c.id));
    assert(b.subrange(p + 4, p + 8) =~= cb.subrange(4, 8));
    assert(cb.subrange(4, 8) =~= u32_le_bytes((len % 4294967296) as u32));
    lemma_u32_roundtrip((len % 4294967296) as u32, b, p + 4);
    assert(b.subrange(p + 8, p + 10) =~= cb.subrange(8, 10));
    assert(cb.subrange(8, 10) =~= u16_le_bytes(c.flags));
    lemma_u16_roundtrip(c.flags, b, p + 8);
    assert(b.subrange(p + 12, p + 12 + len) =~= cb.subrange(12, 12 + len));
    assert(cb.subrange(12, 12 + len) =~= c.data);
    assert(b.subrange(p + 12 + len, p + 16 + len) =~= cb.subrange(12 + len, 16 + len));
    assert(cb.subrange(12 + len, 16 + len) =~= u32_le_bytes(crc32_ieee(c.data)));
    lemma_u32_roundtrip(crc32_ieee(c.data), b, p + 12 + len);
}

/// One step of reading: a chunk's bytes at `p` are read as that chunk, and
/// reading goes on after them.
proof fn lemma_parse_step(b: Seq<u8>, p: int, c: ChunkModel)
    requires
        0 <= p,
        p + 16 + c.data.len() <= b.len(),
        b.subrange(p, p + 16 + c.data.len()) == chunk_bytes(c),
        chunk_reads_back(c),
    ensures
        parse_chunks(b, p) == prefixed(seq![c], parse_chunks(b, p + 16 + c.data.len())),
{
    reveal(parse_chunks);
    lemma_chunk_fields(b, p, c);
}

/// Bytes followed by a PAYLOAD are the bytes, the first chunk, and the rest.
proof fn lemma_split_payload(x: Seq<u8>, cs: Seq<ChunkModel>)
    requires
        cs.len() > 0,
    ensures
        x + payload_bytes(cs) == (x + chunk_bytes(cs[0])) + payload_bytes(cs.drop_first()),
        (x + payload_bytes(cs)).subrange(x.len() as int, x.len() + 16 + cs[0].data.len() as int)
            == chunk_bytes(cs[0]),
        x.len() + 16 + cs[0].data.len() <= (x + payload_bytes(cs)).len(),
        (x + chunk_bytes(cs[0])).len() == x.len() + 16 + cs[0].data.len(),
{
    lemma_payload_front(cs);
    lemma_chunk_bytes_len(cs[0]);
    let b = x + payload_bytes(cs);
    assert(b =~= (x + chunk_bytes(cs[0])) + payload_bytes(cs.drop_first()));
    assert(b.subrange(x.len() as int, x.len() + 16 + cs[0].data.len() as int) =~= chunk_bytes(cs[0]));
}

/// A non-empty sequence is its first element followed by the rest.
proof fn lemma_first_rest(cs: Seq<ChunkModel>)
    requires
        cs.len() > 0,
    ensures
        seq![cs[0]] + cs.drop_first() == cs,
{
    assert(seq![cs[0]] + cs.drop_first() =~= cs);
}

/// `payload_bytes` of no chunks is empty, and reading stops cleanly where
/// fewer than four bytes are left.
proof fn lemma_empty_cases(b: Seq<u8>, pos: int)
    ensures
        payload_bytes(Seq::<ChunkModel>::empty()) == Seq::<u8>::empty(),
        pos + 4 > b.len() ==> parse_chunks(b, pos) == Ok::<Seq<ChunkModel>, AfixError>(
            Seq::empty(),
        ),
{
    reveal(payload_bytes);
    reveal(parse_chunks);
}

/// Reading the PAYLOAD bytes of `cs`, placed after any bytes `x`, gives `cs`.
proof fn lemma_parse_payload(x: Seq<u8>, cs: Seq<ChunkModel>)
    requires
        forall|i: int| 0 <= i < cs.len() ==> chunk_reads_back(#[trigger] cs[i]),
    ensures
        parse_chunks(x + payload_bytes(cs), x.len() as int) == Ok::<Seq<ChunkModel>, AfixError>(
            cs,
        ),
    decreases cs.len(),
{
    if cs.len() == 0 {
        lemma_empty_cases(x, x.len() as int);
        assert(cs =~= Seq::<ChunkModel>::empty());
        assert(x + payload_bytes(cs) =~= x);
    } else {
        let c = cs[0];
        assert(chunk_reads_back(c));
        let rest = cs.drop_first();
        lemma_split_payload(x, cs);
        lemma_parse_step(x + payload_bytes(cs), x.len() as int, c);
        assert forall|i: int| 0 <= i < rest.len() implies chunk_reads_back(#[trigger] rest[i]) by {
            assert(rest[i] == cs[i + 1]);
        }
        lemma_parse_payload(x + chunk_bytes(c), rest);
        lemma_first_rest(cs);

    }
}

/// The lengths of the header and of the ATOM_MAP.
proof fn lemma_prefix_lens(f: AfixModel)
    ensures
        header_bytes(f.header).len() == 33,
        atom_map_bytes(f.chunks).len() == 144,
{
    lemma_atom_entries_len(f.chunks, atom_count(f.chunks));
}

/// Chunk offsets grow: chunk `j` ends where chunk `j + 1` starts, at or
/// before the start of any later chunk.
proof fn lemma_offsets_grow(cs: Seq<ChunkModel>, j: int, k: int)
    requires
        0 <= j < k < cs.len(),
    ensures
        chunk_offset(cs, j) + 16 + cs[j].data.len() <= chunk_offset(cs, k),
{
    lemma_payload_take(cs, j);
    let t = cs.take(k);
    lemma_payload_prefix(t, j + 1);
    assert(t.take(j + 1) =~= cs.take(j + 1));
    assert(t =~= cs.take(k));
}

/// The unused entries of a written ATOM_MAP are zeros.
proof fn lemma_unused_entry(f: AfixModel, k: int)
    requires
        atom_count(f.chunks) <= k < MAX_ATOM_ENTRIES,
    ensures
        entry_offset(afix_bytes(f), k) == 0,
{
    reveal(afix_bytes);
    let cs = f.chunks;
    let ac = atom_count(cs);
    lemma_prefix_lens(f);
    lemma_atom_entries_len(cs, ac);
    let b = afix_bytes(f);
    let p = 33 + 24 * k + 4;
    assert forall|t: int| p <= t < p + 8 implies b[t] == 0u8 by {
        assert(b[t] == atom_map_bytes(cs)[t - 33]);
    }
}

/// A written ATOM_MAP stays inside the PAYLOAD, and its entries point to
/// chunks one after another.
proof fn lemma_written_atom_map_valid(f: AfixModel)
    requires
        encoded_len(f.chunks) <= u64::MAX,
    ensures
        atom_map_valid(afix_bytes(f)),
{
    let cs = f.chunks;
    let b = afix_bytes(f);
    let ac = atom_count(cs);
    assert forall|k: int| 0 <= k < ac implies entry_offset(b, k) == chunk_offset(cs, k)
        && entry_length(b, k) == cs[k].data.len() && entry_end(b, k) <= b.len() by {
        lemma_atom_entry_fields(f, k);
        lemma_chunk_at_offset(f, k);
    }
    assert forall|k: int| 0 <= k < MAX_ATOM_ENTRIES implies #[trigger] entry_in_bounds(b, k) by {
        if k < ac {
            assert(entry_offset(b, k) == chunk_offset(cs, k));
        } else {
            lemma_unused_entry(f, k);
        }
    }
    assert forall|j: int, k: int| 0 <= j < k < MAX_ATOM_ENTRIES implies !#[trigger] entries_overlap(
        b,
        j,
        k,
    ) by {
        if k < ac {
            lemma_offsets_grow(cs, j, k);
            assert(entry_offset(b, j) == chunk_offset(cs, j));
            assert(entry_offset(b, k) == chunk_offset(cs, k));
        } else {
            lemma_unused_entry(f, k);
        }
    }
}

/// Reading the bytes that writing a file produces gives back the file: its
/// header and each of its chunks (identifier, flags and data), in order. This
/// holds for every file that `write` takes (its length fits in a `u64`) whose
/// chunks are at most 512 MB each and carry identifiers in canonical form.
pub proof fn lemma_read_after_write(f: AfixModel)
    requires
        encoded_len(f.chunks) <= u64::MAX,
        forall|i: int| 0 <= i < f.chunks.len() ==> chunk_reads_back(#[trigger] f.chunks[i]),
    ensures
        parse_afix(afix_bytes(f)) == Ok::<AfixModel, AfixError>(f),
{
    reveal(afix_bytes);
    let h = header_bytes(f.header);
    let a = atom_map_bytes(f.chunks);
    let b = afix_bytes(f);
    lemma_prefix_lens(f);
    assert(b =~= (h + a) + payload_bytes(f.chunks));
    assert(b.subrange(0, 33) =~= h);
    assert(b.subrange(0, 5) =~= magic_bytes());
    assert(b.subrange(9, 17) =~= u64_le_bytes(f.header.dimensions.width_bits));
    assert(b.subrange(17, 25) =~= u64_le_bytes(f.header.dimensions.height_bits));
    lemma_u64_roundtrip(f.header.dimensions.width_bits, b, 9);
    lemma_u64_roundtrip(f.header.dimensions.height_bits, b, 17);
    assert(header_of(b) == f.header);
    lemma_parse_payload(h + a, f.chunks);
    lemma_written_atom_map_valid(f);
}

/// The PAYLOAD of the first `j` chunks is a prefix of the whole PAYLOAD.
proof fn lemma_payload_prefix(cs: Seq<ChunkModel>, j: int)
    requires
        0 <= j <= cs.len(),
    ensures
        payload_bytes(cs.take(j)).len() <= payload_bytes(cs).len(),
        payload_bytes(cs).subrange(0, payload_bytes(cs.take(j)).len() as int) == payload_bytes(
            cs.take(j),
        ),
    decreases cs.len() - j,
{
    if j == cs.len() {
        assert(cs.take(j) =~= cs);
        assert(payload_bytes(cs).subrange(0, payload_bytes(cs).len() as int) =~= payload_bytes(cs));
    } else {
        lemma_payload_prefix(cs, j + 1);
        lemma_payload_take(cs, j);
        let pj = payload_bytes(cs.take(j));
        let pj1 = payload_bytes(cs.take(j + 1));
        assert(pj1.subrange(0, pj.len() as int) =~= pj);
        assert(payload_bytes(cs).subrange(0, pj.len() as int) =~= pj1.subrange(0, pj.len() as int));
    }
}

/// Entry `i` of the ATOM_MAP sits at bytes `24 i .. 24 i + 24` of the entries.
proof fn lemma_atom_entry_at(cs: Seq<ChunkModel>, k: int, i: int)
    requires
        0 <= i < k <= cs.len(),
    ensures
        atom_entries(cs, k).subrange(24 * i, 24 * i + 24) == atom_entry(cs[i], chunk_offset(cs, i)),
    decreases k,
{
    lemma_atom_entries_len(cs, k - 1);
    if i == k - 1 {
        assert(atom_entries(cs, k).subrange(24 * i, 24 * i + 24) =~= atom_entry(
            cs[i],
            chunk_offset(cs, i),
        ));
    } else {
        lemma_atom_entry_at(cs, k - 1, i);
        assert(atom_entries(cs, k).subrange(24 * i, 24 * i + 24) =~= atom_entries(
            cs,
            k - 1,
        ).subrange(24 * i, 24 * i + 24));
    }
}

/// The fields of an ATOM_MAP entry read back from where it was written.
proof fn lemma_entry_fields(b: Seq<u8>, e: int, c: ChunkModel, off: int)
    requires
        0 <= e,
        e + 24 <= b.len(),
        0 <= off <= u64::MAX,
        b.subrange(e, e + 24) == atom_entry(c, off),
    ensures
        b.subrange(e, e + 4) == id_bytes(c.id),
        le_u64(b, e + 4) == off,
        le_u64(b, e + 12) == c.data.len() as u64,
        le_u32(b, e + 20) == crc32_ieee(c.data),
{
    let entry = atom_entry(c, off);
    assert(b.subrange(e, e + 4) =~= entry.subrange(0, 4));
    assert(entry.subrange(0, 4) =~= id_bytes(c.id));
    assert(b.subrange(e + 4, e + 12) =~= entry.subrange(4, 12));
    assert(entry.subrange(4, 12) =~= u64_le_bytes(off as u64));
    lemma_u64_roundtrip(off as u64, b, e + 4);
    assert(b.subrange(e + 12, e + 20) =~= entry.subrange(12, 20));
    assert(entry.subrange(12, 20) =~= u64_le_bytes(c.data.len() as u64));
    lemma_u64_roundtrip(c.data.len() as u64, b, e + 12);
    assert(b.subrange(e + 20, e + 24) =~= entry.subrange(20, 24));
    assert(entry.subrange(20, 24) =~= u32_le_bytes(crc32_ieee(c.data)));
    lemma_u32_roundtrip(crc32_ieee(c.data), b, e + 20);
}

/// Entry `i` of the written ATOM_MAP is the entry of chunk `i`.
proof fn lemma_entry_written(f: AfixModel, i: int)
    requires
        0 <= i < atom_count(f.chunks),
    ensures
        33 + 24 * i + 24 <= afix_bytes(f).len(),
        afix_bytes(f).subrange(33 + 24 * i, 33 + 24 * i + 24) == atom_entry(
            f.chunks[i],
            chunk_offset(f.chunks, i),
        ),
{
    reveal(afix_bytes);
    let cs = f.chunks;
    let k = atom_count(cs);
    lemma_prefix_lens(f);
    lemma_atom_entries_len(cs, k);
    lemma_atom_entry_at(cs, k, i);
    let b = afix_bytes(f);
    let ae = atom_entries(cs, k);
    assert(b.subrange(33 + 24 * i, 33 + 24 * i + 24) =~= ae.subrange(24 * i, 24 * i + 24));
}

/// Entry `i` of the written ATOM_MAP holds chunk `i`'s identifier, offset,
/// data length and CRC-32.
proof fn lemma_atom_entry_fields(f: AfixModel, i: int)
    requires
        encoded_len(f.chunks) <= u64::MAX,
        0 <= i < atom_count(f.chunks),
    ensures
        ({
            let b = afix_bytes(f);
            let c = f.chunks[i];
            let e = 33 + 24 * i;
            &&& e + 24 <= b.len()
            &&& b.subrange(e, e + 4) == id_bytes(c.id)
            &&& le_u64(b, e + 4) == chunk_offset(f.chunks, i)
            &&& le_u64(b, e + 12) == c.data.len()
            &&& le_u32(b, e + 20) == crc32_ieee(c.data)
        }),
{
    let cs = f.chunks;
    lemma_payload_take(cs, i);
    lemma_payload_take_len(cs, i + 1);
    let off = chunk_offset(cs, i);
    assert(0 <= off <= u64::MAX);
    assert(cs[i].data.len() <= u64::MAX);
    lemma_entry_written(f, i);
    lemma_entry_fields(afix_bytes(f), 33 + 24 * i, cs[i], off);
}

/// The written bytes of chunk `i` start at its offset.
proof fn lemma_chunk_at_offset(f: AfixModel, i: int)
    requires
        0 <= i < f.chunks.len(),
    ensures
        ({
            let b = afix_bytes(f);
            let c = f.chunks[i];
            let off = chunk_offset(f.chunks, i);
            &&& off + 16 + c.data.len() <= b.len()
            &&& b.subrange(off, off + 16 + c.data.len()) == chunk_bytes(c)
        }),
{
    reveal(afix_bytes);
    let cs = f.chunks;
    let b = afix_bytes(f);
    let c = cs[i];
    let off = chunk_offset(cs, i);
    lemma_prefix_lens(f);
    lemma_payload_take(cs, i);
    lemma_payload_prefix(cs, i + 1);
    lemma_chunk_bytes_len(c);
    let p = payload_bytes(cs);
    let pi = payload_bytes(cs.take(i));
    let pi1 = payload_bytes(cs.take(i + 1));
    assert(pi1.subrange(pi.len() as int, pi1.len() as int) =~= chunk_bytes(c));
    assert(b.subrange(off, off + 16 + c.data.len()) =~= p.subrange(
        pi.len() as int,
        pi1.len() as int,
    ));
    assert(p.subrange(pi.len() as int, pi1.len() as int) =~= pi1.subrange(
        pi.len() as int,
        pi1.len() as int,
    ));
}

/// The ATOM_MAP of written bytes locates the chunks: entry `i`, for each of
/// the first six chunks, holds the chunk's identifier, the offset in the file
/// where the chunk's bytes start, its data length and the CRC-32 of its data;
/// and at that offset the file holds the chunk's identifier, with its data
/// twelve bytes further on.
pub proof fn lemma_atom_map_locates_chunks(f: AfixModel, i: int)
    requires
        encoded_len(f.chunks) <= u64::MAX,
        0 <= i < atom_count(f.chunks),
    ensures
        ({
            let b = afix_bytes(f);
            let c = f.chunks[i];
            let e = ATOM_MAP_OFFSET + ATOM_ENTRY_SIZE * i;
            let off = le_u64(b, e + 4);
            &&& b.subrange(e, e + 4) == id_bytes(c.id)
            &&& off == chunk_offset(f.chunks, i)
            &&& le_u64(b, e + 12) == c.data.len()
            &&& le_u32(b, e + 20) == crc32_ieee(c.data)
            &&& off + 16 + c.data.len() <= b.len()
            &&& b.subrange(off, off + 4) == id_bytes(c.id)
            &&& b.subrange(off + 12, off + 12 + c.data.len()) == c.data
        }),
{
    let b = afix_bytes(f);
    let c = f.chunks[i];
    let off = chunk_offset(f.chunks, i);
    lemma_atom_entry_fields(f, i);
    lemma_chunk_at_offset(f, i);
    let cb = b.subrange(off, off + 16 + c.data.len());
    assert(b.subrange(off, off + 4) =~= cb.subrange(0, 4));
    assert(chunk_bytes(c).subrange(0, 4) =~= id_bytes(c.id));
    assert(b.subrange(off + 12, off + 12 + c.data.len()) =~= cb.subrange(
        12,
        12 + c.data.len() as int,
    ));
    assert(chunk_bytes(c).subrange(12, 12 + c.data.len() as int) =~= c.data);
}

// ── The file type ────────────────────────────────────────────────────────────

/// Appends `src` to `out`.
fn append_bytes(out: &mut Vec<u8>, src: &[u8])
    ensures
        final(out)@ == old(out)@ + src@,
{
    let mut i: usize = 0;
    while i < src.len()
        invariant
            i <= src@.len(),
            out@ == old(out)@ + src@.take(i as int),
        decreases src@.len() - i,
    {
        out.push(src[i]);
        i = i + 1;
        assert(src@.take(i as int) =~= src@.take(i - 1).push(src@[i - 1]));
    }
    assert(src@.take(src@.len() as int) =~= src@);
}


/// Appends `n` zero bytes to `out`.
fn push_zeros(out: &mut Vec<u8>, n: usize)
    ensures
        final(out)@ == old(out)@ + Seq::new(n as nat, |i: int| 0u8),
{
    let mut z: usize = 0;
    while z < n
        invariant
            z <= n,
            out@ == old(out)@ + Seq::new(z as nat, |i: int| 0u8),
        decreases n - z,
    {
        out.push(0u8);
        z = z + 1;
        assert(out@ =~= old(out)@ + Seq::new(z as nat, |i: int| 0u8));
    }
}

/// Appends the 33 header bytes.
fn write_header(out: &mut Vec<u8>, h: &AfixHeader)
    ensures
        final(out)@ == old(out)@ + header_bytes(*h),
{
    let ghost start = out@;
    append_bytes(out, &MAGIC);
    assert(MAGIC@ =~= magic_bytes());
    out.push(h.version.major);
    out.push(h.version.minor);
    out.push(h.version.patch);
    out.push(h.version.flag);
    push_u64_le(out, h.dimensions.width_bits);
    push_u64_le(out, h.dimensions.height_bits);
    push_zeros(out, 8);
    assert(out@ =~= start + header_bytes(*h));
}

/// Appends the 144 ATOM_MAP bytes.
fn write_atom_map(out: &mut Vec<u8>, chunks: &Vec<Chunk>)
    requires
        encoded_len(chunks@.map_values(|c: Chunk| c@)) <= u64::MAX,
    ensures
        final(out)@ == old(out)@ + atom_map_bytes(chunks@.map_values(|c: Chunk| c@)),
{
    let ghost cs = chunks@.map_values(|c: Chunk| c@);
    let ghost start = out@;
    let n = chunks.len();
    let k: usize = if n < 6 { n } else { 6 };
    let mut current_offset: u64 = 177;
    let mut i: usize = 0;
    proof {
        lemma_empty_cases(out@, 0);
        assert(cs.take(0) =~= Seq::<ChunkModel>::empty());
    }
    while i < k
        invariant
            cs == chunks@.map_values(|c: Chunk| c@),
            k == atom_count(cs),
            i <= k,
            encoded_len(cs) <= u64::MAX,
            current_offset == chunk_offset(cs, i as int),
            out@ == start + atom_entries(cs, i as int),
        decreases k - i,
    {
        let chunk = &chunks[i];
        proof {
            lemma_payload_take(cs, i as int);
            lemma_payload_take_len(cs, i + 1);
        }
        let ghost before = out@;
        let id_b = chunk.id.to_bytes();
        append_bytes(out, &id_b);
        push_u64_le(out, current_offset);
        push_u64_le(out, chunk.data.len() as u64);
        push_u32_le(out, crc32_of(chunk.data.as_slice()));
        assert(out@ =~= before + atom_entry(cs[i as int], chunk_offset(cs, i as int)));
        current_offset = current_offset + 16 + chunk.data.len() as u64;
        i = i + 1;
    }
    proof {
        lemma_atom_entries_len(cs, k as int);
    }
    push_zeros(out, 144 - 24 * k);
    assert(out@ =~= start + atom_map_bytes(cs));
}

/// Appends the PAYLOAD bytes of all chunks.
fn write_payload(out: &mut Vec<u8>, chunks: &Vec<Chunk>)
    ensures
        final(out)@ == old(out)@ + payload_bytes(chunks@.map_values(|c: Chunk| c@)),
{
    let ghost cs = chunks@.map_values(|c: Chunk| c@);
    let ghost start = out@;
    let n = chunks.len();
    let mut i: usize = 0;
    proof {
        lemma_empty_cases(out@, 0);
        assert(cs.take(0) =~= Seq::<ChunkModel>::empty());
    }
    while i < n
        invariant
            cs == chunks@.map_values(|c: Chunk| c@),
            n == cs.len(),
            i <= n,
            out@ == start + payload_bytes(cs.take(i as int)),
        decreases n - i,
    {
        let chunk = &chunks[i];
        proof {
            lemma_payload_take(cs, i as int);
        }
        let ghost before = out@;
        let id_b = chunk.id.to_bytes();
        append_bytes(out, &id_b);
        push_u32_le(out, (chunk.data.len() as u64 % 4294967296) as u32);
        push_u16_le(out, chunk.flags);
        push_u16_le(out, 0u16);
        append_bytes(out, chunk.data.as_slice());
        push_u32_le(out, crc32_of(chunk.data.as_slice()));
        assert(out@ =~= before + chunk_bytes(cs[i as int]));
        i = i + 1;
    }
    assert(cs.take(n as int) =~= cs);
}

/// Whether the ATOM_MAP of a file of at least 177 bytes stays inside the
/// PAYLOAD with no two entries pointing to overlapping chunks.
fn atom_map_ok(data: &[u8]) -> (r: bool)
    requires
        data@.len() >= PAYLOAD_OFFSET,
    ensures
        r == atom_map_valid(data@),
{
    let ghost b = data@;
    let n = data.len() as u64;
    let mut offs: Vec<u64> = Vec::new();
    let mut lens: Vec<u64> = Vec::new();
    let mut k: usize = 0;
    while k < MAX_ATOM_ENTRIES
        invariant
            b == data@,
            b.len() >= PAYLOAD_OFFSET,
            n == b.len(),
            k <= MAX_ATOM_ENTRIES,
            offs@.len() == k,
            lens@.len() == k,
            forall|i: int| 0 <= i < k ==> #[trigger] offs@[i] == entry_offset(b, i),
            forall|i: int| 0 <= i < k ==> #[trigger] lens@[i] == entry_length(b, i),
            forall|i: int| 0 <= i < k ==> #[trigger] entry_in_bounds(b, i),
        decreases MAX_ATOM_ENTRIES - k,
    {
        let off = read_u64_le(data, 37 + 24 * k);
        let len = read_u64_le(data, 45 + 24 * k);
        assert(off == entry_offset(b, k as int));
        assert(len == entry_length(b, k as int));
        if off != 0 {
            if off < 177 || off > n || n - off < 16 || len > n - off - 16 {
                assert(!entry_in_bounds(b, k as int));
                return false;
            }
        }
        offs.push(off);
        lens.push(len);
        k = k + 1;
    }
    assert(forall|i: int| 0 <= i < MAX_ATOM_ENTRIES ==> #[trigger] entry_in_bounds(b, i));
    let mut k: usize = 1;
    while k < MAX_ATOM_ENTRIES
        invariant
            b == data@,
            n == b.len(),
            1 <= k <= MAX_ATOM_ENTRIES,
            offs@.len() == MAX_ATOM_ENTRIES,
            lens@.len() == MAX_ATOM_ENTRIES,
            forall|i: int| 0 <= i < MAX_ATOM_ENTRIES ==> #[trigger] offs@[i] == entry_offset(b, i),
            forall|i: int| 0 <= i < MAX_ATOM_ENTRIES ==> #[trigger] lens@[i] == entry_length(b, i),
            forall|i: int| 0 <= i < MAX_ATOM_ENTRIES ==> #[trigger] entry_in_bounds(b, i),
            forall|i: int, j: int| 0 <= i < j < k ==> !#[trigger] entries_overlap(b, i, j),
        decreases MAX_ATOM_ENTRIES - k,
    {
        let mut j: usize = 0;
        while j < k
            invariant
                b == data@,
                n == b.len(),
                1 <= k < MAX_ATOM_ENTRIES,
                j <= k,
                offs@.len() == MAX_ATOM_ENTRIES,
                lens@.len() == MAX_ATOM_ENTRIES,
                forall|i: int| 0 <= i < MAX_ATOM_ENTRIES ==> #[trigger] offs@[i] == entry_offset(b, i),
                forall|i: int| 0 <= i < MAX_ATOM_ENTRIES ==> #[trigger] lens@[i] == entry_length(b, i),
                forall|i: int| 0 <= i < MAX_ATOM_ENTRIES ==> #[trigger] entry_in_bounds(b, i),
                forall|i: int, jj: int| 0 <= i < jj < k ==> !#[trigger] entries_overlap(b, i, jj),
                forall|i: int| 0 <= i < j ==> !#[trigger] entries_overlap(b, i, k as int),
            decreases k - j,
        {
            let oj = offs[j];
            let ok = offs[k];
            if oj != 0 && ok != 0 {
                assert(entry_in_bounds(b, j as int));
                assert(entry_in_bounds(b, k as int));
                if oj < ok + 16 + lens[k] && ok < oj + 16 + lens[j] {
                    assert(entries_overlap(b, j as int, k as int));
                    return false;
                }
            }
            j = j + 1;
        }
        k = k + 1;
    }
    true
}

impl AfixFile {
    /// Create a new, empty `.aFix` file with the given dimensions (as the bit
    /// patterns of the two doubles) at the current protocol version.
    pub fn new(width_bits: u64, height_bits: u64, _profile: Profile) -> (f: Self)
        ensures
            f@.header == (AfixHeader {
                version: Version { major: 1, minor: 0, patch: 4, flag: 0 },
                dimensions: Dimensions { width_bits, height_bits },
            }),
            f@.chunks == Seq::<ChunkModel>::empty(),
    {
        let f = AfixFile {
            header: AfixHeader {
                version: Version::current(),
                dimensions: Dimensions { width_bits, height_bits },
            },
            chunks: Vec::new(),
        };
        assert(f@.chunks =~= Seq::<ChunkModel>::empty());
        f
    }

    /// Add a chunk to the file.
    pub fn add_chunk(&mut self, chunk: Chunk)
        ensures
            final(self)@.header == old(self)@.header,
            final(self)@.chunks == old(self)@.chunks.push(chunk@),
    {
        self.chunks.push(chunk);
        assert(self@.chunks =~= old(self)@.chunks.push(chunk@));
    }

    /// Find the first chunk with the given ID, if present.
    pub fn get_chunk(&self, id: ChunkId) -> (r: Option<&Chunk>)
        ensures
            match r {
                Some(c) => exists|i: int|
                    0 <= i < self.chunks@.len() && self.chunks@[i] == *c && c.id == id && (forall|
                        j: int,
                    | 0 <= j < i ==> self.chunks@[j].id != id),
                None => forall|j: int| 0 <= j < self.chunks@.len() ==> self.chunks@[j].id != id,
            },
            match r {
                Some(c) => first_index(self@.chunks, id) < self@.chunks.len() && c@ == self@.chunks[first_index(
                    self@.chunks,
                    id,
                )],
                None => first_index(self@.chunks, id) == self@.chunks.len(),
            },
    {
        let mut i: usize = 0;
        while i < self.chunks.len()
            invariant
                i <= self.chunks@.len(),
                forall|j: int| 0 <= j < i ==> self.chunks@[j].id != id,
            decreases self.chunks@.len() - i,
        {
            if self.chunks[i].id.same_as(&id) {
                proof {
                    lemma_first_index(self@.chunks, id);
                    assert(self@.chunks[i as int].id == id);
                }
                return Some(&self.chunks[i]);
            }
            i = i + 1;
        }
        proof {
            lemma_first_index(self@.chunks, id);
            if first_index(self@.chunks, id) < self@.chunks.len() {
                assert(self@.chunks[first_index(self@.chunks, id)].id == id);
                assert(self.chunks@[first_index(self@.chunks, id)].id != id);
            }
        }
        None
    }

    /// Parse an `.aFix` file from its bytes.
    ///
    /// Reads the magic, the version and the dimensions, skips the ATOM_MAP and
    /// reads the PAYLOAD chunks one after another up to the end of the bytes,
    /// checking each chunk's CRC-32.
    pub fn read(data: &[u8]) -> (r: Result<AfixFile, AfixError>)
        ensures
            read_result_view(r) == parse_afix(data@),
    {
        broadcast use vstd::array::group_array_axioms;

        let ghost b = data@;
        // ── 1. Magic ─────────────────────────────────────────────────────────
        if data.len() < 5 {
            return Err(AfixError::UnexpectedEof);
        }
        let magic: [u8; 5] = [data[0], data[1], data[2], data[3], data[4]];
        assert(magic@ =~= b.subrange(0, 5));
        if !(magic[0] == 0x41 && magic[1] == 0x46 && magic[2] == 0x49 && magic[3] == 0x58
            && magic[4] == 0x4B) {
            proof {
                lemma_array5_of(magic, b.subrange(0, 5));
                if b.subrange(0, 5) == magic_bytes() {
                    assert(magic@[0] == magic_bytes()[0]);
                    assert(magic@[1] == magic_bytes()[1]);
                    assert(magic@[2] == magic_bytes()[2]);
                    assert(magic@[3] == magic_bytes()[3]);
                    assert(magic@[4] == magic_bytes()[4]);
                }
            }
            return Err(AfixError::InvalidMagic(magic));
        }
        assert(b.subrange(0, 5) =~= magic_bytes());
        if data.len() < 177 {
            return Err(AfixError::UnexpectedEof);
        }
        // ── 2. Version, 3. DESC ──────────────────────────────────────────────
        let header = AfixHeader {
            version: Version { major: data[5], minor: data[6], patch: data[7], flag: data[8] },
            dimensions: Dimensions {
                width_bits: read_u64_le(data, 9),
                height_bits: read_u64_le(data, 17),
            },
        };
        // ── 4. ATOM_MAP is skipped; 5. PAYLOAD ───────────────────────────────
        let mut chunks: Vec<Chunk> = Vec::new();
        let mut pos: usize = 177;
        loop
            invariant
                b == data@,
                b.subrange(0, 5) == magic_bytes(),
                177 <= pos <= data@.len(),
                parse_chunks(b, 177) == prefixed(
                    chunks@.map_values(|c: Chunk| c@),
                    parse_chunks(b, pos as int),
                ),
            ensures
                pos + 4 > data@.len(),
                177 <= pos <= data@.len(),
                parse_chunks(b, 177) == prefixed(
                    chunks@.map_values(|c: Chunk| c@),
                    parse_chunks(b, pos as int),
                ),
            decreases data@.len() - pos,
        {
            proof {
                reveal(parse_chunks);
            }
            if data.len() - pos < 4 {
                break;
            }
            if data.len() - pos < 12 {
                return Err(AfixError::UnexpectedEof);
            }
            let id_b: [u8; 4] = [data[pos], data[pos + 1], data[pos + 2], data[pos + 3]];
            assert(id_b@ =~= b.subrange(pos as int, pos + 4));
            let chunk_len = read_u32_le(data, pos + 4);
            let flags = read_u16_le(data, pos + 8);
            if chunk_len > 536870912 {
                return Err(AfixError::ChunkTooLarge(chunk_len as usize));
            }
            let len = chunk_len as usize;
            if data.len() - pos - 12 < len + 4 {
                return Err(AfixError::UnexpectedEof);
            }
            let bytes = vstd::slice::slice_to_vec(
                vstd::slice::slice_subrange(data, pos + 12, pos + 12 + len),
            );
            let stored = read_u32_le(data, pos + 12 + len);
            let computed = crc32_of(bytes.as_slice());
            if stored != computed {
                proof {
                    lemma_array4_of(id_b, b.subrange(pos as int, pos + 4));
                }
                return Err(AfixError::CrcMismatch { id: id_b, stored, computed });
            }
            let id = ChunkId::from_bytes(id_b);
            let chunk = Chunk { id, flags, data: bytes };
            proof {
                assert(b.subrange(pos as int, pos + 4).subrange(0, 4) =~= b.subrange(
                    pos as int,
                    pos + 4,
                ));
                lemma_id_from_seq(id_b, b.subrange(pos as int, pos + 4));
                assert(chunk@ == chunk_model_at(b, pos as int));
                lemma_prefixed_push(
                    chunks@.map_values(|c: Chunk| c@),
                    chunk@,
                    parse_chunks(b, pos + 16 + len),
                );
            }
            let ghost old_chunks = chunks@;
            chunks.push(chunk);
            assert(chunks@.map_values(|c: Chunk| c@) =~= old_chunks.map_values(|c: Chunk| c@).push(
                chunk@,
            ));
            pos = pos + 16 + len;
        }
        proof {
            lemma_empty_cases(b, pos as int);
            assert(prefixed(chunks@.map_values(|c: Chunk| c@), Ok(Seq::empty())) == Ok::<Seq<ChunkModel>, AfixError>(chunks@.map_values(|c: Chunk| c@)));
        }
        if !atom_map_ok(data) {
            return Err(AfixError::InvalidAtomMap);
        }
        let f = AfixFile { header, chunks };
        assert(f@.header == header_of(b));
        Ok(f)
    }

    /// The number of bytes that `write` produces, or `None` where that
    /// number does not fit in a `u64`.
    pub fn encoded_size(&self) -> (r: Option<u64>)
        ensures
            match r {
                Some(n) => n == encoded_len(self@.chunks),
                None => encoded_len(self@.chunks) > u64::MAX,
            },
    {
        let ghost cs = self@.chunks;
        let mut total: u64 = 177;
        let mut i: usize = 0;
        proof {
            lemma_empty_cases(Seq::empty(), 0);
            assert(cs.take(0) =~= Seq::<ChunkModel>::empty());
        }
        while i < self.chunks.len()
            invariant
                cs == self@.chunks,
                i <= cs.len(),
                total == PAYLOAD_OFFSET + payload_bytes(cs.take(i as int)).len(),
            decreases cs.len() - i,
        {
            proof {
                lemma_payload_take(cs, i as int);
            }
            let len = self.chunks[i].data.len() as u64;
            if total > u64::MAX - 16 || total + 16 > u64::MAX - len {
                proof {
                    lemma_payload_take_len(cs, i + 1);
                }
                return None;
            }
            total = total + 16 + len;
            i = i + 1;
        }
        assert(cs.take(cs.len() as int) =~= cs);
        Some(total)
    }

    /// Write the `.aFix` file by appending its bytes to `out`.
    ///
    /// The ATOM_MAP records, for each of the first six chunks, its identifier,
    /// its byte offset in the file, its data length and the CRC-32 of its data,
    /// so that readers can seek directly.
    pub fn write(&self, out: &mut Vec<u8>)
        requires
            encoded_len(self@.chunks) <= u64::MAX,
        ensures
            final(out)@ == old(out)@ + afix_bytes(self@),
    {
        let ghost start = out@;
        write_header(out, &self.header);
        write_atom_map(out, &self.chunks);
        write_payload(out, &self.chunks);
        reveal(afix_bytes);
        assert(out@ =~= start + afix_bytes(self@));
    }
}

} // verus!
