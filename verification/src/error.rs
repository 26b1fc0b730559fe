//! Error types for `libafix`.

use vstd::prelude::*;

verus! {

/// All errors that can occur when reading or writing an `.aFix` file.
#[derive(Debug, Clone)]
pub enum AfixError {
    /// The bytes ended before a field that must be present (reported as an
    /// I/O "unexpected end of file" by readers over streams).
    UnexpectedEof,
    /// The file does not start with the expected magic bytes (`AFIXK`).
    InvalidMagic([u8; 5]),
    /// A chunk's CRC-32 does not match the stored value.
    CrcMismatch { id: [u8; 4], stored: u32, computed: u32 },
    /// A chunk claims to be larger than the allowed maximum (512 MB).
    ChunkTooLarge(usize),
    /// An ATOM_MAP entry points outside the PAYLOAD, or to a chunk that
    /// overlaps the chunk of another entry.
    InvalidAtomMap,
    /// A required chunk was not found in the file.
    MissingChunk(String),
    /// The JSON/BSON payload inside a chunk could not be parsed.
    InvalidChunkData(String),
    /// The file version is not supported by this library.
    UnsupportedVersion { major: u8, minor: u8 },
}

} // verus!
