//! Reading and writing `.aFix` (Adaptive Flexible Image X) containers, and
//! the integer parts of the `.aFix` encoder pipeline, with their contracts
//! proved by Verus.
//!
//! An `.aFix` file is a 33-byte header (magic `AFIXK`, version, dimensions),
//! a 144-byte ATOM_MAP pointing to the first six chunks, and a PAYLOAD of
//! CRC-checked atom chunks (see `file`).

pub mod bspline;
pub mod bytes;
pub mod cli;
pub mod cli_flags;
pub mod canny;
pub mod chunk;
pub mod contour;
pub mod contour_scan;
pub mod crc;
pub mod dct;
pub mod encoder;
pub mod error;
pub mod file;
pub mod header;
pub mod info;
pub mod profile;
pub mod saliency;
pub mod studio;
pub mod text;

pub use chunk::{Chunk, ChunkId};
pub use crc::crc32_of;
pub use error::AfixError;
pub use file::{
    AfixFile, ATOM_ENTRY_SIZE, ATOM_MAP_OFFSET, ATOM_MAP_SIZE, MAGIC, MAX_ATOM_ENTRIES,
    MAX_CHUNK_SIZE, PAYLOAD_OFFSET,
};
pub use header::{AfixHeader, Dimensions, Version};
pub use profile::Profile;
