//! CRC-32 (IEEE) checksums, computed by the `crc32fast` crate.

use vstd::prelude::*;

verus! {

/// The CRC-32 (IEEE 802.3 polynomial, reflected, initial and final XOR
/// `0xFFFF_FFFF`) checksum of `data`, as `crc32fast` computes it.
pub uninterp spec fn crc32_ieee(data: Seq<u8>) -> u32;

/// Calls `crc32fast::hash`, which runs a `crc32fast::Hasher` over the whole
/// slice and finalises it. Claimed: the result is the CRC-32 of the slice's
/// bytes, a value that depends on those bytes alone.
#[verifier::external_body]
fn crc32fast_hash(data: &[u8]) -> (r: u32)
    ensures
        r == crc32_ieee(data@),
{
    crc32fast::hash(data)
}

/// Compute CRC-32 of a byte slice.
pub fn crc32_of(data: &[u8]) -> (r: u32)
    ensures
        r == crc32_ieee(data@),
{
    crc32fast_hash(data)
}

} // verus!
