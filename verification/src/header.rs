//! File header types for `.aFix`.

use vstd::prelude::*;

use crate::text::{dec_digits, push_decimal};

verus! {

/// Protocol version packed into 4 bytes (`MAJOR.MINOR.PATCH.FLAG`).
#[derive(Debug, Clone, Copy, PartialEq, Eq, Structural)]
pub struct Version {
    pub major: u8,
    pub minor: u8,
    pub patch: u8,
    /// Reserved extension flags (compression envelope, encryption).
    pub flag: u8,
}

impl Version {
    /// The current protocol version: 1.0.4, no flags.
    pub fn current() -> (v: Self)
        ensures
            v == (Version { major: 1, minor: 0, patch: 4, flag: 0 }),
    {
        Version { major: 1, minor: 0, patch: 4, flag: 0 }
    }

    /// The version as text, `MAJOR.MINOR.PATCH` in decimal.
    pub fn to_text(&self) -> (s: String)
        ensures
            s@ == dec_digits(self.major as nat) + "."@ + dec_digits(self.minor as nat) + "."@
                + dec_digits(self.patch as nat),
    {
        let mut s = String::new();
        push_decimal(&mut s, self.major as u64);
        s.append(".");
        push_decimal(&mut s, self.minor as u64);
        s.append(".");
        push_decimal(&mut s, self.patch as u64);
        proof {
            assert(s@ =~= dec_digits(self.major as nat) + "."@ + dec_digits(self.minor as nat) + "."@
                + dec_digits(self.patch as nat));
        }
        s
    }
}

/// Logical image dimensions (resolution-independent).
///
/// The format stores each dimension as an IEEE 754 double; this type holds the
/// 64-bit pattern of each double (`f64::to_bits`), so that a dimension is
/// carried through reading and writing bit for bit.
#[derive(Debug, Clone, Copy, PartialEq, Eq, Structural)]
pub struct Dimensions {
    /// Bit pattern of the logical width.
    pub width_bits: u64,
    /// Bit pattern of the logical height.
    pub height_bits: u64,
}

/// The `.aFix` file header (the 33 bytes before the ATOM_MAP).
#[derive(Debug, Clone, Copy, PartialEq, Eq, Structural)]
pub struct AfixHeader {
    /// Protocol version.
    pub version: Version,
    /// Logical image dimensions.
    pub dimensions: Dimensions,
}

} // verus!
