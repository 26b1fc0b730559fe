//! Encoding profiles for `.aFix`.

use vstd::prelude::*;

use crate::text::str_equal;

verus! {

/// An `.aFix` encoding profile defines which chunks are written.
///
/// | Profile      | S1 | S2 | S3 | DPTH | SIGB |
/// |--------------|----|----|----|----- |------|
/// | WebLossy     | ✓  | ✓  | ✗  | opt  | opt  |
/// | WebLossless  | ✓  | ✓  | ✓  | opt  | opt  |
/// | Spatial      | ✓  | ✓  | opt| ✓    | opt  |
/// | Trusted      | ✓  | ✓  | opt| opt  | ✓    |
/// | Full         | ✓  | ✓  | ✓  | ✓    | ✓    |
#[derive(Debug, Clone, Copy, PartialEq, Eq, Structural)]
pub enum Profile {
    /// S1 + S2 only. Best file-size for consumer web.
    WebLossy,
    /// S1 + S2 + S3. Pixel-perfect for design & print.
    WebLossless,
    /// S1 + S2 + DPTH. Native depth for AR/VR.
    Spatial,
    /// S1 + S2 + SIGB. C2PA provenance for journalism/legal.
    Trusted,
    /// All chunks. Professional archival.
    Full,
}

/// The textual name of a profile, as printed and as accepted by `Profile::parse`.
pub open spec fn profile_name(p: Profile) -> Seq<char> {
    match p {
        Profile::WebLossy => "web-lossy"@,
        Profile::WebLossless => "web-lossless"@,
        Profile::Spatial => "spatial"@,
        Profile::Trusted => "trusted"@,
        Profile::Full => "full"@,
    }
}

impl Profile {
    /// Whether this profile requires the S3 Parity Residual chunk.
    pub fn requires_residual(self) -> (r: bool)
        ensures
            r == (self == Profile::WebLossless || self == Profile::Full),
    {
        match self {
            Profile::WebLossless | Profile::Full => true,
            _ => false,
        }
    }

    /// Whether this profile requires the DPTH depth-map chunk.
    pub fn requires_depth(self) -> (r: bool)
        ensures
            r == (self == Profile::Spatial || self == Profile::Full),
    {
        match self {
            Profile::Spatial | Profile::Full => true,
            _ => false,
        }
    }

    /// Whether this profile requires the SIGB signature chunk.
    pub fn requires_signature(self) -> (r: bool)
        ensures
            r == (self == Profile::Trusted || self == Profile::Full),
    {
        match self {
            Profile::Trusted | Profile::Full => true,
            _ => false,
        }
    }
}

impl Profile {
    /// The profile's name, as displayed and as accepted by `parse`.
    pub fn name(self) -> (s: &'static str)
        ensures
            s@ == profile_name(self),
    {
        match self {
            Profile::WebLossy => "web-lossy",
            Profile::WebLossless => "web-lossless",
            Profile::Spatial => "spatial",
            Profile::Trusted => "trusted",
            Profile::Full => "full",
        }
    }

    /// Parse a profile from its name; any other text is refused with the
    /// message `unknown profile '<text>'`.
    pub fn parse(s: &str) -> (r: Result<Profile, String>)
        ensures
            match r {
                Ok(p) => profile_name(p) == s@,
                Err(msg) => (forall|p: Profile| profile_name(p) != s@) && msg@ == "unknown profile '"@
                    + s@ + "'"@,
            },
    {
        if str_equal(s, "web-lossy") {
            Ok(Profile::WebLossy)
        } else if str_equal(s, "web-lossless") {
            Ok(Profile::WebLossless)
        } else if str_equal(s, "spatial") {
            Ok(Profile::Spatial)
        } else if str_equal(s, "trusted") {
            Ok(Profile::Trusted)
        } else if str_equal(s, "full") {
            Ok(Profile::Full)
        } else {
            let mut msg = String::from_str("unknown profile '");
            msg.append(s);
            msg.append("'");
            proof {
                assert forall|p: Profile| profile_name(p) != s@ by {
                    match p {
                        Profile::WebLossy => {},
                        Profile::WebLossless => {},
                        Profile::Spatial => {},
                        Profile::Trusted => {},
                        Profile::Full => {},
                    }
                }
            }
            Err(msg)
        }
    }
}

impl core::str::FromStr for Profile {
    type Err = String;

    /// Parse a profile from its name, as `Profile::parse` does.
    fn from_str(s: &str) -> (r: Result<Profile, String>)
        ensures
            match r {
                Ok(p) => profile_name(p) == s@,
                Err(msg) => (forall|p: Profile| profile_name(p) != s@) && msg@ == "unknown profile '"@
                    + s@ + "'"@,
            },
    {
        Profile::parse(s)
    }
}

impl Default for Profile {
    /// The default profile is `WebLossy`.
    fn default() -> (p: Self)
        ensures
            p == Profile::WebLossy,
    {
        Profile::WebLossy
    }
}

} // verus!
