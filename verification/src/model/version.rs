//! The STIX specification version.

use vstd::prelude::*;

verus! {

/// The STIX spec version a document conforms to. The library targets 2.1; the
/// enum leaves room for version-specific behaviour.
#[derive(Debug, Clone, Copy, PartialEq, Eq, Structural)]
pub enum SpecVersion {
    V2_1,
}

impl Default for SpecVersion {
    /// STIX 2.1.
    fn default() -> (v: SpecVersion)
        ensures
            v == SpecVersion::V2_1,
    {
        SpecVersion::V2_1
    }
}

impl SpecVersion {
    /// The canonical version string (`"2.1"`).
    pub fn as_str(&self) -> (s: &'static str)
        ensures
            s@ == "2.1"@,
    {
        match self {
            SpecVersion::V2_1 => "2.1",
        }
    }
}

} // verus!
