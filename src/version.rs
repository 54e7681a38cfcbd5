//! The three revisions of ID3v2.
use vstd::prelude::*;

verus! {

/// An ID3v2 revision.
#[derive(Clone, Copy, Debug, PartialEq, Eq, Structural)]
pub enum Version {
    /// ID3v2.2: three-character frame identifiers.
    Id3v22,
    /// ID3v2.3: four-character identifiers, plain frame sizes.
    Id3v23,
    /// ID3v2.4: four-character identifiers, syncsafe frame sizes.
    Id3v24,
}

impl Version {
    /// The major version byte of the tag header.
    pub open spec fn major_spec(self) -> u8 {
        match self {
            Version::Id3v22 => 2,
            Version::Id3v23 => 3,
            Version::Id3v24 => 4,
        }
    }

    /// The major version byte of the tag header.
    pub fn major(self) -> (r: u8)
        ensures
            r == self.major_spec(),
    {
        match self {
            Version::Id3v22 => 2,
            Version::Id3v23 => 3,
            Version::Id3v24 => 4,
        }
    }

    /// The revision that a major version byte names, if any.
    pub fn from_major(m: u8) -> (r: Option<Version>)
        ensures
            r is Some <==> 2 <= m <= 4,
            r is Some ==> r->0.major_spec() == m,
    {
        if m == 2 {
            Some(Version::Id3v22)
        } else if m == 3 {
            Some(Version::Id3v23)
        } else if m == 4 {
            Some(Version::Id3v24)
        } else {
            None
        }
    }
}

} // verus!
