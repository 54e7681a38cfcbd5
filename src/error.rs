//! The kinds of failure of reading and writing tags.
use vstd::prelude::*;

verus! {

/// Why an operation failed.
#[derive(Clone, Copy, Debug, PartialEq, Eq, Structural)]
pub enum Error {
    /// The buffer holds no tag of the kind asked for.
    NoTag,
    /// The tag names a revision that is not supported.
    UnsupportedVersion,
    /// A header, frame or field is malformed or truncated.
    Parsing,
    /// The data uses a feature that is not supported: an encrypted or a
    /// compressed frame (neither is decrypted nor inflated, and neither is
    /// written), a frame identifier or flag that the target revision cannot
    /// hold, or an encoding that it lacks.
    UnsupportedFeature,
    /// Text bytes are not valid in their declared encoding.
    StringDecoding,
    /// A value cannot be written in the form asked for.
    InvalidInput,
}

/// Whether a result counts as success when a missing tag is acceptable.
pub open spec fn no_tag_ok_spec<T>(r: Result<T, Error>) -> bool {
    r is Ok || r == Err::<T, Error>(Error::NoTag)
}

/// Whether `r` is a success, or a failure that only says that no tag was
/// found.
pub fn no_tag_ok<T>(r: &Result<T, Error>) -> (b: bool)
    ensures
        b == no_tag_ok_spec(*r),
{
    match r {
        Ok(_) => true,
        Err(Error::NoTag) => true,
        Err(_) => false,
    }
}

} // verus!
