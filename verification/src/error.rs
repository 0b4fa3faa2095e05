//! The ways in which an operation of this library can fail.

use vstd::prelude::*;

verus! {

/// A failure of one operation. None is retried here.
#[derive(Debug, PartialEq, Eq)]
pub enum Error {
    /// A value cannot be encoded. No value that can be built in memory today
    /// gives this; it is kept for constraints that the format may gain.
    EncodingInputInvalid,
    /// The authentication tag of an encrypted payload did not verify: the
    /// password is wrong or the bytes were changed. Which of the two is
    /// never told.
    DecryptionAuthenticationFailed,
    /// A well-known annotation, whose key is given, is absent.
    MetadataKeyMissing(String),
}

} // verus!
