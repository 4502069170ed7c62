//! The errors that the file system core reports.

use crate::version::Version;
use vstd::prelude::*;

verus! {

/// What went wrong. Every kind reaches the caller as a value of its own;
/// none is recovered from silently.
#[derive(Debug, Clone, Copy, PartialEq, Eq, Structural)]
pub enum FsError {
    /// A stored record carries a format version that this reader does not
    /// understand.
    UnreadableFormatVersion(Version),
    /// Decoded bytes do not have the structure of a record.
    MalformedRecord,
    /// A ciphertext did not open: the key is wrong or the bytes were changed.
    DecryptionFailure,
    /// The forest has no entry under a label.
    LabelNotFound,
    /// The forest names a block that the backing store does not hold.
    BlockMissing,
    /// More than one candidate revision stands under one name.
    WriteConflict,
    /// The accumulator setup fails its consistency checks.
    InvalidSetupParameters,
}

} // verus!
