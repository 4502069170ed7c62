//! The version tag that every stored record begins with.

use vstd::prelude::*;

verus! {

/// A format version: major, minor and patch number.
#[derive(Debug, Clone, Copy, PartialEq, Eq, Structural)]
pub struct Version {
    pub major: u64,
    pub minor: u64,
    pub patch: u64,
}

/// The format version that this library writes.
pub open spec fn current_version() -> Version {
    Version { major: 1, minor: 0, patch: 0 }
}

/// `a` is a newer version than `b`: it has the higher major number, or the
/// same and the higher minor number, or both the same and the higher patch
/// number.
pub open spec fn newer(a: Version, b: Version) -> bool {
    ||| a.major > b.major
    ||| a.major == b.major && a.minor > b.minor
    ||| a.major == b.major && a.minor == b.minor && a.patch > b.patch
}

/// Whether a record of version `version` can be read: it has the major number
/// of the version written here, and is not newer than it.
pub open spec fn readable(version: Version) -> bool {
    version.major == current_version().major && !newer(version, current_version())
}

/// A record of a version newer than the one written here is never readable,
/// nor is one of another major version.
pub proof fn law_newer_is_unreadable(version: Version)
    ensures
        newer(version, current_version()) ==> !readable(version),
        version.major != current_version().major ==> !readable(version),
        readable(current_version()),
{
}

impl Version {
    /// The version with these three numbers.
    pub fn new(major: u64, minor: u64, patch: u64) -> (version: Version)
        ensures
            version == (Version { major, minor, patch }),
    {
        Version { major, minor, patch }
    }
}

/// The format version that this library writes.
pub fn wnfs_version() -> (version: Version)
    ensures
        version == current_version(),
{
    Version { major: 1, minor: 0, patch: 0 }
}

/// Tells whether a record of version `version` can be read.
pub fn is_readable_wnfs_version(version: &Version) -> (ok: bool)
    ensures
        ok == readable(*version),
{
    let current = wnfs_version();
    version.major == current.major && (version.minor < current.minor || (version.minor
        == current.minor && version.patch <= current.patch))
}

} // verus!
