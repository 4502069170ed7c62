//! The metadata that travels with a node.

use vstd::prelude::*;

verus! {

/// When a node was created and when it was last changed, in seconds since the
/// Unix epoch.
#[derive(Debug, Clone, Copy, PartialEq, Eq, Structural)]
pub struct Metadata {
    pub created: i64,
    pub modified: i64,
}

impl Metadata {
    /// The metadata of a node made at `time`.
    pub fn new(time: i64) -> (metadata: Metadata)
        ensures
            metadata == (Metadata { created: time, modified: time }),
    {
        Metadata { created: time, modified: time }
    }

    /// Sets the time of the last change.
    pub fn upsert_mtime(&mut self, time: i64)
        ensures
            *final(self) == (Metadata { created: old(self).created, modified: time }),
    {
        self.modified = time;
    }

    /// The time of creation.
    pub fn get_created(&self) -> (time: i64)
        ensures
            time == self.created,
    {
        self.created
    }

    /// The time of the last change.
    pub fn get_modified(&self) -> (time: i64)
        ensures
            time == self.modified,
    {
        self.modified
    }
}

} // verus!
