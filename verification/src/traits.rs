//! Traits that the node types share.

use vstd::prelude::*;

verus! {

/// A node that can name itself within one process.
pub trait Id {
    /// An id that tells this node from every other node alive in the process.
    /// It says nothing about what the node holds.
    fn get_id(&self) -> String;
}

} // verus!
