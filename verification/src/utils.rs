//! Helpers that the node types share.

use std::sync::Arc;
use vstd::prelude::*;

verus! {

/// `Arc::make_mut`: a mutable reference into the `Arc`, which first gets a
/// clone of the value of its own where the value is shared. Claimed: what the
/// reference points to is the value that the `Arc` held or a clone of it, and
/// the `Arc` ends up holding what is written through the reference.
#[verifier::external_body]
pub(crate) fn make_mut<T: Clone>(this: &mut Arc<T>) -> (inner: &mut T)
    ensures
        cloned::<T>(**old(this), *inner),
        **final(this) == *final(inner),
{
    Arc::make_mut(this)
}

/// Formats the address of a value with `{:p}`. Nothing is said of the text:
/// it depends on where the value lies in memory.
#[verifier::external_body]
pub(crate) fn address_text<T>(value: &T) -> (text: String) {
    format!("{:p}", value)
}

} // verus!
