//! Shared ownership.
use std::sync::Arc;
use vstd::prelude::*;

verus! {

/// Returns another pointer to the same value: `std::sync::Arc::clone`.
#[verifier::external_body]
pub(crate) fn share<T>(value: &Arc<T>) -> (other: Arc<T>)
    ensures
        other == *value,
{
    Arc::clone(value)
}

} // verus!
