//! The one source of chance.

use vstd::prelude::*;

verus! {

/// Calls `rand::random::<usize>()`, which draws a number from the generator
/// of the current thread. Nothing is claimed of the number: each call may
/// return any value, and two calls need not agree.
#[verifier::external_body]
pub(crate) fn random_usize() -> usize {
    rand::random::<usize>()
}

} // verus!
