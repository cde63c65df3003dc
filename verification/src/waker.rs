//! The standard library's `Waker`, as far as proofs need to know it.

use std::task::Waker;
use vstd::prelude::*;

verus! {

/// The standard library's handle for re-scheduling one suspended task. Proofs
/// see it as an opaque value that can be stored, moved and compared.
#[verifier::external_type_specification]
#[verifier::external_body]
pub struct ExWaker(Waker);

/// Calls `Waker::wake`, which consumes the handle and asks the scheduler to
/// poll its task again. The effect lies outside this library, so the contract
/// claims nothing.
#[verifier::external_body]
pub(crate) fn wake(waker: Waker) {
    waker.wake();
}

} // verus!
