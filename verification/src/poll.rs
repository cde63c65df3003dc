//! The outcome of a pull, as a type that contracts can speak of.

use vstd::prelude::*;

verus! {

/// The outcome of one pull from a suspendable source.
#[derive(Debug, PartialEq, Eq)]
pub enum Poll<T> {
    /// The pull finished with a value.
    Ready(T),
    /// Nothing is available yet; the caller's waker has been parked.
    Pending,
}

impl<T> Poll<T> {
    /// Whether the pull finished.
    pub fn is_ready(&self) -> (r: bool)
        ensures
            r == (*self is Ready),
    {
        match self {
            Poll::Ready(_) => true,
            Poll::Pending => false,
        }
    }

    /// Whether the pull has to be repeated after a wake-up.
    pub fn is_pending(&self) -> (r: bool)
        ensures
            r == (*self is Pending),
    {
        match self {
            Poll::Ready(_) => false,
            Poll::Pending => true,
        }
    }
}

} // verus!
