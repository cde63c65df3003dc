//! The few parts of the browser bindings that are plain data: the wrapper
//! around a node, the decision of what to hand out after an element has been
//! requested from the host, and the names of the event kinds.

pub mod create;
pub mod event;
pub mod listener;

use vstd::prelude::*;
use vstd::std_specs::convert::FromSpecImpl;

verus! {

/// A node of the document, wrapped so that the helpers of this library can be
/// attached to it.
#[derive(Debug, Clone, PartialEq, Eq)]
pub struct Dom<T> {
    /// The wrapped node.
    pub inner: T,
}

impl<T> From<T> for Dom<T> {
    fn from(inner: T) -> (dom: Self) {
        Dom { inner }
    }
}

impl<T> FromSpecImpl<T> for Dom<T> {
    open spec fn obeys_from_spec() -> bool {
        true
    }

    open spec fn from_spec(inner: T) -> Self {
        Dom { inner }
    }
}

impl<T> std::ops::Deref for Dom<T> {
    type Target = T;

    fn deref(&self) -> (inner: &T)
        ensures
            *inner == self.inner,
    {
        &self.inner
    }
}

} // verus!
