//! The options of an event listener.

use vstd::prelude::*;

verus! {

/// How many events a stream of events buffers before further ones are lost.
pub const STREAM_CAPACITY: usize = 256;

/// How a listener is registered and what it does to each event before the
/// callback sees it.
#[derive(Debug, Clone, Copy, PartialEq, Eq)]
pub struct ListenerOptions {
    /// Whether the listener sees events on their way down to the target.
    pub capture: bool,
    /// Whether the listener promises never to cancel the default action;
    /// `None` leaves the choice to the host.
    pub passive: Option<bool>,
    /// Whether the default action of every event is cancelled.
    pub prevent_default: bool,
    /// Whether every event is kept from travelling on.
    pub stop_propagation: bool,
    /// Whether every event is also kept from the target's other listeners.
    pub stop_immediate_propagation: bool,
}

impl ListenerOptions {
    /// The options of a plain listener: every flag is off and the host
    /// chooses whether the listener is passive.
    pub open spec fn plain() -> Self {
        ListenerOptions {
            capture: false,
            passive: None,
            prevent_default: false,
            stop_propagation: false,
            stop_immediate_propagation: false,
        }
    }

    /// The options of a plain listener.
    pub fn new() -> (options: Self)
        ensures
            options == Self::plain(),
    {
        ListenerOptions {
            capture: false,
            passive: None,
            prevent_default: false,
            stop_propagation: false,
            stop_immediate_propagation: false,
        }
    }

    /// Lets the listener see events on their way down to the target.
    pub fn capture(self) -> (options: Self)
        ensures
            options == (ListenerOptions { capture: true, ..self }),
    {
        ListenerOptions { capture: true, ..self }
    }

    /// Says whether the listener is passive.
    pub fn passive(self, value: bool) -> (options: Self)
        ensures
            options == (ListenerOptions { passive: Some(value), ..self }),
    {
        ListenerOptions { passive: Some(value), ..self }
    }

    /// Cancels the default action of every event.
    pub fn prevent_default(self) -> (options: Self)
        ensures
            options == (ListenerOptions { prevent_default: true, ..self }),
    {
        ListenerOptions { prevent_default: true, ..self }
    }

    /// Keeps every event from travelling on.
    pub fn stop_propagation(self) -> (options: Self)
        ensures
            options == (ListenerOptions { stop_propagation: true, ..self }),
    {
        ListenerOptions { stop_propagation: true, ..self }
    }

    /// Keeps every event also from the target's other listeners.
    pub fn stop_immediate_propagation(self) -> (options: Self)
        ensures
            options == (ListenerOptions { stop_immediate_propagation: true, ..self }),
    {
        ListenerOptions { stop_immediate_propagation: true, ..self }
    }
}

} // verus!
