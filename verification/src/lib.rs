//! Single-threaded cooperative concurrency primitives: a bounded queue with one
//! parked waiter, a bounded channel, a multicast event bus, a cancellation
//! scope and a change-notifying state cell.
//!
//! Every primitive is a plain value that its owner mutates through `&mut`.
//! Which ends are still alive is part of that value, so each contract can say
//! what an operation does to the whole primitive.

pub mod async_queue;
pub mod chan;
pub mod dom;
pub mod event;
pub mod fetch;
pub mod poll;
pub mod registry;
pub mod scope;
pub mod state;
pub mod timer;
pub mod waker;

pub use async_queue::AsyncQueue;
pub use poll::Poll;
pub use chan::{Channel, ChannelSendError};
pub use dom::create::{create_element, CreateError};
pub use dom::event::{
    AnimationCancelEvent, AnimationEndEvent, AnimationIterationEvent, AnimationStartEvent,
    ClickEvent, DomEvent, KeyDownEvent, KeyUpEvent, MediaQueryListChangeEvent, PopStateEvent,
    ResizeEvent, ScrollEvent,
};
pub use dom::listener::{ListenerOptions, STREAM_CAPACITY};
pub use dom::Dom;
pub use event::Event;
pub use registry::Registry;
pub use scope::{Scope, ScopedFuture, ScopedStream};
pub use state::State;
pub use timer::{Interval, Timeout, TimerState};
