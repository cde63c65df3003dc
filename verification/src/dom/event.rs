//! The kinds of events and the names under which the host knows them.

use vstd::prelude::*;

verus! {

/// A kind of event that the document dispatches.
pub trait DomEvent {
    /// The name under which listeners for this kind are registered.
    spec fn spec_name() -> Seq<char>;

    /// The name under which listeners for this kind are registered.
    fn name() -> (name: &'static str)
        ensures
            name@ == Self::spec_name(),
    ;
}

/// The kind of event that reports a pointer click.
pub struct ClickEvent;

impl DomEvent for ClickEvent {
    open spec fn spec_name() -> Seq<char> {
        "click"@
    }

    fn name() -> (name: &'static str) {
        "click"
    }
}

/// The kind of event that reports a key going down.
pub struct KeyDownEvent;

impl DomEvent for KeyDownEvent {
    open spec fn spec_name() -> Seq<char> {
        "keydown"@
    }

    fn name() -> (name: &'static str) {
        "keydown"
    }
}

/// The kind of event that reports a key coming up.
pub struct KeyUpEvent;

impl DomEvent for KeyUpEvent {
    open spec fn spec_name() -> Seq<char> {
        "keyup"@
    }

    fn name() -> (name: &'static str) {
        "keyup"
    }
}

/// The kind of event that reports scrolling.
pub struct ScrollEvent;

impl DomEvent for ScrollEvent {
    open spec fn spec_name() -> Seq<char> {
        "scroll"@
    }

    fn name() -> (name: &'static str) {
        "scroll"
    }
}

/// The kind of event that reports a change of the view's size.
pub struct ResizeEvent;

impl DomEvent for ResizeEvent {
    open spec fn spec_name() -> Seq<char> {
        "resize"@
    }

    fn name() -> (name: &'static str) {
        "resize"
    }
}

/// The kind of event that reports a step in the session history.
pub struct PopStateEvent;

impl DomEvent for PopStateEvent {
    open spec fn spec_name() -> Seq<char> {
        "popstate"@
    }

    fn name() -> (name: &'static str) {
        "popstate"
    }
}

/// The kind of event that reports the start of an animation.
pub struct AnimationStartEvent;

impl DomEvent for AnimationStartEvent {
    open spec fn spec_name() -> Seq<char> {
        "animationstart"@
    }

    fn name() -> (name: &'static str) {
        "animationstart"
    }
}

/// The kind of event that reports the end of an animation.
pub struct AnimationEndEvent;

impl DomEvent for AnimationEndEvent {
    open spec fn spec_name() -> Seq<char> {
        "animationend"@
    }

    fn name() -> (name: &'static str) {
        "animationend"
    }
}

/// The kind of event that reports the start of another round of an animation.
pub struct AnimationIterationEvent;

impl DomEvent for AnimationIterationEvent {
    open spec fn spec_name() -> Seq<char> {
        "animationiteration"@
    }

    fn name() -> (name: &'static str) {
        "animationiteration"
    }
}

/// The kind of event that reports an animation that was broken off.
pub struct AnimationCancelEvent;

impl DomEvent for AnimationCancelEvent {
    open spec fn spec_name() -> Seq<char> {
        "animationcancel"@
    }

    fn name() -> (name: &'static str) {
        "animationcancel"
    }
}

/// The kind of event that reports a media query whose answer changed.
pub struct MediaQueryListChangeEvent;

impl DomEvent for MediaQueryListChangeEvent {
    open spec fn spec_name() -> Seq<char> {
        "change"@
    }

    fn name() -> (name: &'static str) {
        "change"
    }
}

} // verus!
