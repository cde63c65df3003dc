use mozkit::{
    create_element, AnimationCancelEvent, AnimationEndEvent, AnimationIterationEvent,
    AnimationStartEvent, ClickEvent, CreateError, Dom, DomEvent, KeyDownEvent, KeyUpEvent,
    MediaQueryListChangeEvent, PopStateEvent, ResizeEvent, ScrollEvent,
};

#[test]
fn dom_event_names() {
    assert_eq!(ClickEvent::name(), "click");
    assert_eq!(KeyDownEvent::name(), "keydown");
    assert_eq!(KeyUpEvent::name(), "keyup");
    assert_eq!(ScrollEvent::name(), "scroll");
    assert_eq!(ResizeEvent::name(), "resize");
    assert_eq!(PopStateEvent::name(), "popstate");
    assert_eq!(AnimationStartEvent::name(), "animationstart");
    assert_eq!(AnimationEndEvent::name(), "animationend");
    assert_eq!(AnimationIterationEvent::name(), "animationiteration");
    assert_eq!(AnimationCancelEvent::name(), "animationcancel");
    assert_eq!(MediaQueryListChangeEvent::name(), "change");
}

#[test]
fn dom_wraps_and_derefs() {
    let dom = Dom::from(String::from("node"));
    assert_eq!(dom.inner, "node");
    assert_eq!(dom.len(), 4);
    assert_eq!(dom, Dom { inner: String::from("node") });
}

#[test]
fn create_element_hands_out_the_cast_element() {
    let created: Result<u32, &str> = Ok(7);
    let made = create_element(created, |element| Ok::<u64, u32>(u64::from(element) + 1));
    assert_eq!(made.unwrap(), Dom { inner: 8u64 });
}

#[test]
fn create_element_reports_a_refusal_without_casting() {
    let created: Result<u32, &str> = Err("bad name");
    let made = create_element(created, |_element| -> Result<u64, u32> {
        panic!("the cast must not be tried")
    });
    assert!(matches!(made, Err(CreateError::Rejected("bad name"))));
}

#[test]
fn create_element_gives_back_an_element_of_the_wrong_type() {
    let created: Result<u32, &str> = Ok(7);
    let made = create_element(created, |element| Err::<u64, u32>(element));
    assert!(matches!(made, Err(CreateError::WrongType(7))));
}

#[test]
fn listener_options_start_plain() {
    let options = mozkit::ListenerOptions::new();
    assert!(!options.capture);
    assert_eq!(options.passive, None);
    assert!(!options.prevent_default);
    assert!(!options.stop_propagation);
    assert!(!options.stop_immediate_propagation);
}

#[test]
fn listener_options_set_one_flag_each() {
    let plain = mozkit::ListenerOptions::new();
    assert_eq!(plain.capture(), mozkit::ListenerOptions { capture: true, ..plain });
    assert_eq!(plain.passive(false), mozkit::ListenerOptions { passive: Some(false), ..plain });
    assert_eq!(plain.passive(true).passive, Some(true));
    assert_eq!(
        plain.prevent_default(),
        mozkit::ListenerOptions { prevent_default: true, ..plain }
    );
    assert_eq!(
        plain.stop_propagation(),
        mozkit::ListenerOptions { stop_propagation: true, ..plain }
    );
    assert_eq!(
        plain.stop_immediate_propagation(),
        mozkit::ListenerOptions { stop_immediate_propagation: true, ..plain }
    );
    let all = plain.capture().passive(true).prevent_default().stop_propagation();
    assert!(all.capture && all.prevent_default && all.stop_propagation);
    assert!(!all.stop_immediate_propagation);
}

#[test]
fn event_streams_buffer_256_events() {
    assert_eq!(mozkit::STREAM_CAPACITY, 256);
}
