use miurbot::adapter::{error_event, hello_world, closing_event, sse_frame, ChatEvent};

#[test]
fn greeting() {
    assert_eq!(hello_world(), "Hello, World!");
}

#[test]
fn errors_are_reported_as_text() {
    assert!(matches!(error_event("boom"), ChatEvent::Delta(t) if t == "错误：boom"));
}

#[test]
fn finished_reply_closes_with_done() {
    assert!(matches!(closing_event(Ok("hi".to_string())), ChatEvent::Done));
}

#[test]
fn failed_turn_closes_with_the_error() {
    assert!(matches!(closing_event(Err("db".to_string())), ChatEvent::Delta(t) if t == "错误：db"));
}

#[test]
fn frames_for_text_and_end() {
    let f = sse_frame(&ChatEvent::Delta("x".to_string()));
    assert_eq!(f.event, None);
    assert_eq!(f.data, "x");
    let f = sse_frame(&ChatEvent::Done);
    assert_eq!(f.event.as_deref(), Some("done"));
    assert_eq!(f.data, "");
}
