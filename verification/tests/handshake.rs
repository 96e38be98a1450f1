use signalr_rs::error::Error;
use signalr_rs::protocol::responses::{Handshake, handshake_request_text, parse_handshake_response};
use signalr_rs::runtime::{FrameEvent, process_handshake_frame};

#[test]
fn request_frame_is_fixed() {
    assert_eq!(
        handshake_request_text(),
        "{\"protocol\":\"json\",\"version\":1}\x1e"
    );
}

#[test]
fn error_response_fails_with_reason() {
    let parsed = parse_handshake_response("{\"error\":\"bad version\"}");
    assert_eq!(
        parsed,
        Some(Handshake::Response {
            error: Some("bad version".to_string())
        })
    );
    let outcome = process_handshake_frame(FrameEvent::Text("{\"error\":\"bad version\"}".to_string()));
    let err = outcome.err().expect("handshake must fail");
    assert_eq!(err.message, "Handshake failed, inner bad version");
}

#[test]
fn empty_response_succeeds() {
    let parsed = parse_handshake_response("{}");
    assert_eq!(parsed, Some(Handshake::Response { error: None }));
    assert!(process_handshake_frame(FrameEvent::Text("{}".to_string())).is_ok());
}

#[test]
fn response_with_terminator_succeeds() {
    assert!(process_handshake_frame(FrameEvent::Text("{}\x1e".to_string())).is_ok());
}

#[test]
fn malformed_or_missing_frames_fail() {
    assert_eq!(parse_handshake_response("not json"), None);
    assert_eq!(parse_handshake_response("[1]"), None);
    assert_eq!(parse_handshake_response("{\"error\":5}"), None);
    for event in [
        FrameEvent::Text("not json".to_string()),
        FrameEvent::NonText,
        FrameEvent::TransportError,
        FrameEvent::Closed,
    ] {
        let err = process_handshake_frame(event).err().expect("must fail");
        assert_eq!(err.message, "Handshake failed, inner ");
    }
}

#[test]
fn error_constructors_format_the_reason() {
    assert_eq!(
        Error::handshake_error("socket closed").message,
        "Handshake failed, inner socket closed"
    );
    assert_eq!(Error::handshake_error_simple().message, "Handshake failed");
}
