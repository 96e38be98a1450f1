use signalr_rs::HubConnection;
use signalr_rs::HubConnectionBuilder;
use signalr_rs::dispatch::DispatchAction;
use signalr_rs::protocol::json::JsonValue;
use signalr_rs::protocol::responses::{
    CloseFields, CompletionFields, InvocationFields, Messsage, StreamItemFields,
};
use signalr_rs::protocol::{negotiate_url, socket_url};
use signalr_rs::runtime::{
    FrameEvent, HEARTBEAT_IDLE_SECS, HeartbeatEvent, ReaderAction, WriterAction, heartbeat_step,
    reader_step, writer_step,
};

#[test]
fn reader_forwards_decodable_text_frames() {
    let action = reader_step(FrameEvent::Text("{\"type\":6}\x1e".to_string()));
    match action {
        ReaderAction::Forward(m) => assert_eq!(m, Messsage::Ping),
        other => panic!("expected forward, got {:?}", other),
    }
}

#[test]
fn reader_survives_bad_frames_and_exits_on_closure() {
    assert!(matches!(
        reader_step(FrameEvent::Text("not json".to_string())),
        ReaderAction::Diagnostic
    ));
    assert!(matches!(reader_step(FrameEvent::NonText), ReaderAction::Diagnostic));
    assert!(matches!(reader_step(FrameEvent::TransportError), ReaderAction::Exit));
    assert!(matches!(reader_step(FrameEvent::Closed), ReaderAction::Exit));
}

#[test]
fn writer_encodes_and_exits_on_closed_queue() {
    match writer_step(Some(Messsage::Ping)) {
        WriterAction::Write(t) => assert_eq!(t, "{\"type\":6}\x1e"),
        other => panic!("expected a write, got {:?}", other),
    }
    assert!(matches!(writer_step(None), WriterAction::Exit));
    let unencodable = Messsage::Close(CloseFields {
        error: Some("line\nbreak".to_string()),
    });
    assert!(matches!(writer_step(Some(unencodable)), WriterAction::Diagnostic));
}

#[test]
fn heartbeat_pings_only_on_idle_timeout() {
    assert_eq!(heartbeat_step(HeartbeatEvent::IdleTimeout), Some(Messsage::Ping));
    assert_eq!(heartbeat_step(HeartbeatEvent::Activity), None);
    assert_eq!(HEARTBEAT_IDLE_SECS, 2);
}

fn invocation_for(target: &str) -> Messsage {
    Messsage::Invocation(InvocationFields {
        invocation_id: None,
        target: target.to_string(),
        arguments: JsonValue::Null,
    })
}

#[test]
fn dispatch_routes_invocations_by_target() {
    let mut conn = HubConnection::new();
    conn.register("ReceiveMessage".to_string(), 7);
    assert_eq!(
        conn.dispatch_step(&invocation_for("ReceiveMessage")),
        DispatchAction::Invoke { handler: 7 }
    );
    assert_eq!(
        conn.dispatch_step(&invocation_for("Unknown")),
        DispatchAction::Drop
    );
    assert_eq!(conn.lookup_handler(&"ReceiveMessage".to_string()), Some(7));
    assert_eq!(conn.lookup_handler(&"Unknown".to_string()), None);
}

#[test]
fn later_registration_under_the_same_target_wins() {
    let mut conn = HubConnection::new();
    conn.register("Echo".to_string(), 1);
    conn.register("Echo".to_string(), 2);
    assert_eq!(conn.lookup_handler(&"Echo".to_string()), Some(2));
}

#[test]
fn dispatch_correlates_completions_and_retires_them() {
    let mut conn = HubConnection::new();
    conn.add_pending("42".to_string(), 3);
    let item = Messsage::StreamItem(StreamItemFields {
        invocation_id: Some("42".to_string()),
        item: JsonValue::Num(1),
    });
    assert_eq!(conn.dispatch_step(&item), DispatchAction::Deliver { pending: 3 });
    let completion = Messsage::Completion(CompletionFields {
        invocation_id: Some("42".to_string()),
        error: None,
        result: JsonValue::Null,
    });
    assert_eq!(
        conn.dispatch_step(&completion),
        DispatchAction::Complete { pending: 3 }
    );
    // the entry is retired: the same completion no longer matches
    assert_eq!(conn.dispatch_step(&completion), DispatchAction::Drop);
}

#[test]
fn dispatch_discards_pings_and_drops_the_unmatched() {
    let mut conn = HubConnection::new();
    assert_eq!(conn.dispatch_step(&Messsage::Ping), DispatchAction::Discard);
    assert_eq!(
        conn.dispatch_step(&Messsage::Close(CloseFields { error: None })),
        DispatchAction::Drop
    );
    let orphan = Messsage::StreamItem(StreamItemFields {
        invocation_id: None,
        item: JsonValue::Null,
    });
    assert_eq!(conn.dispatch_step(&orphan), DispatchAction::Drop);
}

#[test]
fn builder_keeps_the_url() {
    let builder = HubConnectionBuilder::new().with_url("http://localhost:5000/chat".to_string());
    assert_eq!(builder.hub_url, "http://localhost:5000/chat");
}

#[test]
fn negotiation_urls_are_formed_from_the_base() {
    assert_eq!(
        negotiate_url("http://localhost:5000/chat"),
        "http://localhost:5000/chat/negotiate?negotiateVersion=1"
    );
    assert_eq!(
        socket_url("localhost:5000/chat", "tok-1"),
        "ws://localhost:5000/chat?id=tok-1"
    );
}
