use signalr_rs::protocol::json::JsonValue;
use signalr_rs::protocol::responses::{
    CancelInvokationFields, CloseFields, CompletionFields, DecodeError, InvocationFields,
    Messsage, StreamInvocationFields, StreamItemFields,
};

fn args_hello() -> JsonValue {
    JsonValue::Arr(vec![JsonValue::Str("Hello".to_string())])
}

fn invocation(with_id: bool) -> Messsage {
    Messsage::Invocation(InvocationFields {
        invocation_id: if with_id { Some("1".to_string()) } else { None },
        target: "ReceiveMessage".to_string(),
        arguments: args_hello(),
    })
}

fn stream_item(with_id: bool) -> Messsage {
    Messsage::StreamItem(StreamItemFields {
        invocation_id: if with_id { Some("7".to_string()) } else { None },
        item: JsonValue::Num(42),
    })
}

fn completion(with_id: bool, with_error: bool) -> Messsage {
    Messsage::Completion(CompletionFields {
        invocation_id: if with_id { Some("9".to_string()) } else { None },
        error: if with_error { Some("boom".to_string()) } else { None },
        result: JsonValue::Null,
    })
}

fn stream_invocation(with_id: bool) -> Messsage {
    Messsage::StreamInvocation(StreamInvocationFields {
        invocation_id: if with_id { Some("3".to_string()) } else { None },
        target: "Counter".to_string(),
        arguments: JsonValue::Arr(vec![JsonValue::Num(10), JsonValue::Bool(true)]),
    })
}

fn cancel(with_id: bool) -> Messsage {
    Messsage::CancelInvokation(CancelInvokationFields {
        invocation_id: if with_id { Some("3".to_string()) } else { None },
    })
}

fn close(with_error: bool) -> Messsage {
    Messsage::Close(CloseFields {
        error: if with_error { Some("going away".to_string()) } else { None },
    })
}

fn round_trip(make: impl Fn() -> Messsage) {
    let encoded = make().encode().expect("encodable");
    let decoded = Messsage::decode(&encoded).expect("decodable");
    assert_eq!(decoded, make());
}

#[test]
fn round_trip_invocation_with_and_without_id() {
    round_trip(|| invocation(true));
    round_trip(|| invocation(false));
}

#[test]
fn round_trip_stream_item_with_and_without_id() {
    round_trip(|| stream_item(true));
    round_trip(|| stream_item(false));
}

#[test]
fn round_trip_completion_all_optional_combinations() {
    round_trip(|| completion(true, true));
    round_trip(|| completion(true, false));
    round_trip(|| completion(false, true));
    round_trip(|| completion(false, false));
}

#[test]
fn round_trip_stream_invocation_with_and_without_id() {
    round_trip(|| stream_invocation(true));
    round_trip(|| stream_invocation(false));
}

#[test]
fn round_trip_cancel_invokation_with_and_without_id() {
    round_trip(|| cancel(true));
    round_trip(|| cancel(false));
}

#[test]
fn round_trip_ping_and_close() {
    round_trip(|| Messsage::Ping);
    round_trip(|| close(true));
    round_trip(|| close(false));
}

#[test]
fn ping_encodes_to_bare_tag_object() {
    let encoded = Messsage::Ping.encode().unwrap();
    assert_eq!(encoded, "{\"type\":6}\x1e");
}

#[test]
fn unknown_tag_is_a_typed_error() {
    assert_eq!(
        Messsage::decode("{\"type\":99}"),
        Err(DecodeError::UnsupportedType(99))
    );
    assert_eq!(
        Messsage::decode("{\"type\":0}"),
        Err(DecodeError::UnsupportedType(0))
    );
}

#[test]
fn missing_target_is_malformed() {
    assert_eq!(
        Messsage::decode("{\"type\":1,\"arguments\":null}"),
        Err(DecodeError::MalformedField)
    );
}

#[test]
fn missing_or_non_numeric_tag() {
    assert_eq!(Messsage::decode("{}"), Err(DecodeError::MissingType));
    assert_eq!(
        Messsage::decode("{\"type\":true}"),
        Err(DecodeError::MissingType)
    );
    assert_eq!(Messsage::decode("[1,2]"), Err(DecodeError::MissingType));
}

#[test]
fn garbage_is_malformed_not_a_crash() {
    assert_eq!(Messsage::decode(""), Err(DecodeError::MalformedField));
    assert_eq!(Messsage::decode("{\"type\":1"), Err(DecodeError::MalformedField));
    assert_eq!(Messsage::decode("nonsense"), Err(DecodeError::MalformedField));
}

#[test]
fn encode_then_decode_reproduces_invocation() {
    let encoded = invocation(true).encode().unwrap();
    assert_eq!(Messsage::decode(&encoded).unwrap(), invocation(true));
}

#[test]
fn literal_without_invocation_id_decodes_to_none() {
    let text = "{\"type\":1,\"target\":\"ReceiveMessage\",\"arguments\":[\"Hello\"]}";
    let decoded = Messsage::decode(text).unwrap();
    assert_eq!(decoded, invocation(false));
}

#[test]
fn decode_accepts_trailing_terminator_and_whitespace() {
    assert_eq!(Messsage::decode("{\"type\":6}\x1e").unwrap(), Messsage::Ping);
    assert_eq!(Messsage::decode("{\"type\": 6}").unwrap(), Messsage::Ping);
    assert_eq!(Messsage::decode(" {\"type\":6} ").unwrap(), Messsage::Ping);
}

#[test]
fn null_invocation_id_counts_as_absent() {
    let text = "{\"type\":5,\"invocation_id\":null}";
    assert_eq!(Messsage::decode(text).unwrap(), cancel(false));
}

#[test]
fn control_characters_cannot_be_encoded() {
    let bad = Messsage::Invocation(InvocationFields {
        invocation_id: None,
        target: "a\nb".to_string(),
        arguments: JsonValue::Null,
    });
    assert!(bad.encode().is_err());
    let bad2 = Messsage::Close(CloseFields {
        error: Some("tab\there".to_string()),
    });
    assert_eq!(bad2.serialize(), None);
}

#[test]
fn serialize_and_deserialize_mirror_encode_and_decode() {
    let text = invocation(true).serialize().expect("serializable");
    let back = Messsage::deserialize(&text).expect("deserializable");
    assert_eq!(back, invocation(true));
    assert_eq!(Messsage::deserialize("{\"type\":99}"), None);
}

#[test]
fn string_escapes_round_trip() {
    let msg = Messsage::Close(CloseFields {
        error: Some("he said \"no\" \\ done".to_string()),
    });
    let encoded = msg.encode().unwrap();
    let decoded = Messsage::decode(&encoded).unwrap();
    assert_eq!(
        decoded,
        Messsage::Close(CloseFields {
            error: Some("he said \"no\" \\ done".to_string()),
        })
    );
}

#[test]
fn completion_keeps_result_alongside_error() {
    let msg = completion(true, true);
    let encoded = msg.encode().unwrap();
    assert!(encoded.contains("\"error\":\"boom\""));
    assert!(encoded.contains("\"result\":null"));
}

#[test]
fn nested_payloads_round_trip() {
    let msg = Messsage::StreamItem(StreamItemFields {
        invocation_id: Some("5".to_string()),
        item: JsonValue::Obj(vec![
            ("a".to_string(), JsonValue::Arr(vec![JsonValue::Num(1), JsonValue::Null])),
            ("b".to_string(), JsonValue::Obj(vec![])),
        ]),
    });
    let encoded = msg.encode().unwrap();
    let decoded = Messsage::decode(&encoded).unwrap();
    match decoded {
        Messsage::StreamItem(f) => {
            assert_eq!(f.invocation_id.as_deref(), Some("5"));
            assert_eq!(
                f.item,
                JsonValue::Obj(vec![
                    ("a".to_string(), JsonValue::Arr(vec![JsonValue::Num(1), JsonValue::Null])),
                    ("b".to_string(), JsonValue::Obj(vec![])),
                ])
            );
        }
        other => panic!("expected a stream item, got {:?}", other),
    }
}

#[test]
fn large_numbers_round_trip_and_overflow_is_rejected() {
    let msg = Messsage::StreamItem(StreamItemFields {
        invocation_id: None,
        item: JsonValue::Num(u64::MAX),
    });
    let encoded = msg.encode().unwrap();
    assert!(encoded.contains("18446744073709551615"));
    let decoded = Messsage::decode(&encoded).unwrap();
    match decoded {
        Messsage::StreamItem(f) => assert_eq!(f.item, JsonValue::Num(u64::MAX)),
        other => panic!("expected a stream item, got {:?}", other),
    }
    assert_eq!(
        Messsage::decode("{\"type\":2,\"item\":18446744073709551616}"),
        Err(DecodeError::MalformedField)
    );
}

#[test]
fn encoding_is_deterministic() {
    let first = invocation(true).encode().unwrap();
    let second = invocation(true).encode().unwrap();
    assert_eq!(first, second);
}

#[test]
fn the_first_of_duplicate_keys_wins() {
    assert_eq!(Messsage::decode("{\"type\":6,\"type\":7}").unwrap(), Messsage::Ping);
}
