use chat_bridge::bridge::{
    interpret_outcome, parse_response, status_is_success, ChatBridge, ChatError, ChatRequest,
    ChatResponse, HttpOutcome,
};

fn ok_response(r: Result<ChatResponse, ChatError>) -> ChatResponse {
    match r {
        Ok(resp) => resp,
        Err(e) => panic!("expected success, got error: {}", e.message()),
    }
}

fn outcome(status: u16, body: &str) -> HttpOutcome {
    HttpOutcome::Response { status, body: body.to_string() }
}

#[test]
fn echo_round_trip() {
    let r = ok_response(interpret_outcome(outcome(200, "{\"reply\":\"hello\",\"timestamp\":\"T\"}")));
    assert_eq!(r.reply, "hello");
    assert_eq!(r.timestamp, Some("T".to_string()));
}

#[test]
fn timestamp_absent_is_none() {
    let r = ok_response(interpret_outcome(outcome(200, "{\"reply\":\"hi\"}")));
    assert_eq!(r.reply, "hi");
    assert_eq!(r.timestamp, None);
}

#[test]
fn timestamp_null_is_none() {
    let r = ok_response(interpret_outcome(outcome(200, "{\"reply\":\"hi\",\"timestamp\":null}")));
    assert_eq!(r.reply, "hi");
    assert_eq!(r.timestamp, None);
}

#[test]
fn server_error_has_status_in_message() {
    let r = interpret_outcome(outcome(500, "oops"));
    match r {
        Err(ChatError::Server { status }) => {
            assert_eq!(status, 500);
        }
        _ => panic!("expected a server error"),
    }
    let msg = interpret_outcome(outcome(500, "oops")).err().unwrap().message();
    assert!(msg.contains("500"));
    assert_eq!(msg, "server error: status 500");
}

#[test]
fn transport_failure_is_transport_error() {
    let r = interpret_outcome(HttpOutcome::TransportFailed {
        cause: "connection refused".to_string(),
    });
    match r {
        Err(ChatError::Transport { cause }) => {
            assert_eq!(cause, "connection refused");
        }
        _ => panic!("expected a transport error"),
    }
}

#[test]
fn transport_message_contains_cause() {
    let e = interpret_outcome(HttpOutcome::TransportFailed {
        cause: "connection refused".to_string(),
    })
    .err()
    .unwrap();
    let msg = e.message();
    assert!(msg.contains("connection refused"));
    assert!(!msg.is_empty());
}

#[test]
fn missing_reply_is_decode_error() {
    let r = interpret_outcome(outcome(200, "{\"timestamp\":\"T\"}"));
    assert!(matches!(r, Err(ChatError::Decode { .. })));
}

#[test]
fn decode_error_message_nonempty() {
    let e = interpret_outcome(outcome(200, "{}")).err().unwrap();
    let msg = e.message();
    assert!(msg.starts_with("failed to parse response: "));
    assert!(!msg.is_empty());
}

#[test]
fn idempotent_interpretation() {
    let body = "{\"reply\":\"same\",\"timestamp\":\"T1\"}";
    let a = ok_response(interpret_outcome(outcome(200, body)));
    let b = ok_response(interpret_outcome(outcome(200, body)));
    assert_eq!(a.reply, b.reply);
    assert_eq!(a.timestamp, b.timestamp);
}

#[test]
fn distinct_messages_do_not_cross() {
    let messages = ["first", "second", "third", "fourth"];
    for m in messages.iter() {
        let body = format!("{}\"reply\":\"{}\"{}", "{", m, "}");
        let r = ok_response(interpret_outcome(outcome(200, &body)));
        assert_eq!(r.reply, *m);
    }
}

#[test]
fn unknown_members_are_skipped() {
    let body = "{\"reply\":\"x\",\"extra\":{\"a\":[1,2,{\"b\":\"}\"}]},\"n\":12.5,\"flag\":true,\"nothing\":null}";
    let r = ok_response(interpret_outcome(outcome(200, body)));
    assert_eq!(r.reply, "x");
}

#[test]
fn duplicate_reply_is_rejected() {
    let r = interpret_outcome(outcome(200, "{\"reply\":\"a\",\"reply\":\"b\"}"));
    assert!(matches!(r, Err(ChatError::Decode { .. })));
}

#[test]
fn duplicate_timestamp_is_rejected() {
    let r = interpret_outcome(outcome(
        200,
        "{\"reply\":\"a\",\"timestamp\":\"x\",\"timestamp\":\"y\"}",
    ));
    assert!(matches!(r, Err(ChatError::Decode { .. })));
}

#[test]
fn trailing_content_is_rejected() {
    let r = interpret_outcome(outcome(200, "{\"reply\":\"a\"} x"));
    assert!(matches!(r, Err(ChatError::Decode { .. })));
}

#[test]
fn empty_body_is_rejected() {
    let r = interpret_outcome(outcome(200, ""));
    assert!(matches!(r, Err(ChatError::Decode { .. })));
}

#[test]
fn non_object_body_is_rejected() {
    let r = interpret_outcome(outcome(200, "[1,2]"));
    assert!(matches!(r, Err(ChatError::Decode { .. })));
    let r = interpret_outcome(outcome(200, "\"reply\""));
    assert!(matches!(r, Err(ChatError::Decode { .. })));
}

#[test]
fn empty_object_is_rejected() {
    let r = interpret_outcome(outcome(200, "{}"));
    assert!(matches!(r, Err(ChatError::Decode { .. })));
}

#[test]
fn non_string_reply_is_rejected() {
    assert!(matches!(
        interpret_outcome(outcome(200, "{\"reply\":5}")),
        Err(ChatError::Decode { .. })
    ));
    assert!(matches!(
        interpret_outcome(outcome(200, "{\"reply\":null}")),
        Err(ChatError::Decode { .. })
    ));
}

#[test]
fn escapes_are_decoded() {
    let body = "{\"reply\":\"a\\u0041\\n\\\"\\\\\\/\\b\\f\\r\\tb\"}";
    let r = ok_response(interpret_outcome(outcome(200, body)));
    assert_eq!(r.reply, "aA\n\"\\/\u{8}\u{c}\r\tb");
}

#[test]
fn surrogate_pair_is_decoded() {
    let r = ok_response(interpret_outcome(outcome(200, "{\"reply\":\"\\ud83d\\ude00\"}")));
    assert_eq!(r.reply, "\u{1F600}");
}

#[test]
fn lone_surrogate_is_rejected() {
    let r = interpret_outcome(outcome(200, "{\"reply\":\"\\ud83d\"}"));
    assert!(matches!(r, Err(ChatError::Decode { .. })));
}

#[test]
fn bad_escape_is_rejected() {
    let r = interpret_outcome(outcome(200, "{\"reply\":\"\\x\"}"));
    assert!(matches!(r, Err(ChatError::Decode { .. })));
}

#[test]
fn raw_control_character_is_rejected() {
    let r = interpret_outcome(outcome(200, "{\"reply\":\"a\nb\"}"));
    assert!(matches!(r, Err(ChatError::Decode { .. })));
}

#[test]
fn whitespace_is_tolerated() {
    let r = ok_response(interpret_outcome(outcome(
        200,
        " { \"reply\" : \"hi\" , \"timestamp\" : \"T\" } ",
    )));
    assert_eq!(r.reply, "hi");
    assert_eq!(r.timestamp, Some("T".to_string()));
}

#[test]
fn status_boundaries() {
    assert!(!status_is_success(199));
    assert!(status_is_success(200));
    assert!(status_is_success(299));
    assert!(!status_is_success(300));
    let ok_at_edge = interpret_outcome(outcome(299, "{\"reply\":\"e\"}"));
    assert_eq!(ok_response(ok_at_edge).reply, "e");
    assert!(matches!(
        interpret_outcome(outcome(300, "{\"reply\":\"e\"}")),
        Err(ChatError::Server { status: 300 })
    ));
    assert!(matches!(
        interpret_outcome(outcome(404, "{\"reply\":\"e\"}")),
        Err(ChatError::Server { status: 404 })
    ));
}

#[test]
fn parse_response_directly() {
    let r = parse_response("{\"reply\":\"direct\"}").unwrap();
    assert_eq!(r.reply, "direct");
    assert!(parse_response("{\"reply\":").is_none());
}

#[test]
fn request_body_is_exact_json() {
    let r = ChatRequest::new("hello".to_string());
    assert_eq!(r.to_json(), "{\"message\":\"hello\"}");
}

#[test]
fn request_body_escapes_specials() {
    let r = ChatRequest::new("a\"b\\c\nd\te\u{1}f".to_string());
    assert_eq!(r.to_json(), "{\"message\":\"a\\\"b\\\\c\\nd\\te\\u0001f\"}");
}

#[test]
fn request_body_empty_message() {
    let r = ChatRequest::new(String::new());
    assert_eq!(r.to_json(), "{\"message\":\"\"}");
}

#[test]
fn request_round_trips_through_echo() {
    let texts = ["plain", "with \"quotes\"", "uni\u{1F600}code", "line\nbreak"];
    for m in texts.iter() {
        let body_sent = ChatRequest::new(m.to_string()).to_json();
        let echoed = body_sent.replace("message", "reply");
        let r = ok_response(interpret_outcome(outcome(200, &echoed)));
        assert_eq!(r.reply, *m);
    }
}

#[test]
fn endpoint_url_default() {
    let b = ChatBridge::new();
    assert_eq!(b.endpoint_url(), "http://localhost:8080/api/v1/chat");
}

#[test]
fn endpoint_url_override() {
    let b = ChatBridge::with_base_url("http://127.0.0.1:9999".to_string());
    assert_eq!(b.endpoint_url(), "http://127.0.0.1:9999/api/v1/chat");
}
