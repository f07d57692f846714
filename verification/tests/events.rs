use kiro_rs::kiro::model::events::base::{
    truncate_snippet, Event, EventType, Frame, ParseError, UNKNOWN_PAYLOAD_SNIPPET_MAX,
};

#[test]
fn test_event_type_from_str() {
    assert_eq!(
        EventType::from_str("assistantResponseEvent"),
        EventType::AssistantResponse
    );
    assert_eq!(EventType::from_str("toolUseEvent"), EventType::ToolUse);
    assert_eq!(EventType::from_str("meteringEvent"), EventType::Metering);
    assert_eq!(
        EventType::from_str("contextUsageEvent"),
        EventType::ContextUsage
    );
    assert_eq!(
        EventType::from_str("reasoningContentEvent"),
        EventType::ReasoningContent
    );
    assert_eq!(EventType::from_str("unknown_type"), EventType::Unknown);
}

#[test]
fn test_event_type_as_str() {
    assert_eq!(
        EventType::AssistantResponse.as_str(),
        "assistantResponseEvent"
    );
    assert_eq!(EventType::ToolUse.as_str(), "toolUseEvent");
}

#[test]
fn truncate_snippet_respects_limit_and_trims() {
    assert_eq!(truncate_snippet("  hi  "), "hi");
    let long = "x".repeat(UNKNOWN_PAYLOAD_SNIPPET_MAX + 50);
    let out = truncate_snippet(&long);
    assert!(out.ends_with("…(truncated)"));
    assert!(out.len() <= UNKNOWN_PAYLOAD_SNIPPET_MAX + 20);
}

fn frame(headers: &[(&str, &str)], payload: &[u8]) -> Frame {
    Frame {
        headers: headers
            .iter()
            .map(|(k, v)| (k.to_string(), v.to_string()))
            .collect(),
        payload: payload.to_vec(),
    }
}

/// An unknown frame keeps its `:event-type` name and a payload excerpt.
#[test]
fn unknown_event_carries_type_name_and_payload() {
    let f = frame(
        &[(":message-type", "event"), (":event-type", "brandNewEvent")],
        br#"{"foo":"bar"}"#,
    );
    match Event::from_frame(f).unwrap() {
        Event::Unknown {
            event_type,
            payload_snippet,
        } => {
            assert_eq!(event_type, "brandNewEvent");
            assert_eq!(payload_snippet, r#"{"foo":"bar"}"#);
        }
        other => panic!("expected Unknown, got {:?}", other),
    }
}

#[test]
fn event_type_names_round_trip() {
    for t in [
        EventType::AssistantResponse,
        EventType::ToolUse,
        EventType::Metering,
        EventType::ContextUsage,
        EventType::ReasoningContent,
        EventType::Unknown,
    ] {
        assert_eq!(EventType::from_str(t.as_str()), t);
    }
    assert_eq!(EventType::Unknown.as_str(), "unknown");
}

#[test]
fn snippet_cut_keeps_whole_characters() {
    let long = "é".repeat(400); // 800 bytes
    let out = truncate_snippet(&format!("\n{}\t", long));
    assert_eq!(out, format!("{}…(truncated)", "é".repeat(256)));
    let fits = "é".repeat(256);
    assert_eq!(truncate_snippet(&fits), fits);
}

#[test]
fn known_event_keeps_its_payload() {
    let f = frame(
        &[(":message-type", "event"), (":event-type", "toolUseEvent")],
        br#"{"name":"x"}"#,
    );
    assert_eq!(
        Event::from_frame(f),
        Ok(Event::ToolUse(br#"{"name":"x"}"#.to_vec()))
    );
}

#[test]
fn missing_headers_default_to_event_of_unknown_type() {
    let f = frame(&[], b"  body  ");
    assert_eq!(
        Event::from_frame(f),
        Ok(Event::Unknown {
            event_type: "unknown".to_string(),
            payload_snippet: "body".to_string(),
        })
    );
}

#[test]
fn later_header_replaces_earlier_one() {
    let f = frame(
        &[(":event-type", "toolUseEvent"), (":event-type", "meteringEvent")],
        b"{}",
    );
    assert_eq!(f.event_type(), Some("meteringEvent"));
    assert_eq!(Event::from_frame(f), Ok(Event::Metering(b"{}".to_vec())));
}

#[test]
fn error_and_exception_frames() {
    let f = frame(
        &[(":message-type", "error"), (":error-code", "Throttled")],
        b"slow down",
    );
    assert_eq!(
        Event::from_frame(f),
        Ok(Event::Error {
            error_code: "Throttled".to_string(),
            error_message: "slow down".to_string(),
        })
    );
    let f = frame(&[(":message-type", "error")], b"x");
    assert_eq!(
        Event::from_frame(f),
        Ok(Event::Error {
            error_code: "UnknownError".to_string(),
            error_message: "x".to_string(),
        })
    );
    let f = frame(&[(":message-type", "exception")], b"\xffbad");
    assert_eq!(
        Event::from_frame(f),
        Ok(Event::Exception {
            exception_type: "UnknownException".to_string(),
            message: "\u{fffd}bad".to_string(),
        })
    );
}

#[test]
fn other_message_types_are_rejected() {
    let f = frame(&[(":message-type", "weird")], b"");
    assert_eq!(
        Event::from_frame(f),
        Err(ParseError::InvalidMessageType("weird".to_string()))
    );
}

#[test]
fn known_event_with_malformed_payload_is_rejected() {
    let f = frame(
        &[(":message-type", "event"), (":event-type", "toolUseEvent")],
        b"not json",
    );
    assert_eq!(Event::from_frame(f), Err(ParseError::InvalidPayload));
    let f = frame(&[(":event-type", "meteringEvent")], br#"{"usage":1"#);
    assert_eq!(Event::from_frame(f), Err(ParseError::InvalidPayload));
    let f = frame(&[(":event-type", "contextUsageEvent")], b"");
    assert_eq!(Event::from_frame(f), Err(ParseError::InvalidPayload));
}

#[test]
fn known_event_accepts_json_with_surrounding_whitespace() {
    let f = frame(&[(":event-type", "reasoningContentEvent")], b" {\"text\":\"a\"}\n");
    assert_eq!(
        Event::from_frame(f),
        Ok(Event::ReasoningContent(b" {\"text\":\"a\"}\n".to_vec()))
    );
}

#[test]
fn unknown_event_needs_no_json_payload() {
    let f = frame(&[(":event-type", "brandNewEvent")], b"plain text");
    assert_eq!(
        Event::from_frame(f),
        Ok(Event::Unknown {
            event_type: "brandNewEvent".to_string(),
            payload_snippet: "plain text".to_string(),
        })
    );
}
