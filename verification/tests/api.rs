//! Streamed replies, requests and usage.

use claus::api::assembler::{tool_input_from, MessageAssembler, StreamError};
use claus::api::client::{
    is_retryable, is_retryable_status, status_message, Attempts, Client, Failure,
};
use claus::api::stream::{data_lines, event_data, find_double_newline, StreamReader};
use claus::api::types::{ApiErrorBody, ApiErrorDetail, ContentBlock, Usage};
use claus::json::Json;

fn feed(assembler: &mut MessageAssembler, events: &[&str], deltas: &mut String) {
    for event in events {
        if let Some(fragment) = assembler.handle(event).unwrap() {
            deltas.push_str(&fragment);
        }
    }
}

#[test]
fn assembles_text_and_tool_use_from_sse_events() {
    let mut assembler = MessageAssembler::default();
    let mut deltas = String::new();
    feed(
        &mut assembler,
        &[
            r#"{"type":"message_start","message":{"usage":{"input_tokens":42}}}"#,
            r#"{"type":"content_block_start","index":0,"content_block":{"type":"text","text":""}}"#,
            r#"{"type":"content_block_delta","index":0,"delta":{"type":"text_delta","text":"Hola "}}"#,
            r#"{"type":"content_block_delta","index":0,"delta":{"type":"text_delta","text":"mundo"}}"#,
            r#"{"type":"content_block_stop","index":0}"#,
            r#"{"type":"content_block_start","index":1,"content_block":{"type":"tool_use","id":"tu_1","name":"read_file","input":{}}}"#,
            r#"{"type":"content_block_delta","index":1,"delta":{"type":"input_json_delta","partial_json":"{\"path\":"}}"#,
            r#"{"type":"content_block_delta","index":1,"delta":{"type":"input_json_delta","partial_json":"\"a.rs\"}"}}"#,
            r#"{"type":"content_block_stop","index":1}"#,
            r#"{"type":"message_delta","delta":{"stop_reason":"tool_use"},"usage":{"output_tokens":7}}"#,
            r#"{"type":"message_stop"}"#,
        ],
        &mut deltas,
    );

    let response = assembler.finish().unwrap();
    assert_eq!(deltas, "Hola mundo");
    assert_eq!(response.stop_reason, "tool_use");
    assert_eq!(response.usage.input_tokens, 42);
    assert_eq!(response.usage.output_tokens, 7);
    assert_eq!(response.content.len(), 2);
    match &response.content[1] {
        ContentBlock::ToolUse { id, name, input } => {
            assert_eq!(id, "tu_1");
            assert_eq!(name, "read_file");
            assert_eq!(input.get("path").unwrap().as_text(), Some("a.rs"));
        }
        other => panic!("expected tool_use, got {other:?}"),
    }
}

#[test]
fn stream_error_event_fails_the_turn() {
    let mut assembler = MessageAssembler::default();
    let result = assembler.handle(
        r#"{"type":"error","error":{"type":"overloaded_error","message":"try later"}}"#,
    );
    assert!(result.is_err());
}

#[test]
fn finish_without_stop_reason_is_an_error() {
    assert!(MessageAssembler::default().finish().is_err());
}

#[test]
fn stream_errors_have_words() {
    let mut assembler = MessageAssembler::new();
    let error = assembler
        .handle(r#"{"type":"error","error":{"type":"overloaded_error","message":"try later"}}"#)
        .unwrap_err();
    assert_eq!(error.message(), "API stream error overloaded_error: try later");
    let error = assembler.handle(r#"{"type":"error"}"#).unwrap_err();
    assert_eq!(error.message(), "API stream error unknown: ");
    let error = assembler.handle("not json").unwrap_err();
    assert_eq!(error.message(), "invalid SSE payload: not json");
    let error = assembler
        .handle(r#"{"type":"content_block_start","content_block":{"type":"video"}}"#)
        .unwrap_err();
    assert_eq!(error.message(), "unknown content block type in stream: video");
    let error = MessageAssembler::new().finish().unwrap_err();
    assert_eq!(error.message(), "stream ended without a stop_reason");
}

#[test]
fn invalid_tool_input_is_an_error_and_blank_input_an_empty_object() {
    let mut assembler = MessageAssembler::new();
    for event in [
        r#"{"type":"content_block_start","index":0,"content_block":{"type":"tool_use","id":"a","name":"n"}}"#,
        r#"{"type":"content_block_delta","index":0,"delta":{"type":"input_json_delta","partial_json":"{oops"}}"#,
    ] {
        assert!(assembler.handle(event).unwrap().is_none());
    }
    let error = assembler.handle(r#"{"type":"content_block_stop","index":0}"#).unwrap_err();
    assert_eq!(error.message(), "invalid tool input JSON: {oops");

    assert_eq!(tool_input_from(" \n", None).unwrap().to_text(), "{}");
    assert!(matches!(
        tool_input_from("{", None),
        Err(StreamError::InvalidToolInput { buffer }) if buffer == "{"
    ));
    let parsed = tool_input_from("7", Some(Json::count(7))).unwrap();
    assert_eq!(parsed.as_count(), Some(7));
}

#[test]
fn thinking_collects_text_and_signature() {
    let mut assembler = MessageAssembler::new();
    let mut deltas = String::new();
    feed(
        &mut assembler,
        &[
            r#"{"type":"content_block_start","index":0,"content_block":{"type":"thinking","thinking":"a"}}"#,
            r#"{"type":"content_block_delta","index":0,"delta":{"type":"thinking_delta","thinking":"b"}}"#,
            r#"{"type":"content_block_delta","index":0,"delta":{"type":"signature_delta","signature":"s1"}}"#,
            r#"{"type":"content_block_delta","index":0,"delta":{"type":"signature_delta","signature":"s2"}}"#,
            r#"{"type":"content_block_start","index":1,"content_block":{"type":"redacted_thinking","data":"zz"}}"#,
            r#"{"type":"ping"}"#,
            r#"{"type":"message_delta","delta":{"stop_reason":"end_turn"}}"#,
        ],
        &mut deltas,
    );
    assert_eq!(deltas, "");
    let response = assembler.finish().unwrap();
    assert!(matches!(&response.content[0],
        ContentBlock::Thinking { thinking, signature: Some(s) } if thinking == "ab" && s == "s1s2"));
    assert!(matches!(&response.content[1],
        ContentBlock::RedactedThinking { data } if data == "zz"));
}

const BODY: &str = "event: content_block_start\ndata: {\"type\":\"content_block_start\",\"index\":0,\"content_block\":{\"type\":\"text\",\"text\":\"\"}}\n\nevent: x\ndata:{\"type\":\"content_block_delta\",\"index\":0,\"delta\":{\"type\":\"text_delta\",\"text\":\"h\u{e9}\"}}\n\ndata: {\"type\":\"message_delta\",\"delta\":{\"stop_reason\":\"end_turn\"}}\n\n";

#[test]
fn a_reply_reads_the_same_however_it_is_cut() {
    let bytes = BODY.as_bytes();
    for size in 1..bytes.len() {
        let mut reader = StreamReader::new();
        let mut fragments = Vec::new();
        for chunk in bytes.chunks(size) {
            let fed = reader.feed(chunk);
            assert!(fed.error.is_none());
            fragments.extend(fed.fragments);
        }
        assert_eq!(fragments, vec!["h\u{e9}".to_string()]);
        let response = reader.finish().unwrap();
        assert!(matches!(&response.content[0], ContentBlock::Text { text } if text == "h\u{e9}"));
        assert_eq!(response.stop_reason, "end_turn");
    }
}

#[test]
fn fragments_before_a_fault_are_handed_out() {
    let mut reader = StreamReader::new();
    let fed = reader.feed(
        b"data: {\"type\":\"content_block_delta\",\"delta\":{\"type\":\"text_delta\",\"text\":\"a\"}}\n\ndata: {\n\ndata: {\"type\":\"content_block_delta\",\"delta\":{\"type\":\"text_delta\",\"text\":\"b\"}}\n\n",
    );
    assert_eq!(fed.fragments, vec!["a".to_string()]);
    assert_eq!(fed.error.unwrap().message(), "invalid SSE payload: {");
}

#[test]
fn events_end_with_a_blank_line() {
    assert_eq!(find_double_newline(b"ab\n\ncd\n\n"), Some(2));
    assert_eq!(find_double_newline(b"ab\ncd\n"), None);
    assert_eq!(find_double_newline(b""), None);
}

#[test]
fn data_lines_lose_their_label() {
    assert_eq!(
        data_lines("event: x\ndata:  one\nother\ndata:two"),
        vec!["one".to_string(), "two".to_string()]
    );
    // Invalid bytes are replaced, not dropped.
    assert_eq!(event_data(b"data: a\xffb\n\n"), vec!["a\u{fffd}b".to_string()]);
}

#[test]
fn transient_failures_are_retried_three_times() {
    let mut attempts = Attempts::new();
    assert_eq!(attempts.after_failure(Failure::Status(529)), Some(2));
    assert_eq!(attempts.after_failure(Failure::Timeout), Some(4));
    assert_eq!(attempts.after_failure(Failure::Connect), Some(8));
    assert_eq!(attempts.after_failure(Failure::Connect), None);
    assert_eq!(Attempts::new().after_failure(Failure::Other), None);
    assert_eq!(Attempts::new().after_failure(Failure::Status(400)), None);
}

#[test]
fn retryable_statuses() {
    assert!(is_retryable_status(429));
    assert!(is_retryable_status(500));
    assert!(is_retryable_status(599));
    assert!(!is_retryable_status(499));
    assert!(!is_retryable_status(600));
    assert!(is_retryable(Failure::Timeout));
    assert!(!is_retryable(Failure::Other));
}

#[test]
fn failed_requests_have_words() {
    let body = ApiErrorBody {
        error: ApiErrorDetail {
            kind: "invalid_request_error".to_string(),
            message: "bad".to_string(),
        },
    };
    assert_eq!(
        status_message("400 Bad Request", "ignored", Some(&body)),
        "API error 400 Bad Request: invalid_request_error: bad"
    );
    assert_eq!(
        status_message("502 Bad Gateway", "<html>", None),
        "API error 502 Bad Gateway: <html>"
    );
}

#[test]
fn a_request_without_a_system_prompt_has_no_system_block() {
    let client = Client::new("k".into(), "m".into(), 5);
    let request = client.request(None, Vec::new(), Vec::new());
    assert!(request.system.is_none());
    assert_eq!(request.max_tokens, 5);
    assert!(request.stream);
}

#[test]
fn usage_adds_up() {
    let mut total = Usage::default();
    let one = Usage {
        input_tokens: 1,
        output_tokens: 2,
        cache_creation_input_tokens: 3,
        cache_read_input_tokens: 4,
    };
    total.add(&one);
    total.add(&one);
    assert_eq!(total.cache_read_input_tokens, 8);
    assert_eq!(total.context_tokens(), 20);
}
