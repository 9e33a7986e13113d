//! JSON-RPC, language servers and tool servers.

use claus::json::Json;
use claus::lsp::{
    did_open_params, format_locations, frame, initialize_params, language_id, split_command,
    uri_for, FrameHeader, LspState, Readiness,
};
use claus::mcp;
use claus::rpc::{answer_in, notification, outcome, request_message};

fn parse(text: &str) -> Json {
    Json::parse(text).unwrap()
}

#[test]
fn messages_are_json_rpc() {
    assert_eq!(
        request_message(7, "m", Json::object()).to_text(),
        "{\"id\":7,\"jsonrpc\":\"2.0\",\"method\":\"m\",\"params\":{}}"
    );
    assert_eq!(
        notification("n", Json::Null).to_text(),
        "{\"jsonrpc\":\"2.0\",\"method\":\"n\",\"params\":null}"
    );
}

#[test]
fn answers_carry_a_result_or_an_error() {
    let answer = answer_in(&parse("{\"id\":-3,\"result\":[1]}")).unwrap();
    assert_eq!((answer.id, answer.payload.to_text().as_str()), (-3, "[1]"));
    let answer = answer_in(&parse("{\"id\":4,\"error\":{\"code\":1}}")).unwrap();
    assert_eq!(answer.payload.to_text(), "{\"error\":{\"code\":1}}");
    assert_eq!(
        outcome("LSP", "m", answer.payload).unwrap_err(),
        "LSP error for m: {\"code\":1}"
    );
    let answer = answer_in(&parse("{\"id\":4}")).unwrap();
    assert_eq!(outcome("LSP", "m", answer.payload).unwrap().to_text(), "{\"error\":null}");
    assert!(answer_in(&parse("{\"id\":1,\"method\":\"m\"}")).is_none());
    assert!(answer_in(&parse("{\"id\":\"x\"}")).is_none());
    assert!(answer_in(&parse("[]")).is_none());
}

#[test]
fn frames_read_back() {
    let body = "{\"k\":\"h\u{e9}\"}";
    let framed = frame(body);
    assert_eq!(framed, "Content-Length: 11\r\n\r\n{\"k\":\"h\u{e9}\"}");
    let mut header = FrameHeader::new();
    assert!(!header.take_line("Content-Length: 11\r\n"));
    assert!(header.take_line("\r\n"));
    assert_eq!(header.body_length(), Ok(11));
    assert_eq!(body.len(), 11);
}

#[test]
fn a_header_needs_a_length() {
    let mut header = FrameHeader::new();
    assert!(!header.take_line("Content-Type: x\r\n"));
    assert!(header.take_line("\n"));
    assert_eq!(header.body_length(), Err("missing Content-Length header".to_string()));
    assert!(!header.take_line("Content-Length: 5\r\n"));
    assert!(!header.take_line("Content-Length: five\r\n"));
    assert_eq!(header.body_length(), Err("missing Content-Length header".to_string()));
}

#[test]
fn the_server_is_tracked_and_acknowledged() {
    let mut state = LspState::new();
    let reaction = state.on_message(&parse("{\"id\":\"r1\",\"method\":\"client/registerCapability\"}"));
    assert!(reaction.answer.is_none());
    assert_eq!(
        reaction.reply.unwrap().to_text(),
        "{\"id\":\"r1\",\"jsonrpc\":\"2.0\",\"result\":null}"
    );
    assert!(state.is_quiet());
    state.on_message(&parse(
        "{\"method\":\"$/progress\",\"params\":{\"token\":3,\"value\":{\"kind\":\"begin\"}}}",
    ));
    assert!(!state.is_quiet());
    state.on_message(&parse(
        "{\"method\":\"$/progress\",\"params\":{\"token\":3,\"value\":{\"kind\":\"end\"}}}",
    ));
    assert!(state.is_quiet());
    assert!(state.diagnostics_for("u").is_none());
    let reaction = state.on_message(&parse(
        "{\"method\":\"textDocument/publishDiagnostics\",\"params\":{\"uri\":\"u\",\"diagnostics\":[1]}}",
    ));
    assert!(reaction.reply.is_none());
    assert_eq!(state.diagnostics_for("u").unwrap().to_text(), "[1]");
    let reaction = state.on_message(&parse("{\"id\":1,\"result\":null}"));
    assert_eq!(reaction.answer.unwrap().id, 1);
    assert!(!state.is_open("u"));
    assert_eq!(
        state.opening("u", Some("rs"), "t").unwrap().to_text(),
        "{\"jsonrpc\":\"2.0\",\"method\":\"textDocument/didOpen\",\"params\":{\"textDocument\":{\"languageId\":\"rust\",\"text\":\"t\",\"uri\":\"u\",\"version\":1}}}"
    );
    assert!(!state.is_open("u"));
    assert!(state.open_once("u"));
    assert!(state.is_open("u"));
    assert!(state.opening("u", Some("rs"), "t").is_none());
    state.on_message(&parse("{\"method\":\"window/logMessage\",\"params\":{}}"));
    assert!(!state.open_once("u"));
}

#[test]
fn readiness_takes_sustained_quiet() {
    let mut readiness = Readiness::new();
    assert!(!readiness.check(false, false));
    assert!(!readiness.check(false, true));
    assert!(!readiness.check(false, true));
    assert!(!readiness.check(true, true));
    assert!(!readiness.check(false, true));
    assert!(!readiness.check(false, true));
    assert!(readiness.check(false, true));
}

#[test]
fn locations_are_shown_with_one_based_places() {
    let result = parse(
        "[{\"uri\":\"file:///a.rs\",\"range\":{\"start\":{\"line\":1,\"character\":2}}},{\"targetUri\":\"file:///b.rs\",\"targetRange\":{\"start\":{\"line\":0}}},{\"x\":1}]",
    );
    assert_eq!(format_locations(&result), "/a.rs:2\n/b.rs:1");
    assert_eq!(format_locations(&parse("{\"uri\":\"u\"}")), "u:1");
    assert_eq!(
        format_locations(&parse(
            "{\"uri\":\"file:///a.rs\",\"range\":{\"start\":{\"line\":0,\"character\":4}}}"
        )),
        "/a.rs:1"
    );
    assert_eq!(format_locations(&parse("[]")), "no results");
    assert_eq!(format_locations(&Json::Null), "no results");
    assert_eq!(format_locations(&parse("[{}]")), "");
}

#[test]
fn servers_are_started_with_their_arguments() {
    let line = split_command("pyright-langserver  --stdio").unwrap();
    assert_eq!(line.program, "pyright-langserver");
    assert_eq!(line.arguments, vec!["--stdio".to_string()]);
    assert_eq!(split_command("  ").unwrap_err(), "empty LSP command");
    assert_eq!(uri_for("/a/b"), "file:///a/b");
    assert_eq!(
        initialize_params(9, "file:///r").to_text(),
        "{\"capabilities\":{\"textDocument\":{\"definition\":{},\"hover\":{\"contentFormat\":[\"plaintext\",\"markdown\"]},\"publishDiagnostics\":{},\"references\":{}},\"window\":{\"workDoneProgress\":true}},\"processId\":9,\"rootUri\":\"file:///r\",\"workspaceFolders\":[{\"name\":\"workspace\",\"uri\":\"file:///r\"}]}"
    );
}

#[test]
fn documents_are_opened_with_their_language() {
    assert_eq!(language_id(Some("rs")), "rust");
    assert_eq!(language_id(Some("py")), "python");
    assert_eq!(language_id(Some("go")), "go");
    assert_eq!(language_id(None), "plaintext");
    assert_eq!(
        did_open_params("u", Some("rs"), "t").to_text(),
        "{\"textDocument\":{\"languageId\":\"rust\",\"text\":\"t\",\"uri\":\"u\",\"version\":1}}"
    );
}

#[test]
fn tool_results_are_flattened() {
    let result = parse("{\"content\":[{\"text\":\"a\"},{\"image\":1},{\"text\":\"b\"}]}");
    assert_eq!(mcp::call_outcome(&result), Ok("a\nb".to_string()));
    let result = parse("{\"content\":[{\"text\":\"a\"}],\"isError\":true}");
    assert_eq!(mcp::call_outcome(&result), Err("tool reported an error: a".to_string()));
    assert_eq!(mcp::call_outcome(&Json::Null), Ok(String::new()));
    assert_eq!(
        mcp::call_params("t", Json::object()).to_text(),
        "{\"arguments\":{},\"name\":\"t\"}"
    );
    assert_eq!(
        mcp::initialize_params("1.2").to_text(),
        "{\"capabilities\":{},\"clientInfo\":{\"name\":\"claus\",\"version\":\"1.2\"},\"protocolVersion\":\"2025-06-18\"}"
    );
}

#[test]
fn lines_of_a_tool_server_are_read() {
    assert_eq!(mcp::answer_line("{\"id\":2,\"result\":{}}").unwrap().id, 2);
    assert!(mcp::answer_line("{\"method\":\"ping\",\"id\":2}").is_none());
    assert!(mcp::answer_line("garbage").is_none());
    assert!(mcp::answer_from(None).is_none());
    assert!(mcp::McpConfig::default().servers.is_empty());
}
