//! The chat interface, the command line and the configuration.

use claus::agent::AgentEvent;
use claus::api::client::Client;
use claus::api::types::Usage;
use claus::cli::{
    assemble, parse_args, print_event, rag_note, reindex_failure_note, try_print_event, Command,
    Output,
};
use claus::config::{Config, Environment};
use claus::json::Json;
use claus::mcp::McpToolInfo;
use claus::tools::mcp::McpTool;
use claus::tools::shell::{PermissionGate, Shell};
use claus::tui::{
    abbreviated_cwd, branch_from_head, context_window_for, cut_text, entry_lines, leading_line,
    prices, scroll_offset, App, Entry, Key, Kind, Pressed, UiCommand, GREETING,
};

fn app() -> App {
    App::new(
        "opus-5".to_string(),
        vec!["note".to_string()],
        "~/x".to_string(),
        Some("main".to_string()),
    )
}

fn type_text(app: &mut App, text: &str) {
    for c in text.chars() {
        app.handle_input(Key::Char(c, false));
    }
}

#[test]
fn the_chat_starts_with_a_greeting_and_notes() {
    let app = app();
    assert_eq!(app.entries.len(), 2);
    assert_eq!(app.entries[0].text, GREETING);
    assert_eq!(app.entries[1].text, "note");
    assert!(app.entries.iter().all(|entry| entry.kind == Kind::Info));
    assert_eq!(app.context_window, 1_000_000);
}

#[test]
fn prompts_are_sent_one_at_a_time() {
    let mut app = app();
    type_text(&mut app, "  hix ");
    app.handle_input(Key::Backspace);
    app.handle_input(Key::Backspace);
    assert_eq!(app.input, "  hi");
    match app.handle_input(Key::Enter) {
        Pressed::Prompt(prompt) => assert_eq!(prompt, "hi"),
        other => panic!("unexpected {other:?}"),
    }
    assert!(app.busy);
    assert_eq!(app.input, "");
    assert_eq!(app.entries.last().unwrap().text, "hi");
    type_text(&mut app, "again");
    assert!(matches!(app.handle_input(Key::Enter), Pressed::Nothing));
    app.handle_agent_event(AgentEvent::TurnComplete);
    assert!(matches!(app.handle_input(Key::Enter), Pressed::Prompt(_)));
}

#[test]
fn keys_scroll_and_quit() {
    let mut app = app();
    app.handle_input(Key::Up);
    app.handle_input(Key::PageUp);
    assert_eq!(app.scroll_from_bottom, 11);
    app.handle_input(Key::Down);
    assert_eq!(app.scroll_from_bottom, 10);
    app.handle_input(Key::PageDown);
    app.handle_input(Key::PageDown);
    assert_eq!(app.scroll_from_bottom, 0);
    assert!(matches!(app.handle_input(Key::Esc), Pressed::Quit));
    assert!(matches!(app.handle_input(Key::Char('c', true)), Pressed::Quit));
    assert!(matches!(app.handle_input(Key::Char('c', false)), Pressed::Nothing));
    assert!(matches!(app.handle_input(Key::Other), Pressed::Nothing));
    assert_eq!(app.input, "c");
}

#[test]
fn events_become_entries() {
    let mut app = app();
    app.handle_input(Key::Up);
    app.handle_agent_event(AgentEvent::TextDelta("x".to_string()));
    assert_eq!(app.scroll_from_bottom, 0);
    assert_eq!(app.entries.len(), 2);
    app.handle_agent_event(AgentEvent::AssistantText("hello".to_string()));
    app.handle_agent_event(AgentEvent::ToolCall {
        name: "shell".to_string(),
        input: Json::object().with("command", Json::text("ls")),
    });
    app.handle_agent_event(AgentEvent::ToolResult {
        name: "shell".to_string(),
        output: "first\nsecond".to_string(),
        is_error: true,
    });
    app.handle_agent_event(AgentEvent::Info("fyi".to_string()));
    app.handle_agent_event(AgentEvent::Error("bad".to_string()));
    let texts: Vec<(Kind, &str)> =
        app.entries[2..].iter().map(|e| (e.kind, e.text.as_str())).collect();
    assert_eq!(
        texts,
        vec![
            (Kind::Assistant, "hello"),
            (Kind::Tool, "⚙ shell {\"command\":\"ls\"}"),
            (Kind::Error, "  ↳ shell: first"),
            (Kind::Info, "fyi"),
            (Kind::Error, "error: bad"),
        ]
    );
}

#[test]
fn every_end_of_a_turn_frees_the_prompt() {
    for event in [
        AgentEvent::TurnComplete,
        AgentEvent::Interrupted,
        AgentEvent::Error("x".to_string()),
    ] {
        let mut app = app();
        app.busy = true;
        app.handle_agent_event(event);
        assert!(!app.busy);
    }
}

#[test]
fn usage_adds_up_over_requests() {
    let usage = Usage {
        input_tokens: 10,
        output_tokens: 5,
        cache_creation_input_tokens: 1,
        cache_read_input_tokens: 1,
    };
    let mut app = app();
    app.handle_agent_event(AgentEvent::ApiUsage { usage });
    app.handle_agent_event(AgentEvent::ApiUsage { usage });
    assert_eq!(app.context_tokens, 15);
    assert_eq!((app.usage.input_tokens, app.usage.output_tokens), (20, 10));
}

#[test]
fn events_that_do_not_fit_are_told_apart() {
    let mut app = app();
    let long = format!("{}\u{e9}", "x".repeat(90));
    let input = Json::object().with("aaaaa", Json::text(&long));
    let event = AgentEvent::ToolCall { name: "t".to_string(), input };
    // {"aaaaa":" is ten bytes, so the last character lies across the limit.
    assert!(app.try_agent_event(AgentEvent::Info("ok".to_string())));
    let before = app.entries.len();
    let short = AgentEvent::ToolCall {
        name: "t".to_string(),
        input: Json::object().with("aaaa", Json::text(&long)),
    };
    assert!(!app.try_agent_event(short));
    assert_eq!(app.entries.len(), before);
    assert!(app.try_agent_event(event));
}

#[test]
fn text_is_cut_between_characters() {
    assert_eq!(cut_text("abc", 5), Some("abc".to_string()));
    assert_eq!(cut_text("abc", 2), Some("ab".to_string()));
    assert_eq!(cut_text("a\u{e9}b", 3), Some("a\u{e9}".to_string()));
    assert_eq!(cut_text("a\u{e9}b", 2), None);
    assert_eq!(leading_line("one\ntwo"), "one");
    assert_eq!(leading_line(""), "");
}

#[test]
fn entries_are_drawn_with_their_speaker() {
    let entry = Entry { kind: Kind::User, text: "a\nb".to_string() };
    assert_eq!(entry_lines(&entry), vec!["you › a", "b", ""]);
    let entry = Entry { kind: Kind::Assistant, text: "a".to_string() };
    assert_eq!(entry_lines(&entry), vec!["claus › a", ""]);
    let entry = Entry { kind: Kind::Tool, text: "a".to_string() };
    assert_eq!(entry_lines(&entry), vec!["a"]);
}

#[test]
fn the_view_ends_at_the_bottom_unless_scrolled() {
    // Rows: 1 (empty), 1, 2, 3.
    let list: Vec<String> = ["", "abcd", "abcde", "abcdefghi"].iter().map(|s| s.to_string()).collect();
    assert_eq!(scroll_offset(&list, 4, 3, 0), 4);
    assert_eq!(scroll_offset(&list, 4, 3, 1), 3);
    assert_eq!(scroll_offset(&list, 4, 3, 9), 0);
    assert_eq!(scroll_offset(&list, 4, 10, 0), 0);
}

#[test]
fn the_status_line_shows_place_model_and_cost() {
    let mut app = app();
    app.busy = true;
    app.tick();
    let line: String =
        app.status_line(2, "22", "0.53").iter().map(|span| span.text.clone()).collect();
    assert_eq!(line, "📁 ~/x (main) · opus-5 · ▰▰▱▱▱▱▱▱▱▱ 22% · $0.53  ⠙ working");
    app.busy = false;
    app.tick();
    assert_eq!(app.spinner_tick, 1);
    assert_eq!(app.status_line(10, "100", "9.99").len(), 10);
}

#[test]
fn models_have_windows_and_prices() {
    assert_eq!(context_window_for("haiku-4"), 200_000);
    assert_eq!(context_window_for("opus-5"), 1_000_000);
    assert_eq!(prices("fable"), (10, 50));
    assert_eq!(prices("mythos"), (10, 50));
    assert_eq!(prices("opus-5"), (5, 25));
    assert_eq!(prices("sonnet-5"), (2, 10));
    assert_eq!(prices("sonnet-4"), (3, 15));
    assert_eq!(prices("haiku"), (1, 5));
    assert_eq!(prices("other"), (5, 25));
}

#[test]
fn places_are_abbreviated() {
    assert_eq!(abbreviated_cwd("/home/me/x", "/home/me"), "~/x");
    assert_eq!(abbreviated_cwd("/srv", "/home/me"), "/srv");
    assert_eq!(abbreviated_cwd("/srv", ""), "/srv");
    assert_eq!(branch_from_head("ref: refs/heads/feat/x\n"), "feat/x");
    assert_eq!(branch_from_head("0123456789abcdef\n"), "01234567");
}

fn args(list: &[&str]) -> Vec<String> {
    list.iter().map(|s| s.to_string()).collect()
}

#[test]
fn arguments_choose_the_command() {
    assert!(matches!(parse_args(&args(&[])), Command::Tui));
    assert!(matches!(parse_args(&args(&["index"])), Command::Index));
    assert!(matches!(parse_args(&args(&["ask", "why", "so"])), Command::Ask(q) if q == "why so"));
    assert!(matches!(parse_args(&args(&["ask"])), Command::Usage));
    assert!(matches!(parse_args(&args(&["help"])), Command::Usage));
}

#[test]
fn events_are_printed() {
    let printed = print_event(&AgentEvent::TextDelta("a".to_string()));
    assert!(matches!(printed, Output::Text(t) if t == "a"));
    let printed = print_event(&AgentEvent::AssistantText("a".to_string()));
    assert!(matches!(printed, Output::Text(t) if t == "\n"));
    let printed = print_event(&AgentEvent::ToolCall { name: "n".to_string(), input: Json::Null });
    assert!(matches!(printed, Output::Diagnostic(t) if t == "[tool] n null\n"));
    let failed = AgentEvent::ToolResult {
        name: "n".to_string(),
        output: "x\ny".to_string(),
        is_error: true,
    };
    assert!(matches!(print_event(&failed), Output::Diagnostic(t) if t == "[tool] n failed: x\n"));
    let fine = AgentEvent::ToolResult {
        name: "n".to_string(),
        output: "x".to_string(),
        is_error: false,
    };
    assert!(matches!(print_event(&fine), Output::Nothing));
    let input = Json::text(&format!("{}\u{e9}", "x".repeat(118)));
    let call = AgentEvent::ToolCall { name: "n".to_string(), input };
    assert!(try_print_event(&call).is_none());
    assert!(try_print_event(&AgentEvent::TurnComplete).is_some());
}

struct Never;

impl PermissionGate for Never {
    fn approve(&self, _command: &str) -> bool {
        false
    }
}

#[test]
fn agents_start_with_their_tools() {
    let mcp = vec![McpTool::new(
        "s",
        McpToolInfo {
            name: "t".to_string(),
            description: String::new(),
            input_schema: Json::object(),
        },
    )];
    let client = Client::new("k".to_string(), "m".to_string(), 1);
    let shell = Shell::<Never>::new(None);
    let (registry, dispatch) = assemble(&shell, true, &mcp, client, "/w".to_string());
    let names: Vec<&str> = registry.tools.iter().map(|t| t.definition.name.as_str()).collect();
    assert_eq!(
        names,
        vec![
            "read_file",
            "write_file",
            "edit_file",
            "list_dir",
            "shell",
            "search_text",
            "lsp_definition",
            "lsp_references",
            "lsp_hover",
            "rag_search",
            "mcp__s__t",
            "dispatch_agent",
        ]
    );
    assert_eq!(registry.find("mcp__s__t"), Ok(10));
    assert_eq!(dispatch.registry.tools.len(), 11);
    let (registry, _) = assemble(
        &shell,
        false,
        &[],
        Client::new("k".to_string(), "m".to_string(), 1),
        "/w".to_string(),
    );
    assert_eq!(registry.tools.len(), 10);
}

#[test]
fn startup_notes() {
    assert_eq!(
        rag_note(&Ok(())),
        "rag_search ready (index kept fresh by the file watcher)"
    );
    assert_eq!(rag_note(&Err("no key".to_string())), "rag_search disabled: no key");
    assert_eq!(reindex_failure_note("x"), "background reindex failed: x");
}

fn environment() -> Environment {
    Environment {
        anthropic_api_key: Some("k".to_string()),
        voyage_api_key: None,
        claus_model: None,
        claus_max_tokens: None,
        qdrant_url: None,
    }
}

#[test]
fn configuration_has_defaults() {
    let config = Config::from_env(environment(), "opus-5").unwrap();
    assert_eq!(config.model, "opus-5");
    assert_eq!(config.max_tokens, 16_000);
    assert_eq!(config.qdrant_url, "http://localhost:6334");
    assert_eq!(
        config.embedding_key().unwrap_err(),
        "VOYAGE_API_KEY is not set (required for embeddings)"
    );
}

#[test]
fn configuration_is_read_from_the_environment() {
    let mut env = environment();
    env.voyage_api_key = Some("v".to_string());
    env.claus_model = Some("m".to_string());
    env.claus_max_tokens = Some("200".to_string());
    env.qdrant_url = Some("u".to_string());
    let config = Config::from_env(env, "opus-5").unwrap();
    assert_eq!(config.embedding_key(), Ok("v".to_string()));
    assert_eq!((config.model.as_str(), config.max_tokens), ("m", 200));
    assert_eq!(config.qdrant_url, "u");

    let mut env = environment();
    env.voyage_api_key = Some(String::new());
    env.claus_max_tokens = Some("many".to_string());
    let config = Config::from_env(env, "opus-5").unwrap();
    assert!(config.voyage_api_key.is_none());
    assert_eq!(config.max_tokens, 16_000);

    let mut env = environment();
    env.anthropic_api_key = None;
    assert_eq!(Config::from_env(env, "opus-5").unwrap_err(), "ANTHROPIC_API_KEY is not set");
}

#[test]
fn only_an_interrupt_cancels_a_turn() {
    assert!(UiCommand::Interrupt.interrupts());
    assert!(!UiCommand::Clear.interrupts());
    assert!(!UiCommand::Prompt("x".to_string()).interrupts());
}
