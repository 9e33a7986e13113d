//! The agent loop and its conversation.

use claus::agent::context::{approx_chars, trim, CLEARED_MARKER, CONTEXT_CLEAR_CHARS};
use claus::agent::history::{repair, tool_calls, INTERRUPTED};
use claus::agent::subagent::{DispatchAgent, SUB_AGENT_TAIL};
use claus::agent::{
    default_system_prompt, fragment_event, AgentEvent, AgentLoop, Progress, TurnEnd, TurnError,
    MAX_ITERATIONS,
};
use claus::api::client::Client;
use claus::api::types::{ApiResponse, ContentBlock, Message, Role, ToolDefinition, Usage};
use claus::json::Json;
use claus::tools::{RegisteredTool, Registry};

fn test_client() -> Client {
    Client::new("test-key".into(), "test-model".into(), 100)
}

fn test_agent() -> AgentLoop {
    AgentLoop::new(test_client(), Registry::default(), "system".into())
}

fn usage(input: u32, output: u32) -> Usage {
    Usage {
        input_tokens: input,
        output_tokens: output,
        cache_creation_input_tokens: 0,
        cache_read_input_tokens: 0,
    }
}

fn reply(content: Vec<ContentBlock>, stop_reason: &str) -> ApiResponse {
    ApiResponse { content, stop_reason: stop_reason.to_string(), usage: usage(1, 2) }
}

fn text(t: &str) -> ContentBlock {
    ContentBlock::Text { text: t.to_string() }
}

fn call(id: &str, name: &str) -> ContentBlock {
    ContentBlock::ToolUse { id: id.to_string(), name: name.to_string(), input: Json::object() }
}

fn result(id: &str, content: &str) -> ContentBlock {
    ContentBlock::ToolResult {
        tool_use_id: id.to_string(),
        content: content.to_string(),
        is_error: None,
    }
}

fn tool(name: &str, handle: usize) -> RegisteredTool {
    RegisteredTool {
        definition: ToolDefinition {
            name: name.to_string(),
            description: format!("{name} does something"),
            input_schema: Json::object(),
        },
        handle,
    }
}

#[test]
fn repair_adds_results_for_dangling_tool_use() {
    let mut agent = test_agent();
    agent.messages.push(Message::user_text("do something"));
    agent.messages.push(Message {
        role: Role::Assistant,
        content: vec![ContentBlock::ToolUse {
            id: "tu_1".into(),
            name: "shell".into(),
            input: Json::object(),
        }],
    });
    agent.repair_interrupted();

    let last = agent.messages.last().unwrap();
    assert_eq!(last.role, Role::User);
    assert!(matches!(&last.content[0],
        ContentBlock::ToolResult { tool_use_id, is_error: Some(true), .. } if tool_use_id == "tu_1"));
}

#[test]
fn repair_is_a_no_op_without_dangling_tool_use() {
    let mut agent = test_agent();
    agent.messages.push(Message::user_text("hi"));
    agent.repair_interrupted();
    assert_eq!(agent.messages.len(), 1);
}

#[test]
fn trim_clears_old_tool_results_but_keeps_recent() {
    let mut agent = test_agent();
    let big = "x".repeat(CONTEXT_CLEAR_CHARS / 2);
    for i in 0..12 {
        agent.messages.push(Message::tool_results(vec![ContentBlock::ToolResult {
            tool_use_id: format!("tu_{i}"),
            content: big.clone(),
            is_error: None,
        }]));
    }
    agent.trim_context();

    let cleared = |m: &Message| matches!(&m.content[0], ContentBlock::ToolResult { content, .. } if content == CLEARED_MARKER);
    assert!(cleared(&agent.messages[0]), "oldest result should be cleared");
    assert!(
        !cleared(agent.messages.last().unwrap()),
        "recent results must stay intact"
    );
}

#[test]
fn trim_tells_how_many_results_it_cleared() {
    let mut agent = test_agent();
    let big = "x".repeat(CONTEXT_CLEAR_CHARS / 2);
    for i in 0..12 {
        agent.messages.push(Message::tool_results(vec![result(&format!("tu_{i}"), &big)]));
    }
    match agent.trim_context() {
        Some(AgentEvent::Info(words)) => {
            assert_eq!(words, "context trimmed: cleared 4 old tool result(s)");
        }
        other => panic!("unexpected {other:?}"),
    }
    assert!(agent.trim_context().is_none());
}

#[test]
fn trim_stops_as_soon_as_the_budget_is_met() {
    let mut messages = Vec::new();
    for i in 0..10 {
        let size = if i < 2 { CONTEXT_CLEAR_CHARS / 2 } else { 100 };
        messages.push(Message::tool_results(vec![result("tu", &"x".repeat(size))]));
    }
    assert_eq!(approx_chars(&messages), 600_800);
    assert_eq!(trim(&mut messages), 1);
    assert_eq!(approx_chars(&messages), 300_800 + CLEARED_MARKER.len());
}

#[test]
fn trim_leaves_a_small_conversation_alone() {
    let mut messages = vec![Message::tool_results(vec![result("tu", &"x".repeat(1000))]); 1];
    assert_eq!(trim(&mut messages), 0);
    assert_eq!(approx_chars(&messages), 1000);
}

#[test]
fn size_counts_every_kind_of_block() {
    let input = Json::object().with("a", Json::count(1));
    let messages = vec![Message {
        role: Role::Assistant,
        content: vec![
            text("hé"),
            ContentBlock::Thinking { thinking: "abc".into(), signature: Some("zzz".into()) },
            ContentBlock::RedactedThinking { data: "dd".into() },
            ContentBlock::ToolUse { id: "1".into(), name: "n".into(), input },
            result("1", "four"),
        ],
    }];
    // 3 + 3 + 2 + {"a":1} + 4
    assert_eq!(approx_chars(&messages), 3 + 3 + 2 + 7 + 4);
}

#[test]
fn repair_answers_every_call_in_order() {
    let mut messages = vec![
        Message::user_text("go"),
        Message {
            role: Role::Assistant,
            content: vec![call("a", "x"), text("and"), call("b", "y")],
        },
    ];
    repair(&mut messages);
    repair(&mut messages);
    assert_eq!(messages.len(), 3);
    let ids: Vec<&str> = messages[2]
        .content
        .iter()
        .map(|block| match block {
            ContentBlock::ToolResult { tool_use_id, content, is_error } => {
                assert_eq!(content, INTERRUPTED);
                assert_eq!(*is_error, Some(true));
                tool_use_id.as_str()
            }
            other => panic!("unexpected {other:?}"),
        })
        .collect();
    assert_eq!(ids, vec!["a", "b"]);
}

#[test]
fn a_turn_runs_tools_and_ends() {
    let mut agent = test_agent();
    let mut turn = agent.begin_turn("hello".to_string());
    let prepared = agent.next_request(&mut turn).unwrap();
    assert!(prepared.event.is_none());
    assert_eq!(prepared.request.model, "test-model");
    assert_eq!(prepared.request.max_tokens, 100);
    assert!(prepared.request.stream);
    assert_eq!(prepared.request.messages.len(), 1);

    let (progress, events) =
        agent.on_response(&mut turn, reply(vec![text("looking"), call("t1", "shell")], "tool_use"));
    assert_eq!(events.len(), 2);
    assert!(matches!(&events[0], AgentEvent::ApiUsage { usage } if usage.output_tokens == 2));
    assert!(matches!(&events[1], AgentEvent::AssistantText(t) if t == "looking"));
    let calls = match progress {
        Progress::RunTools(calls) => calls,
        other => panic!("unexpected {other:?}"),
    };
    assert_eq!(calls.len(), 1);
    assert!(matches!(calls[0].started(), AgentEvent::ToolCall { name, .. } if name == "shell"));
    let outcome: Result<String, String> = Err("denied".to_string());
    assert!(matches!(calls[0].finished(&outcome),
        AgentEvent::ToolResult { output, is_error: true, .. } if output == "denied"));
    agent.on_tool_results(&calls, vec![outcome]);
    assert_eq!(agent.messages.len(), 3);
    assert!(matches!(&agent.messages[2].content[0],
        ContentBlock::ToolResult { tool_use_id, is_error: Some(true), .. } if tool_use_id == "t1"));

    agent.next_request(&mut turn).unwrap();
    let (progress, events) = agent.on_response(&mut turn, reply(vec![text("done")], "end_turn"));
    assert!(matches!(progress, Progress::Done(t) if t == "done"));
    assert!(matches!(events.last(), Some(AgentEvent::TurnComplete)));
    assert_eq!(agent.messages.len(), 4);
}

#[test]
fn an_empty_text_keeps_the_latest_one() {
    let mut agent = test_agent();
    let mut turn = agent.begin_turn("hello".to_string());
    agent.on_response(&mut turn, reply(vec![text("first"), text("")], "tool_use"));
    let (progress, events) = agent.on_response(&mut turn, reply(vec![text("")], "end_turn"));
    assert!(matches!(progress, Progress::Done(t) if t == "first"));
    assert_eq!(events.len(), 2);
}

#[test]
fn refusals_and_cut_off_replies_fail_the_turn() {
    let mut agent = test_agent();
    let mut turn = agent.begin_turn("hello".to_string());
    let (progress, _) = agent.on_response(&mut turn, reply(vec![], "refusal"));
    match progress {
        Progress::Failed(error) => assert_eq!(
            error.message(),
            "the model declined this request (stop_reason: refusal)"
        ),
        other => panic!("unexpected {other:?}"),
    }
    let (progress, _) = agent.on_response(&mut turn, reply(vec![], "max_tokens"));
    match progress {
        Progress::Failed(error) => {
            assert_eq!(error.message(), "response was cut off by the max_tokens limit")
        }
        other => panic!("unexpected {other:?}"),
    }
}

#[test]
fn a_turn_takes_a_bounded_number_of_requests() {
    let mut agent = test_agent();
    let mut turn = agent.begin_turn("hello".to_string());
    for _ in 0..MAX_ITERATIONS {
        agent.next_request(&mut turn).unwrap();
    }
    let error = agent.next_request(&mut turn).unwrap_err();
    assert_eq!(error, TurnError::TooManyIterations);
    assert_eq!(
        error.message(),
        "agent stopped after 50 tool iterations without finishing"
    );
}

#[test]
fn input_after_an_interrupted_turn_joins_the_last_message() {
    let mut agent = test_agent();
    agent.begin_turn("one".to_string());
    agent.begin_turn("two".to_string());
    assert_eq!(agent.messages.len(), 1);
    assert_eq!(agent.messages[0].content.len(), 2);
    agent.clear();
    assert!(agent.messages.is_empty());
}

#[test]
fn only_fragments_with_text_make_events() {
    assert!(fragment_event("").is_none());
    assert!(matches!(fragment_event("x"), Some(AgentEvent::TextDelta(t)) if t == "x"));
}

#[test]
fn calls_are_read_in_order() {
    let calls = tool_calls(&[call("1", "a"), text("-"), call("2", "b")]);
    let names: Vec<&str> = calls.iter().map(|c| c.name.as_str()).collect();
    assert_eq!(names, vec!["a", "b"]);
}

#[test]
fn the_prompt_names_the_repository() {
    let prompt = default_system_prompt("/work/x");
    assert!(prompt.starts_with(
        "You are claus, a terminal coding agent. You help with software engineering tasks in the repository at /work/x.\n\nUse the available tools"
    ));
    assert!(prompt.ends_with("\n\nBe concise. When you finish, summarize what you did."));
}

#[test]
fn sub_agents_do_not_delegate() {
    let mut registry = Registry::new();
    registry.register(tool("shell", 0));
    registry.register(tool("dispatch_agent", 1));
    registry.register(tool("read_file", 2));
    let dispatch = DispatchAgent::new(test_client(), registry, "/work".to_string());
    let agent = dispatch.spawn();
    assert_eq!(
        agent.registry.find("dispatch_agent"),
        Err("unknown tool: dispatch_agent".to_string())
    );
    assert_eq!(agent.registry.find("shell"), Ok(0));
    assert_eq!(agent.registry.find("read_file"), Ok(2));
    assert!(agent.system.ends_with(SUB_AGENT_TAIL));
    assert!(agent.messages.is_empty());

    let input = Json::object().with("task", Json::text("look"));
    assert_eq!(dispatch.request(&input), Ok("look".to_string()));
    assert_eq!(
        dispatch.request(&Json::object()),
        Err("missing required parameter: task".to_string())
    );
    assert_eq!(dispatch.answer("ok".to_string()), "ok");
}

#[test]
fn requests_carry_the_tools() {
    let mut registry = Registry::new();
    registry.register(tool("shell", 0));
    let mut agent = AgentLoop::new(test_client(), registry, "be brief".to_string());
    let mut turn = agent.begin_turn("hi".to_string());
    let prepared = agent.next_request(&mut turn).unwrap();
    assert_eq!(prepared.request.tools.len(), 1);
    assert_eq!(prepared.request.tools[0].name, "shell");
    let system = prepared.request.system.unwrap();
    assert_eq!(system.len(), 1);
    assert_eq!(system[0].kind, "text");
    assert_eq!(system[0].text, "be brief");
    let mark = system[0].cache_control.as_ref().unwrap();
    assert_eq!(mark.to_text(), "{\"type\":\"ephemeral\"}");
}

#[test]
fn the_end_of_a_turn_is_told_and_repaired() {
    let mut agent = test_agent();
    let mut turn = agent.begin_turn("go".to_string());
    agent.on_response(&mut turn, reply(vec![call("t1", "shell")], "tool_use"));
    assert!(agent.end_turn(TurnEnd::Finished).is_none());
    assert!(matches!(agent.end_turn(TurnEnd::Failed("x".to_string())),
        Some(AgentEvent::Error(words)) if words == "x"));
    assert_eq!(agent.messages.len(), 2);
    assert!(matches!(agent.end_turn(TurnEnd::Interrupted), Some(AgentEvent::Interrupted)));
    assert_eq!(agent.messages.len(), 3);
    assert_eq!(agent.messages[2].role, Role::User);
}
