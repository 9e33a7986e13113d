//! The tools and their registry.

use claus::api::types::ToolDefinition;
use claus::json::Json;
use claus::tools::fs::{required_str, EditFile, ListDir, ReadFile, WriteFile};
use claus::tools::lsp::{
    position_params, position_request, server_for, LspDefinition, LspDiagnostics, LspHover,
    LspReferences,
};
use claus::tools::mcp::{connected_note, failed_note, gather, McpTool};
use claus::mcp::McpToolInfo;
use claus::tools::search::{is_searched, Search, SearchText, MAX_MATCHES};
use claus::tools::shell::{
    is_read_only, permit, report, report_text, timeout_report, Approval, ConsoleGate,
    PermissionGate, Shell,
};
use claus::tools::{clip, RegisteredTool, Registry};

#[test]
fn plain_read_commands_are_read_only() {
    assert!(is_read_only("ls -la src"));
    assert!(is_read_only("grep -rn TODO src"));
    assert!(is_read_only("git status"));
    assert!(is_read_only("cargo test"));
}

#[test]
fn state_changing_commands_need_approval() {
    assert!(!is_read_only("rm -rf /"));
    assert!(!is_read_only("git push origin main"));
    assert!(!is_read_only("cargo publish"));
    assert!(!is_read_only("touch file"));
    assert!(!is_read_only(""));
}

#[test]
fn metacharacters_defeat_the_allowlist() {
    assert!(!is_read_only("ls; rm -rf /"));
    assert!(!is_read_only("cat a > b"));
    assert!(!is_read_only("grep x $(dangerous)"));
    assert!(!is_read_only("ls && touch pwned"));
    assert!(!is_read_only("cat `cmd`"));
}

#[test]
fn git_and_cargo_need_a_listed_subcommand() {
    assert!(!is_read_only("git"));
    assert!(!is_read_only("cargo"));
    assert!(is_read_only("  git   ls-files"));
    assert!(is_read_only("cargo --version"));
    assert!(!is_read_only("ls\nrm x"));
}

struct Fixed(bool);

impl PermissionGate for Fixed {
    fn approve(&self, _command: &str) -> bool {
        self.0
    }
}

#[test]
fn the_gate_decides_what_is_not_read_only() {
    assert_eq!(Shell::new(Some(Fixed(false))).authorize("ls"), Ok(()));
    assert_eq!(Shell::<Fixed>::new(None).authorize("ls"), Ok(()));
    assert_eq!(Shell::new(Some(Fixed(true))).authorize("rm x"), Ok(()));
    assert_eq!(
        Shell::new(Some(Fixed(false))).authorize("rm x"),
        Err("the user denied this command".to_string())
    );
    assert_eq!(
        Shell::<Fixed>::new(None).authorize("rm x"),
        Err("command requires approval and no permission gate is available".to_string())
    );
    assert_eq!(permit("rm x", Approval::Approved), Ok(()));
}

struct Listed(&'static str);

impl PermissionGate for Listed {
    fn approve(&self, command: &str) -> bool {
        command == self.0
    }
}

#[test]
fn the_gate_is_asked_about_the_command() {
    let shell = Shell::new(Some(Listed("touch a")));
    assert_eq!(shell.authorize("touch a"), Ok(()));
    assert_eq!(
        shell.authorize("touch b"),
        Err("the user denied this command".to_string())
    );
}

#[test]
fn only_a_yes_is_an_approval() {
    for line in ["y\n", "Y", " yes \n"] {
        assert!(ConsoleGate.is_approval(line));
    }
    for line in ["", "n", "YES", "yep"] {
        assert!(!ConsoleGate.is_approval(line));
    }
    assert_eq!(
        ConsoleGate.question("rm x"),
        "\n[claus] shell wants to run: rm x\n[claus] allow? [y/N] "
    );
}

#[test]
fn shell_reports_code_and_output() {
    assert_eq!(report(Some(0), b"out\n", b""), "exit code: 0\nstdout:\nout\n");
    assert_eq!(report(None, b"", b"bad\xff"), "exit code: -1\nstderr:\nbad\u{fffd}");
    assert_eq!(report_text(Some(-7), "", ""), "exit code: -7\n");
    assert_eq!(timeout_report(120), "command timed out after 120s");
    let shell = Shell::<Fixed>::new(None);
    let request = shell.request(&Json::object().with("command", Json::text("ls"))).unwrap();
    assert_eq!((request.command.as_str(), request.timeout_secs), ("ls", 120));
    assert_eq!(
        shell.request(&Json::object()).unwrap_err(),
        "missing required parameter: command"
    );
}

#[test]
fn clip_keeps_whole_characters() {
    assert_eq!(clip("short".to_string(), 5), "short");
    assert_eq!(clip("abcdef".to_string(), 4), "abcd\n... [truncated 2 bytes]");
    // The character that begins within the limit is kept whole.
    assert_eq!(clip("a\u{20ac}bc".to_string(), 2), "a\u{20ac}\n... [truncated 2 bytes]");
    assert_eq!(clip("abc".to_string(), 0), "\n... [truncated 3 bytes]");
}

fn tool(name: &str, handle: usize) -> RegisteredTool {
    RegisteredTool {
        definition: ToolDefinition {
            name: name.to_string(),
            description: "d".to_string(),
            input_schema: Json::object(),
        },
        handle,
    }
}

#[test]
fn registries_find_tools_by_name() {
    let mut registry = Registry::new();
    registry.register(tool("a", 4));
    registry.register(tool("b", 5));
    registry.register(tool("a", 6));
    assert_eq!(registry.find("a"), Ok(4));
    assert_eq!(registry.find("c"), Err("unknown tool: c".to_string()));
    let fewer = registry.without("a");
    assert_eq!(fewer.find("a"), Err("unknown tool: a".to_string()));
    assert_eq!(fewer.find("b"), Ok(5));
    assert_eq!(registry.definitions().len(), 3);
    assert_eq!(registry.clone().tools.len(), 3);
}

fn input(pairs: &[(&str, Json)]) -> Json {
    let mut document = Json::object();
    for (key, value) in pairs {
        document = document.with(key, value.clone());
    }
    document
}

#[test]
fn read_file_numbers_lines() {
    let request = ReadFile
        .request(&input(&[("path", Json::text("a")), ("offset", Json::count(2)), ("limit", Json::count(2))]))
        .unwrap();
    assert_eq!(ReadFile.answer(&request, "one\ntwo\nthree\nfour\n"), "    2\ttwo\n    3\tthree");
    let request = ReadFile.request(&input(&[("path", Json::text("a")), ("offset", Json::count(0))])).unwrap();
    assert_eq!((request.offset, request.limit), (1, 2000));
    assert_eq!(ReadFile.answer(&request, "x\r\ny"), "    1\tx\n    2\ty");
    assert_eq!(
        ReadFile.request(&Json::object()).unwrap_err(),
        "missing required parameter: path"
    );
    let past = ReadFile.request(&input(&[("path", Json::text("a")), ("offset", Json::count(9))])).unwrap();
    assert_eq!(ReadFile.answer(&past, "x"), "");
}

#[test]
fn write_file_reports_bytes() {
    let request = WriteFile
        .request(&input(&[("path", Json::text("a.txt")), ("content", Json::text("h\u{e9}"))]))
        .unwrap();
    assert_eq!(WriteFile.answer(&request), "wrote 3 bytes to a.txt");
    assert_eq!(
        WriteFile.request(&input(&[("path", Json::text("a"))])).unwrap_err(),
        "missing required parameter: content"
    );
    assert_eq!(
        WriteFile.request(&Json::object()).unwrap_err(),
        "missing required parameter: path"
    );
}

fn edit(old: &str, new: &str, all: bool) -> Json {
    input(&[
        ("path", Json::text("f.rs")),
        ("old_string", Json::text(old)),
        ("new_string", Json::text(new)),
        ("replace_all", Json::Bool(all)),
    ])
}

#[test]
fn edit_file_replaces_a_unique_string() {
    let request = EditFile.request(&edit("b", "X", false)).unwrap();
    let edited = EditFile.apply(&request, "abc").unwrap();
    assert_eq!(edited.content, "aXc");
    assert_eq!(edited.answer, "replaced 1 occurrence(s) in f.rs");
    assert_eq!(
        EditFile.apply(&request, "abcb").unwrap_err(),
        "old_string appears 2 times in f.rs; pass replace_all or add context"
    );
    assert_eq!(
        EditFile.apply(&request, "xyz").unwrap_err(),
        "old_string not found in f.rs"
    );
    let all = EditFile.request(&edit("b", "XX", true)).unwrap();
    let edited = EditFile.apply(&all, "abcb").unwrap();
    assert_eq!(edited.content, "aXXcXX");
    assert_eq!(edited.answer, "replaced 2 occurrence(s) in f.rs");
    assert_eq!(
        EditFile.request(&input(&[("path", Json::text("a")), ("old_string", Json::text("b"))])).unwrap_err(),
        "missing required parameter: new_string"
    );
}

#[test]
fn empty_strings_are_edited_as_everywhere() {
    let all = EditFile.request(&edit("", "-", true)).unwrap();
    let edited = EditFile.apply(&all, "ab").unwrap();
    assert_eq!(edited.content, "-a-b-");
    assert_eq!(edited.answer, "replaced 3 occurrence(s) in f.rs");
    let one = EditFile.request(&edit("", "-", false)).unwrap();
    assert_eq!(EditFile.apply(&one, "").unwrap().content, "-");
}

#[test]
fn list_dir_sorts_and_marks_directories() {
    let entries = vec![
        ("src".to_string(), true),
        ("b.txt".to_string(), false),
        ("B.txt".to_string(), false),
        ("a".to_string(), false),
    ];
    assert_eq!(ListDir.answer(entries), "B.txt\na\nb.txt\nsrc/");
    assert_eq!(ListDir.answer(Vec::new()), "");
    assert_eq!(ListDir.request(&Json::object()), ".");
    assert_eq!(ListDir.request(&input(&[("path", Json::text("x"))])), "x");
}

#[test]
fn search_reports_places_up_to_a_limit() {
    let mut search = Search::new("fn");
    assert!(!search.scan("a.rs", "fn a\nlet b\n  fn c  \n"));
    assert_eq!(search.answer(), "a.rs:1: fn a\na.rs:3: fn c");
    let many = "fn\n".repeat(MAX_MATCHES + 5);
    assert!(search.scan("b.rs", &many));
    assert_eq!(search.matches.len(), MAX_MATCHES);
    assert_eq!(search.matches[199], "b.rs:198: fn");
    assert_eq!(Search::new("x").answer(), "no matches");
    let request = SearchText.request(&input(&[("query", Json::text("q"))])).unwrap();
    assert_eq!((request.query.as_str(), request.root.as_str()), ("q", "."));
    assert_eq!(
        SearchText.request(&Json::object()).unwrap_err(),
        "missing required parameter: query"
    );
}

#[test]
fn search_skips_hidden_and_listed_directories() {
    assert!(is_searched("src"));
    assert!(is_searched("."));
    assert!(is_searched("qdrant_storage"));
    assert!(!is_searched(".."));
    assert!(!is_searched(".git"));
    assert!(!is_searched("target"));
}

#[test]
fn schemas_describe_parameters() {
    assert_eq!(
        WriteFile.input_schema().to_text(),
        "{\"properties\":{\"content\":{\"description\":\"Full file content\",\"type\":\"string\"},\"path\":{\"description\":\"Path to the file\",\"type\":\"string\"}},\"required\":[\"path\",\"content\"],\"type\":\"object\"}"
    );
    assert_eq!(
        ListDir.input_schema().to_text(),
        "{\"properties\":{\"path\":{\"description\":\"Directory path (default: current directory)\",\"type\":\"string\"}},\"type\":\"object\"}"
    );
    assert_eq!(ReadFile.definition().name, "read_file");
    assert_eq!(LspHover.definition().name, "lsp_hover");
    assert_eq!(required_str(&input(&[("k", Json::text("v"))]), "k"), Ok("v"));
}

#[test]
fn servers_are_chosen_by_extension() {
    assert_eq!(server_for("rs"), Ok("rust-analyzer"));
    assert_eq!(server_for("py"), Ok("pyright-langserver --stdio"));
    assert_eq!(
        server_for("c"),
        Err("no language server configured for .c files".to_string())
    );
}

#[test]
fn positions_count_from_zero_on_the_wire() {
    let request = position_request(&input(&[("path", Json::text("a.rs")), ("line", Json::count(3))])).unwrap();
    assert_eq!(
        position_params("file:///a.rs", &request).to_text(),
        "{\"position\":{\"character\":0,\"line\":2},\"textDocument\":{\"uri\":\"file:///a.rs\"}}"
    );
    assert_eq!(
        LspReferences.params("u", &request).get("context").unwrap().to_text(),
        "{\"includeDeclaration\":true}"
    );
    assert_eq!(
        position_request(&input(&[("path", Json::text("a"))])).unwrap_err(),
        "missing required parameter: line"
    );
}

#[test]
fn hover_contents_come_in_three_shapes() {
    let parse = |text: &str| Json::parse(text).unwrap();
    assert_eq!(LspHover.answer(&parse("{\"contents\":{\"value\":\"v\"}}")), "v");
    assert_eq!(
        LspHover.answer(&parse("{\"contents\":[\"a\",{\"value\":\"b\"},{\"x\":1}]}")),
        "a\nb"
    );
    assert_eq!(LspHover.answer(&parse("{\"contents\":\"plain\"}")), "plain");
    assert_eq!(LspHover.answer(&parse("null")), "no hover information");
    assert_eq!(LspDefinition.answer(&Json::Null), "no results");
    assert_eq!(LspReferences.answer(&Json::Null), "no results");
}

#[test]
fn diagnostics_are_listed_with_their_severity() {
    let published = Json::parse(
        "[{\"severity\":1,\"range\":{\"start\":{\"line\":4}},\"message\":\"boom\"},{\"severity\":2,\"message\":\"w\"},{\"severity\":3,\"message\":\"i\"},{\"message\":\"h\"}]",
    )
    .unwrap();
    assert_eq!(
        LspDiagnostics.answer(Some(&published)),
        "5: [error] boom\n1: [warning] w\n1: [info] i\n1: [hint] h"
    );
    assert_eq!(
        LspDiagnostics.answer(Some(&Json::array(Vec::new()))),
        "no diagnostics: the file is clean"
    );
    assert_eq!(
        LspDiagnostics.answer(None),
        "no diagnostics published for this file (it may be clean)"
    );
}

#[test]
fn mcp_tools_carry_the_name_of_their_server() {
    let info = McpToolInfo {
        name: "fetch".to_string(),
        description: "gets".to_string(),
        input_schema: Json::object(),
    };
    let tool = McpTool::new("web", info);
    assert_eq!(tool.definition().name, "mcp__web__fetch");
    assert_eq!(tool.answer("x".to_string()), "x");
    assert_eq!(connected_note("web", 2), "mcp server 'web': 2 tool(s)");
    assert_eq!(failed_note("web", "no"), "mcp server 'web' failed: no");
}

fn info(name: &str) -> McpToolInfo {
    McpToolInfo {
        name: name.to_string(),
        description: format!("{name} does something"),
        input_schema: Json::object(),
    }
}

#[test]
fn servers_that_fail_are_reported_and_skipped() {
    let (tools, notes) = gather(vec![
        ("web".to_string(), Ok(vec![info("fetch"), info("find")])),
        ("db".to_string(), Err("no such file".to_string())),
        ("empty".to_string(), Ok(Vec::new())),
        ("mail".to_string(), Ok(vec![info("send")])),
    ]);
    let names: Vec<&str> = tools.iter().map(|tool| tool.qualified_name.as_str()).collect();
    assert_eq!(names, vec!["mcp__web__fetch", "mcp__web__find", "mcp__mail__send"]);
    assert_eq!(tools[2].info.description, "send does something");
    assert_eq!(
        notes,
        vec![
            "mcp server 'web': 2 tool(s)",
            "mcp server 'db' failed: no such file",
            "mcp server 'empty': 0 tool(s)",
            "mcp server 'mail': 1 tool(s)",
        ]
    );
    let (tools, notes) = gather(Vec::new());
    assert!(tools.is_empty() && notes.is_empty());
}
