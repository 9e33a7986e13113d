//! The command line: what the arguments ask for, what a one-shot question
//! prints, and which tools an agent starts with.

use vstd::prelude::*;
use vstd::string::*;

use crate::agent::subagent::DispatchAgent;
use crate::agent::{AgentEvent, EventModel};
use crate::api::client::Client;
use crate::api::types::{DefinitionModel, ToolDefinition};
use crate::json::text_of_document;
use crate::text::{join, joined, same_text, texts, utf8_len};
use crate::tools::fs::{EditFile, ListDir, ReadFile, WriteFile};
use crate::tools::lsp::{LspDefinition, LspHover, LspReferences};
use crate::tools::mcp::McpTool;
use crate::tools::rag::RagSearch;
use crate::tools::search::SearchText;
use crate::tools::shell::Shell;
use crate::tools::{RegisteredTool, Registry, ToolModel};
use crate::tui::{cut_text, cut_to, cuts_at, first_line, leading_line};

verus! {

broadcast use {
    vstd::string::group_string_axioms,
    vstd::seq_lib::group_seq_properties,
};

// ---------------------------------------------------------------------------
// Arguments
// ---------------------------------------------------------------------------

/// What the program is asked to do.
#[derive(Debug)]
pub enum Command {
    /// Index (or re-index) the current project.
    Index,
    /// Answer one question.
    Ask(String),
    /// Open the chat.
    Tui,
    /// Tell how the program is used.
    Usage,
}

/// How the program is used.
pub const USAGE: &'static str = "usage: claus [index | ask <question>]";

/// Whether a command is the one that arguments ask for.
pub open spec fn asks_for(command: Command, args: Seq<Seq<char>>) -> bool {
    if args.len() == 0 {
        command is Tui
    } else if args[0] == "index"@ {
        command is Index
    } else if args[0] == "ask"@ && args.len() > 1 {
        command matches Command::Ask(question) && question@ == joined(args.drop_first(), " "@)
    } else {
        command is Usage
    }
}

/// What the arguments, without the name of the program, ask for. The words of a
/// question are joined by spaces.
pub fn parse_args(args: &[String]) -> (command: Command)
    ensures
        asks_for(command, texts(args@)),
{
    let ghost all = texts(args@);
    let count: usize = args.len();
    if count == 0 {
        return Command::Tui;
    }
    assert(all[0] == args@[0]@);
    if same_text(args[0].as_str(), "index") {
        return Command::Index;
    }
    if same_text(args[0].as_str(), "ask") && count > 1 {
        let rest: &[String] = vstd::slice::slice_subrange(args, 1, count);
        assert(texts(rest@) == all.drop_first());
        return Command::Ask(join(rest, " "));
    }
    Command::Usage
}

// ---------------------------------------------------------------------------
// Printing
// ---------------------------------------------------------------------------

/// How much is printed of the input of a tool call, in bytes.
pub const SUMMARY_BYTES: usize = 120;

/// What is printed, and where.
#[derive(Debug)]
pub enum Output {
    Nothing,
    /// To the standard output.
    Text(String),
    /// To the error output.
    Diagnostic(String),
}

/// What an [`Output`] stands for.
pub ghost enum OutputModel {
    Nothing,
    Text(Seq<char>),
    Diagnostic(Seq<char>),
}

impl View for Output {
    type V = OutputModel;

    open spec fn view(&self) -> OutputModel {
        match *self {
            Output::Nothing => OutputModel::Nothing,
            Output::Text(text) => OutputModel::Text(text@),
            Output::Diagnostic(text) => OutputModel::Diagnostic(text@),
        }
    }
}

/// Whether an event can be printed: the input of a tool call can be cut to what
/// is printed of it.
pub open spec fn is_printable(event: EventModel) -> bool {
    match event {
        EventModel::ToolCall { input, .. } => cuts_at(
            text_of_document(input),
            SUMMARY_BYTES as nat,
        ),
        _ => true,
    }
}

/// The line for a tool call, given the text of its input.
pub open spec fn call_line(name: Seq<char>, input: Seq<char>) -> Seq<char> {
    "[tool] "@ + name + " "@ + cut_to(input, SUMMARY_BYTES as nat) + "\n"@
}

/// What is printed for an event: fragments as they come, a line break after
/// each text, tool calls and failures to the error output.
pub open spec fn printed_for(event: EventModel) -> OutputModel {
    match event {
        EventModel::TextDelta(fragment) => OutputModel::Text(fragment),
        EventModel::AssistantText(_) => OutputModel::Text("\n"@),
        EventModel::ToolCall { name, input } => OutputModel::Diagnostic(
            call_line(name, text_of_document(input)),
        ),
        EventModel::ToolResult { name, output, is_error } => if is_error {
            OutputModel::Diagnostic("[tool] "@ + name + " failed: "@ + first_line(output) + "\n"@)
        } else {
            OutputModel::Nothing
        },
        _ => OutputModel::Nothing,
    }
}

/// What is printed for an event.
pub fn print_event(event: &AgentEvent) -> (output: Output)
    requires
        is_printable(event@),
    ensures
        output@ == printed_for(event@),
{
    match event {
        AgentEvent::TextDelta(fragment) => Output::Text(fragment.clone()),
        AgentEvent::AssistantText(_) => Output::Text("\n".to_owned()),
        AgentEvent::ToolCall { name, input } => {
            let text: String = input.to_text();
            match cut_text(text.as_str(), SUMMARY_BYTES) {
                Some(summary) => Output::Diagnostic(
                    "[tool] ".to_owned().concat(name.as_str()).concat(" ").concat(
                        summary.as_str(),
                    ).concat("\n"),
                ),
                None => Output::Nothing,
            }
        },
        AgentEvent::ToolResult { name, output, is_error } => {
            if *is_error {
                let line: String = leading_line(output.as_str());
                Output::Diagnostic(
                    "[tool] ".to_owned().concat(name.as_str()).concat(" failed: ").concat(
                        line.as_str(),
                    ).concat("\n"),
                )
            } else {
                Output::Nothing
            }
        },
        _ => Output::Nothing,
    }
}

/// What is printed for an event that can be printed.
pub fn try_print_event(event: &AgentEvent) -> (output: Option<Output>)
    ensures
        match output {
            Some(o) => is_printable(event@) && o@ == printed_for(event@),
            None => !is_printable(event@),
        },
{
    let printable: bool = match event {
        AgentEvent::ToolCall { input, .. } => {
            let text: String = input.to_text();
            cut_text(text.as_str(), SUMMARY_BYTES).is_some()
        },
        _ => true,
    };
    if printable {
        Some(print_event(event))
    } else {
        None
    }
}

// ---------------------------------------------------------------------------
// The tools at startup
// ---------------------------------------------------------------------------

/// The note for the code search being there.
pub const RAG_READY: &'static str = "rag_search ready (index kept fresh by the file watcher)";

/// The note for the outcome of setting up the code search.
pub fn rag_note(outcome: &Result<(), String>) -> (note: String)
    ensures
        note@ == match *outcome {
            Ok(_) => RAG_READY@,
            Err(error) => "rag_search disabled: "@ + error@,
        },
{
    match outcome {
        Ok(_) => RAG_READY.to_owned(),
        Err(error) => "rag_search disabled: ".to_owned().concat(error.as_str()),
    }
}

/// The note for a background run of the indexer that failed.
pub fn reindex_failure_note(error: &str) -> (note: String)
    ensures
        note@ == "background reindex failed: "@ + error@,
{
    "background reindex failed: ".to_owned().concat(error)
}

/// The tools that are always there, in order.
pub open spec fn core_tools<G>() -> Seq<DefinitionModel> {
    seq![
        ReadFile::told(),
        WriteFile::told(),
        EditFile::told(),
        ListDir::told(),
        Shell::<G>::told(),
        SearchText::told(),
        LspDefinition::told(),
        LspReferences::told(),
        LspHover::told(),
    ]
}

/// The tools of an agent, in order: those that are always there, the code
/// search where it is ready, those of MCP servers, and delegation.
pub open spec fn startup_tools<G>(rag_ready: bool, mcp: Seq<McpTool>) -> Seq<DefinitionModel> {
    let found = if rag_ready {
        core_tools::<G>().push(RagSearch::told())
    } else {
        core_tools::<G>()
    };
    (found + mcp.map_values(|t: McpTool| t.told())).push(DispatchAgent::told())
}

/// Tools as a registry holds them, each under its place in the list.
pub open spec fn registered(tools: Seq<DefinitionModel>) -> Seq<ToolModel> {
    Seq::new(tools.len(), |i: int| ToolModel { definition: tools[i], handle: i as usize })
}

/// Adds a tool under its place in the list.
fn add_tool(registry: &mut Registry, definition: ToolDefinition)
    ensures
        final(registry)@ == old(registry)@.push(
            ToolModel { definition: definition@, handle: old(registry)@.len() as usize },
        ),
{
    let handle: usize = registry.tools.len();
    registry.register(RegisteredTool { definition, handle });
}

/// The tools that are always there.
fn core_registry<G>(shell: &Shell<G>) -> (registry: Registry)
    ensures
        registry@ == registered(core_tools::<G>()),
{
    let mut registry: Registry = Registry::new();
    add_tool(&mut registry, ReadFile.definition());
    add_tool(&mut registry, WriteFile.definition());
    add_tool(&mut registry, EditFile.definition());
    add_tool(&mut registry, ListDir.definition());
    add_tool(&mut registry, shell.definition());
    add_tool(&mut registry, SearchText.definition());
    add_tool(&mut registry, LspDefinition.definition());
    add_tool(&mut registry, LspReferences.definition());
    add_tool(&mut registry, LspHover.definition());
    assert(registry@ == registered(core_tools::<G>()));
    registry
}

/// Assemble the tool set. The delegating tool captures the tools before it, so
/// that sub-agents get every tool except delegation itself.
pub fn assemble<G>(
    shell: &Shell<G>,
    rag_ready: bool,
    mcp: &[McpTool],
    client: Client,
    cwd: String,
) -> (res: (Registry, DispatchAgent))
    ensures
        res.0@ == registered(startup_tools::<G>(rag_ready, mcp@)),
        res.1.client == client,
        res.1.cwd == cwd,
        res.1.registry@ == res.0@.drop_last(),
{
    let mut registry: Registry = core_registry(shell);
    if rag_ready {
        add_tool(&mut registry, RagSearch.definition());
    }
    let ghost found = if rag_ready {
        core_tools::<G>().push(RagSearch::told())
    } else {
        core_tools::<G>()
    };
    let ghost told = mcp@.map_values(|t: McpTool| t.told());
    let mut i: usize = 0;
    assert(registry@ == registered(found + told.take(0)));
    while i < mcp.len()
        invariant
            i <= mcp@.len(),
            told == mcp@.map_values(|t: McpTool| t.told()),
            registry@ == registered(found + told.take(i as int)),
        decreases mcp@.len() - i,
    {
        add_tool(&mut registry, mcp[i].definition());
        assert(registry@ == registered(found + told.take(i + 1)));
        i += 1;
    }
    assert(told.take(i as int) == told);
    let ghost before = registry@;
    let dispatch: DispatchAgent = DispatchAgent::new(client, registry.clone(), cwd);
    add_tool(&mut registry, dispatch.definition());
    assert(registry@.drop_last() == before);
    assert(registry@ == registered(startup_tools::<G>(rag_ready, mcp@)));
    (registry, dispatch)
}

// ---------------------------------------------------------------------------
// What the user is told
// ---------------------------------------------------------------------------

/// What the model says is printed as it comes, with a line break after each
/// text; of a tool just its call, by its name and the start of its input, and
/// its failure, by the first line of it, are told, apart from what the model
/// says. Nothing else is printed.
pub proof fn law_replies_are_printed_as_they_come(event: EventModel)
    ensures
        event matches EventModel::TextDelta(fragment) ==> printed_for(event) == OutputModel::Text(
            fragment,
        ),
        event is AssistantText ==> printed_for(event) == OutputModel::Text("\n"@),
        event matches EventModel::ToolCall { name, input } ==> printed_for(event)
            == OutputModel::Diagnostic(
            "[tool] "@ + name + " "@ + cut_to(text_of_document(input), 120) + "\n"@,
        ),
        event matches EventModel::ToolResult { name, output, is_error } ==> printed_for(event)
            == if is_error {
            OutputModel::Diagnostic("[tool] "@ + name + " failed: "@ + first_line(output) + "\n"@)
        } else {
            OutputModel::Nothing
        },
        printed_for(event) is Text <==> event is TextDelta || event is AssistantText,
{
}

/// Arguments ask for just one thing, and a question is asked in all its words,
/// in their order.
pub proof fn law_arguments_ask_for_one_thing(
    command: Command,
    args: Seq<Seq<char>>,
    words: Seq<Seq<char>>,
)
    requires
        asks_for(command, args),
    ensures
        command is Tui <==> args.len() == 0,
        command is Index <==> args.len() > 0 && args[0] == "index"@,
        words.len() > 0 && args == seq!["ask"@] + words ==> (command matches Command::Ask(question)
            && question@ == joined(words, " "@)),
        command is Ask ==> args.len() > 1 && args[0] == "ask"@,
{
    reveal_strlit("index");
    reveal_strlit("ask");
    assert("index"@.len() == 5 && "ask"@.len() == 3);
    if args == seq!["ask"@] + words {
        assert(args.drop_first() == words);
    }
}

/// An agent starts with nine tools that are always there, the code search just
/// where it is ready, every tool of an MCP server, in order, and delegation last;
/// each is found under its place.
pub proof fn law_agent_starts_with_its_tools<G>(rag_ready: bool, mcp: Seq<McpTool>)
    requires
        mcp.len() + 11 <= usize::MAX,
    ensures
        ({
            let tools = registered(startup_tools::<G>(rag_ready, mcp));
            let found: int = if rag_ready {
                10
            } else {
                9
            };
            &&& tools.len() == found + mcp.len() + 1
            &&& forall|i: int| 0 <= i < tools.len() ==> (#[trigger] tools[i]).handle == i
            &&& tools[0].definition == ReadFile::told() && tools[1].definition == WriteFile::told()
            &&& tools[2].definition == EditFile::told() && tools[3].definition == ListDir::told()
            &&& tools[4].definition == Shell::<G>::told()
            &&& tools[5].definition == SearchText::told()
            &&& tools[6].definition == LspDefinition::told()
            &&& tools[7].definition == LspReferences::told()
            &&& tools[8].definition == LspHover::told()
            &&& rag_ready ==> tools[9].definition == RagSearch::told()
            &&& forall|i: int|
                0 <= i < mcp.len() ==> tools[found + i].definition == (#[trigger] mcp[i]).told()
            &&& tools.last().definition == DispatchAgent::told()
        }),
{
}

/// Every event but a tool call can be printed, and a tool call whose input is no
/// longer than what is printed of it.
pub proof fn law_ordinary_events_are_printed(event: EventModel)
    ensures
        !(event is ToolCall) ==> is_printable(event),
        event matches EventModel::ToolCall { name, input } ==> (utf8_len(text_of_document(input))
            <= 120 ==> is_printable(event)),
{
}

/// What came of setting up the code search is told, and a failure with its cause.
pub proof fn law_setup_is_told(outcome: Result<(), String>, note: String)
    requires
        call_ensures(rag_note, (&outcome,), note),
    ensures
        outcome is Ok ==> note@ == "rag_search ready (index kept fresh by the file watcher)"@,
        outcome matches Err(error) ==> note@ == "rag_search disabled: "@ + error@,
{
}

} // verus!
