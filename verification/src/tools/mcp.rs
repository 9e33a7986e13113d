//! Tools of MCP servers, as the agent sees them.

use vstd::prelude::*;
use vstd::string::*;

use crate::api::types::{DefinitionModel, ToolDefinition};
use crate::mcp::McpToolInfo;
use crate::text::number::{decimal, decimal_of};
use crate::text::texts;
use crate::tools::{clip, clipped};

verus! {

broadcast use {
    vstd::string::group_string_axioms,
    vstd::seq_lib::group_seq_properties,
};

/// Longer output is clipped.
pub const MAX_OUTPUT: usize = 30_000;

/// One MCP server tool exposed to the agent as `mcp__<server>__<tool>`.
#[derive(Debug)]
pub struct McpTool {
    pub qualified_name: String,
    pub info: McpToolInfo,
}

/// The name under which the tool of a server is exposed.
pub open spec fn qualified(server: Seq<char>, tool: Seq<char>) -> Seq<char> {
    "mcp__"@ + server + "__"@ + tool
}

impl McpTool {
    /// The tool of a server.
    pub fn new(server: &str, info: McpToolInfo) -> (tool: McpTool)
        ensures
            tool.qualified_name@ == qualified(server@, info.name@),
            tool.info == info,
    {
        let qualified_name: String = "mcp__".to_owned().concat(server).concat("__").concat(
            info.name.as_str(),
        );
        McpTool { qualified_name, info }
    }

    /// What the model is told of the tool.
    pub open spec fn told(self) -> DefinitionModel {
        DefinitionModel {
            name: self.qualified_name@,
            description: self.info.description@,
            input_schema: self.info.input_schema@,
        }
    }

    /// What the model is told of the tool.
    pub fn definition(&self) -> (definition: ToolDefinition)
        ensures
            definition@ == self.told(),
    {
        ToolDefinition {
            name: self.qualified_name.clone(),
            description: self.info.description.clone(),
            input_schema: self.info.input_schema.clone(),
        }
    }

    /// What a call answers, given the output of the server.
    pub fn answer(&self, output: String) -> (text: String)
        ensures
            text@ == clipped(output@, MAX_OUTPUT as nat),
    {
        clip(output, MAX_OUTPUT)
    }
}

/// Two tools of one server are exposed under one name only if the server gives
/// them one name.
pub proof fn law_tools_of_a_server_keep_their_names(
    server: Seq<char>,
    one: Seq<char>,
    other: Seq<char>,
)
    ensures
        qualified(server, one) == qualified(server, other) <==> one == other,
{
    let head = "mcp__"@ + server + "__"@;
    assert((head + one).skip(head.len() as int) == one);
    assert((head + other).skip(head.len() as int) == other);
}

/// The words for a server that was connected.
pub open spec fn connected_words(server: Seq<char>, tools: nat) -> Seq<char> {
    "mcp server '"@ + server + "': "@ + decimal(tools) + " tool(s)"@
}

/// The words for a server that failed to start.
pub open spec fn failed_words(server: Seq<char>, error: Seq<char>) -> Seq<char> {
    "mcp server '"@ + server + "' failed: "@ + error
}

/// The note for a server that was connected.
pub fn connected_note(server: &str, tools: usize) -> (note: String)
    ensures
        note@ == connected_words(server@, tools as nat),
{
    let count: String = decimal_of(tools);
    "mcp server '".to_owned().concat(server).concat("': ").concat(count.as_str()).concat(
        " tool(s)",
    )
}

/// The note for a server that failed to start.
pub fn failed_note(server: &str, error: &str) -> (note: String)
    ensures
        note@ == failed_words(server@, error@),
{
    "mcp server '".to_owned().concat(server).concat("' failed: ").concat(error)
}

// ---------------------------------------------------------------------------
// All servers
// ---------------------------------------------------------------------------

/// The note for a server, given the tools that it offers or the words for why
/// it failed to start.
pub open spec fn note_words(outcome: (String, Result<Vec<McpToolInfo>, String>)) -> Seq<char> {
    match outcome.1 {
        Ok(infos) => connected_words(outcome.0@, infos@.len()),
        Err(error) => failed_words(outcome.0@, error@),
    }
}

/// A tool by the name under which it is exposed and what its server tells of
/// it.
pub open spec fn exposed(tool: McpTool) -> (Seq<char>, McpToolInfo) {
    (tool.qualified_name@, tool.info)
}

/// The tools of a server, in order.
pub open spec fn server_tools(server: Seq<char>, infos: Seq<McpToolInfo>) -> Seq<
    (Seq<char>, McpToolInfo),
> {
    infos.map_values(|info: McpToolInfo| (qualified(server, info.name@), info))
}

/// The tools of the servers that were connected, in order.
pub open spec fn gathered_tools(outcomes: Seq<(String, Result<Vec<McpToolInfo>, String>)>) -> Seq<
    (Seq<char>, McpToolInfo),
>
    decreases outcomes.len(),
{
    if outcomes.len() == 0 {
        Seq::empty()
    } else {
        match outcomes.last().1 {
            Ok(infos) => gathered_tools(outcomes.drop_last()) + server_tools(
                outcomes.last().0@,
                infos@,
            ),
            Err(_) => gathered_tools(outcomes.drop_last()),
        }
    }
}

/// Adds the tools of a server.
fn add_tools(tools: &mut Vec<McpTool>, server: &str, infos: Vec<McpToolInfo>)
    ensures
        final(tools)@.map_values(|t: McpTool| exposed(t)) == old(tools)@.map_values(
            |t: McpTool| exposed(t),
        ) + server_tools(server@, infos@),
{
    let ghost before = tools@.map_values(|t: McpTool| exposed(t));
    let ghost all = server_tools(server@, infos@);
    assert(before + all.take(0) == before);
    for info in it: infos
        invariant
            it.seq() == infos@,
            all == server_tools(server@, infos@),
            tools@.map_values(|t: McpTool| exposed(t)) == before + all.take(it.index() as int),
    {
        let ghost so_far = tools@;
        let tool: McpTool = McpTool::new(server, info);
        tools.push(tool);
        assert(tools@.map_values(|t: McpTool| exposed(t)) == so_far.map_values(
            |t: McpTool| exposed(t),
        ).push(exposed(tool)));
        assert(all.take(it.index() + 1) == all.take(it.index() as int).push(exposed(tool)));
    }
    assert(all.take(infos@.len() as int) == all);
}

/// The tools of all servers and a note for each, given what came of starting
/// them. Servers that fail to start are reported and skipped, never fatal.
pub fn gather(outcomes: Vec<(String, Result<Vec<McpToolInfo>, String>)>) -> (res: (
    Vec<McpTool>,
    Vec<String>,
))
    ensures
        res.0@.map_values(|t: McpTool| exposed(t)) == gathered_tools(outcomes@),
        texts(res.1@) == outcomes@.map_values(
            |o: (String, Result<Vec<McpToolInfo>, String>)| note_words(o),
        ),
{
    let mut tools: Vec<McpTool> = Vec::new();
    let mut notes: Vec<String> = Vec::new();
    let ghost words = outcomes@.map_values(
        |o: (String, Result<Vec<McpToolInfo>, String>)| note_words(o),
    );
    assert(tools@.map_values(|t: McpTool| exposed(t)) == gathered_tools(outcomes@.take(0)));
    assert(texts(notes@) == words.take(0));
    for outcome in it: outcomes
        invariant
            it.seq() == outcomes@,
            words == outcomes@.map_values(
                |o: (String, Result<Vec<McpToolInfo>, String>)| note_words(o),
            ),
            tools@.map_values(|t: McpTool| exposed(t)) == gathered_tools(
                outcomes@.take(it.index() as int),
            ),
            texts(notes@) == words.take(it.index() as int),
    {
        let ghost i = it.index() as int;
        let ghost told = notes@;
        assert(outcomes@.take(i + 1).drop_last() == outcomes@.take(i));
        assert(outcomes@.take(i + 1).last() == outcome);
        let (server, started) = outcome;
        let note: String = match started {
            Ok(infos) => {
                let note: String = connected_note(server.as_str(), infos.len());
                add_tools(&mut tools, server.as_str(), infos);
                note
            },
            Err(error) => failed_note(server.as_str(), error.as_str()),
        };
        notes.push(note);
        assert(texts(notes@) == texts(told).push(note@));
        assert(words.take(i + 1) == words.take(i).push(note@));
    }
    assert(outcomes@.take(outcomes@.len() as int) == outcomes@);
    assert(words.take(words.len() as int) == words);
    (tools, notes)
}

/// A server that failed to start takes nothing from the others: their tools are
/// those that there would be without it.
pub proof fn law_failed_server_is_skipped(
    before: Seq<(String, Result<Vec<McpToolInfo>, String>)>,
    failed: (String, Result<Vec<McpToolInfo>, String>),
    after: Seq<(String, Result<Vec<McpToolInfo>, String>)>,
)
    requires
        failed.1 is Err,
    ensures
        gathered_tools(before.push(failed) + after) == gathered_tools(before + after),
    decreases after.len(),
{
    if after.len() == 0 {
        assert(before.push(failed) + after == before.push(failed));
        assert(before + after == before);
        assert(before.push(failed).drop_last() == before);
    } else {
        law_failed_server_is_skipped(before, failed, after.drop_last());
        assert((before.push(failed) + after).drop_last() == before.push(failed)
            + after.drop_last());
        assert((before + after).drop_last() == before + after.drop_last());
    }
}

/// A server that was connected offers each of its tools, in order, under a name
/// that begins with that of the server, behind the mark of such tools, and ends
/// with that of the tool; the servers come one after the other.
pub proof fn law_connected_servers_offer_their_tools(
    first: Seq<(String, Result<Vec<McpToolInfo>, String>)>,
    second: Seq<(String, Result<Vec<McpToolInfo>, String>)>,
    server: String,
    infos: Vec<McpToolInfo>,
)
    ensures
        gathered_tools(first + second) == gathered_tools(first) + gathered_tools(second),
        ({
            let connected: (String, Result<Vec<McpToolInfo>, String>) = (server, Ok(infos));
            let offered = gathered_tools(seq![connected]);
            &&& offered.len() == infos@.len()
            &&& forall|i: int|
                0 <= i < infos@.len() ==> {
                    &&& (#[trigger] offered[i]).1 == infos@[i]
                    &&& offered[i].0 == "mcp__"@ + server@ + "__"@ + infos@[i].name@
                }
        }),
    decreases second.len(),
{
    if second.len() == 0 {
        assert(first + second == first);
        assert(gathered_tools(first) + gathered_tools(second) == gathered_tools(first));
    } else {
        law_connected_servers_offer_their_tools(first, second.drop_last(), server, infos);
        assert((first + second).drop_last() == first + second.drop_last());
        if let Ok(list) = second.last().1 {
            assert(gathered_tools(first) + gathered_tools(second) == gathered_tools(first) + (
            gathered_tools(second.drop_last()) + server_tools(second.last().0@, list@)));
        }
    }
    let connected: (String, Result<Vec<McpToolInfo>, String>) = (server, Ok(infos));
    let alone = seq![connected];
    assert(alone.drop_last() == Seq::<(String, Result<Vec<McpToolInfo>, String>)>::empty());
    assert(gathered_tools(alone.drop_last()) == Seq::<(Seq<char>, McpToolInfo)>::empty());
    assert(gathered_tools(alone) == server_tools(server@, infos@));
}

/// The note for a server names it, and tells how many tools it offers or why it
/// failed to start.
pub proof fn law_notes_name_their_server(outcome: (String, Result<Vec<McpToolInfo>, String>))
    ensures
        outcome.1 matches Ok(infos) ==> note_words(outcome) == "mcp server '"@ + outcome.0@
            + "': "@ + decimal(infos@.len()) + " tool(s)"@,
        outcome.1 matches Err(error) ==> note_words(outcome) == "mcp server '"@ + outcome.0@
            + "' failed: "@ + error@,
{
}

/// What a tool answers is handed on, clipped at thirty thousand bytes.
pub proof fn law_answers_are_clipped(tool: McpTool, output: String, text: String)
    requires
        call_ensures(McpTool::answer, (&tool, output), text),
    ensures
        text@ == clipped(output@, 30_000),
{
}

} // verus!
