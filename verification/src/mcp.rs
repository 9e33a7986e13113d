//! A client of the Model Context Protocol: what is sent to a tool server, and
//! what comes back.

use vstd::prelude::*;
use vstd::string::*;

use crate::json::{
    as_text, at, document_of_text, entry_of, is_true, is_true_at, models, text_at, Json, JsonModel,
};
use crate::rpc::{answer_in, is_answer, Answer};
use crate::text::{join, joined, texts};

verus! {

broadcast use {
    vstd::string::group_string_axioms,
    vstd::seq_lib::group_seq_properties,
};

/// The version of the protocol that is spoken.
pub const PROTOCOL_VERSION: &'static str = "2025-06-18";

/// How long an answer may take, in seconds.
pub const REQUEST_TIMEOUT_SECS: u64 = 120;

/// Where the servers of a project are declared, from its root.
pub const CONFIG_PATH: &'static str = ".claus/mcp.json";

/// MCP server declarations, loaded from `.claus/mcp.json`:
/// `{"servers": {"name": {"command": "npx", "args": ["-y", "..."]}}}`
#[derive(Debug)]
pub struct McpConfig {
    pub servers: Vec<(String, ServerConfig)>,
}

/// How a server is started.
#[derive(Debug)]
pub struct ServerConfig {
    pub command: String,
    pub args: Vec<String>,
}

impl Default for McpConfig {
    fn default() -> (config: McpConfig)
        ensures
            config.servers@.len() == 0,
    {
        McpConfig { servers: Vec::new() }
    }
}

/// A tool advertised by an MCP server via `tools/list`.
#[derive(Debug)]
pub struct McpToolInfo {
    pub name: String,
    pub description: String,
    pub input_schema: Json,
}

/// The parameters of the first request to a server.
pub open spec fn initialize_model(version: Seq<char>) -> JsonModel {
    JsonModel::Object(
        seq![
            ("protocolVersion"@, JsonModel::Text(PROTOCOL_VERSION@)),
            ("capabilities"@, JsonModel::Object(Seq::empty())),
            (
                "clientInfo"@,
                JsonModel::Object(
                    seq![
                        ("name"@, JsonModel::Text("claus"@)),
                        ("version"@, JsonModel::Text(version)),
                    ],
                ),
            ),
        ],
    )
}

/// The parameters of the first request to a server, given the version of this
/// program.
pub fn initialize_params(version: &str) -> (params: Json)
    ensures
        params@ == initialize_model(version@),
{
    let info: Json = Json::object().with("name", Json::text("claus")).with(
        "version",
        Json::text(version),
    );
    assert(info@->Object_0 == seq![
        ("name"@, JsonModel::Text("claus"@)),
        ("version"@, JsonModel::Text(version@)),
    ]);
    let params: Json = Json::object().with("protocolVersion", Json::text(PROTOCOL_VERSION)).with(
        "capabilities",
        Json::object(),
    ).with("clientInfo", info);
    assert(params@->Object_0 == initialize_model(version@)->Object_0);
    params
}

/// The answer that a line of the server gives, given what the line reads as.
/// Requests and notifications of the server are not supported and give none.
pub fn answer_from(message: Option<Json>) -> (answer: Option<Answer>)
    ensures
        match message {
            Some(m) => is_answer(answer, m@),
            None => answer is None,
        },
{
    match message {
        Some(m) => answer_in(&m),
        None => None,
    }
}

/// The answer that a line of the server gives; a line that is no JSON gives
/// none.
pub fn answer_line(line: &str) -> (answer: Option<Answer>)
    ensures
        match document_of_text(line@) {
            Some(message) => is_answer(answer, message),
            None => answer is None,
        },
{
    answer_from(Json::parse(line))
}

/// The parameters of a tool call.
pub open spec fn call_model(name: Seq<char>, arguments: JsonModel) -> JsonModel {
    JsonModel::Object(seq![("name"@, JsonModel::Text(name)), ("arguments"@, arguments)])
}

/// The parameters of a tool call.
pub fn call_params(name: &str, arguments: Json) -> (params: Json)
    ensures
        params@ == call_model(name@, arguments@),
{
    let params: Json = Json::object().with("name", Json::text(name)).with("arguments", arguments);
    assert(params@->Object_0 == call_model(name@, arguments@)->Object_0);
    params
}

/// The texts of content blocks that have one.
pub open spec fn block_texts(blocks: Seq<JsonModel>) -> Seq<Seq<char>>
    decreases blocks.len(),
{
    if blocks.len() == 0 {
        Seq::empty()
    } else {
        match as_text(at(blocks.last(), "text"@)) {
            Some(text) => block_texts(blocks.drop_last()).push(text),
            None => block_texts(blocks.drop_last()),
        }
    }
}

/// The text of the result of a tool call: its content blocks, line by line.
pub open spec fn result_words(result: JsonModel) -> Seq<char> {
    match at(result, "content"@) {
        JsonModel::Array(blocks) => joined(block_texts(blocks), "\n"@),
        _ => Seq::empty(),
    }
}

fn blocks_text(blocks: &[Json]) -> (text: String)
    ensures
        text@ == joined(block_texts(models(blocks@)), "\n"@),
{
    let ghost all = models(blocks@);
    let mut list: Vec<String> = Vec::new();
    let mut i: usize = 0;
    assert(texts(list@) == block_texts(all.take(0)));
    while i < blocks.len()
        invariant
            i <= blocks@.len(),
            all == models(blocks@),
            texts(list@) == block_texts(all.take(i as int)),
        decreases blocks@.len() - i,
    {
        let ghost before = list@;
        assert(all.take(i + 1).drop_last() == all.take(i as int));
        assert(all.take(i + 1).last() == blocks@[i as int]@);
        if let Some(text) = text_at(blocks[i].get("text")) {
            list.push(text.to_owned());
            assert(texts(list@) == texts(before).push(text@));
        }
        i += 1;
    }
    assert(all.take(i as int) == all);
    join(list.as_slice(), "\n")
}

/// The outcome of a tool call: its content blocks flattened into plain text,
/// as an error where the tool reports one.
pub fn call_outcome(result: &Json) -> (res: Result<String, String>)
    ensures
        match res {
            Ok(text) => !is_true(at(result@, "isError"@)) && text@ == result_words(result@),
            Err(words) => {
                &&& is_true(at(result@, "isError"@))
                &&& words@ == "tool reported an error: "@ + result_words(result@)
            },
        },
{
    broadcast use crate::json::lemma_array_model;

    let text: String = match result.get("content") {
        Some(Json::Array(blocks)) => blocks_text(blocks.as_slice()),
        _ => String::new(),
    };
    if is_true_at(result.get("isError")) {
        Err("tool reported an error: ".to_owned().concat(text.as_str()))
    } else {
        Ok(text)
    }
}

// ---------------------------------------------------------------------------
// What is sent and what comes back
// ---------------------------------------------------------------------------

/// A tool call carries the name of the tool and the arguments as they are, and
/// the first request the version of the protocol and who speaks.
pub proof fn law_requests_carry_their_parts(
    name: Seq<char>,
    arguments: JsonModel,
    version: Seq<char>,
)
    ensures
        at(call_model(name, arguments), "name"@) == JsonModel::Text(name),
        at(call_model(name, arguments), "arguments"@) == arguments,
        at(initialize_model(version), "protocolVersion"@) == JsonModel::Text("2025-06-18"@),
        at(at(initialize_model(version), "clientInfo"@), "name"@) == JsonModel::Text("claus"@),
        at(at(initialize_model(version), "clientInfo"@), "version"@) == JsonModel::Text(version),
{
    reveal_strlit("name");
    reveal_strlit("arguments");
    reveal_strlit("protocolVersion");
    reveal_strlit("capabilities");
    reveal_strlit("clientInfo");
    reveal_strlit("version");
    assert("name"@.len() == 4 && "arguments"@.len() == 9 && "version"@.len() == 7);
    assert("protocolVersion"@.len() == 15 && "capabilities"@.len() == 12);
    assert("clientInfo"@.len() == 10);
    reveal_with_fuel(entry_of, 4);
}

/// The text of a result is that of its blocks, in order and line by line: each
/// block with a text gives it, any other nothing. A result without blocks has
/// no text.
pub proof fn law_results_keep_every_text(
    first: Seq<JsonModel>,
    second: Seq<JsonModel>,
    block: JsonModel,
    text: Seq<char>,
    result: JsonModel,
)
    ensures
        block_texts(first + second) == block_texts(first) + block_texts(second),
        at(block, "text"@) == JsonModel::Text(text) ==> block_texts(seq![block]) == seq![text],
        !(at(block, "text"@) is Text) ==> block_texts(seq![block]) == Seq::<Seq<char>>::empty(),
        at(result, "content"@) == JsonModel::Array(first) ==> result_words(result) == joined(
            block_texts(first),
            "\n"@,
        ),
        !(at(result, "content"@) is Array) ==> result_words(result) == Seq::<char>::empty(),
    decreases second.len(),
{
    if second.len() == 0 {
        assert(first + second == first);
        assert(block_texts(first) + block_texts(second) == block_texts(first));
    } else {
        law_results_keep_every_text(first, second.drop_last(), block, text, result);
        assert((first + second).drop_last() == first + second.drop_last());
        if let Some(found) = as_text(at(second.last(), "text"@)) {
            assert(block_texts(first) + block_texts(second.drop_last()).push(found) == (block_texts(
                first,
            ) + block_texts(second.drop_last())).push(found));
        }
    }
    assert(seq![block].drop_last() == Seq::<JsonModel>::empty());
    assert(block_texts(Seq::<JsonModel>::empty()) == Seq::<Seq<char>>::empty());
    assert(Seq::<Seq<char>>::empty().push(text) == seq![text]);
}

/// A tool call ends in an error just if the tool reports one; either way all the
/// text of its result is handed on.
pub proof fn law_reported_errors_are_errors(result: Json, res: Result<String, String>)
    requires
        call_ensures(call_outcome, (&result,), res),
    ensures
        at(result@, "isError"@) == JsonModel::Bool(true) ==> (res matches Err(words) && words@
            == "tool reported an error: "@ + result_words(result@)),
        at(result@, "isError"@) != JsonModel::Bool(true) ==> (res matches Ok(text) && text@
            == result_words(result@)),
{
}

} // verus!
