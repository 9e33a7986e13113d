//! Tools over language servers: definitions, references, hover, diagnostics.

use vstd::prelude::*;
use vstd::string::*;

use crate::api::types::{DefinitionModel, ToolDefinition};
use crate::json::{
    as_count, as_text, at, count_at, count_model, count_or, count_or_at, entry_of, field, models,
    text_at, text_or_empty, text_or_empty_at, Json, JsonModel,
};
use crate::lsp::{format_locations, shown_locations};
use crate::text::layout::{feed_pieces, law_joined_lines_part_again};
use crate::text::number::{decimal, decimal_text, law_decimal_is_plain};
use crate::text::search::slice_texts;
use crate::text::{join, joined, same_text, texts, utf8_len};
use crate::tools::schema::{
    missing_words, parameter, parameter_model, parameter_models, required_str, schema,
    schema_model, Parameter, ParameterModel,
};
use crate::tools::{clip, clipped};

verus! {

broadcast use {
    vstd::string::group_string_axioms,
    vstd::seq_lib::group_seq_properties,
};

/// Longer output is clipped.
pub const MAX_OUTPUT: usize = 20_000;

/// How often published diagnostics are looked for.
pub const DIAGNOSTIC_POLLS: u32 = 20;

/// The words for a file without a language server.
pub open spec fn no_server_words(extension: Seq<char>) -> Seq<char> {
    "no language server configured for ."@ + extension + " files"@
}

/// The command line of the language server for an extension.
pub open spec fn server_of(extension: Seq<char>) -> Option<Seq<char>> {
    if extension == "rs"@ {
        Some("rust-analyzer"@)
    } else if extension == "py"@ {
        Some("pyright-langserver --stdio"@)
    } else {
        None
    }
}

/// The command line of the language server for an extension.
pub fn server_for(extension: &str) -> (res: Result<&'static str, String>)
    ensures
        match res {
            Ok(command) => server_of(extension@) == Some(command@),
            Err(error) => {
                &&& server_of(extension@) is None
                &&& error@ == no_server_words(extension@)
            },
        },
{
    if same_text(extension, "rs") {
        Ok("rust-analyzer")
    } else if same_text(extension, "py") {
        Ok("pyright-langserver --stdio")
    } else {
        Err("no language server configured for .".to_owned().concat(extension).concat(" files"))
    }
}

// ---------------------------------------------------------------------------
// Positions
// ---------------------------------------------------------------------------

/// The parameters of the tools that take a position.
pub open spec fn position_parameters() -> Seq<ParameterModel> {
    seq![
        parameter_model("path"@, "string"@, "Path to the source file"@),
        parameter_model("line"@, "integer"@, "1-based line number"@),
        parameter_model("column"@, "integer"@, "1-based column number (default 1)"@),
    ]
}

/// What the tools that take a position take, for the model.
pub fn position_schema() -> (document: Json)
    ensures
        document@ == schema_model(position_parameters(), seq!["path"@, "line"@]),
{
    let parameters: [Parameter; 3] = [
        parameter("path", "string", "Path to the source file"),
        parameter("line", "integer", "1-based line number"),
        parameter("column", "integer", "1-based column number (default 1)"),
    ];
    let required: [&str; 2] = ["path", "line"];
    let document: Json = schema(parameters.as_slice(), required.as_slice());
    assert(parameter_models(parameters@) == position_parameters());
    assert(slice_texts(required@) == seq!["path"@, "line"@]);
    document
}

/// What a call that takes a position asks for, 1-based.
#[derive(Debug)]
pub struct PositionRequest {
    pub path: String,
    pub line: u64,
    pub column: u64,
}

/// What a call that takes a position asks for; the first parameter that is
/// missing is reported.
pub fn position_request(input: &Json) -> (res: Result<PositionRequest, String>)
    ensures
        match res {
            Ok(request) => {
                &&& as_text(at(input@, "path"@)) == Some(request.path@)
                &&& as_count(at(input@, "line"@)) == Some(request.line)
                &&& request.column == count_or(at(input@, "column"@), 1)
            },
            Err(error) => if as_text(at(input@, "path"@)) is None {
                error@ == missing_words("path"@)
            } else {
                &&& as_count(at(input@, "line"@)) is None
                &&& error@ == missing_words("line"@)
            },
        },
{
    let path: String = match required_str(input, "path") {
        Ok(path) => path.to_owned(),
        Err(error) => {
            return Err(error);
        },
    };
    match count_at(input.get("line")) {
        Some(line) => Ok(
            PositionRequest { path, line, column: count_or_at(input.get("column"), 1) },
        ),
        None => Err("missing required parameter: ".to_owned().concat("line")),
    }
}

/// A 1-based number as the protocol counts: from zero.
pub open spec fn zero_based(n: u64) -> u64 {
    if n == 0 {
        0
    } else {
        (n - 1) as u64
    }
}

fn less_one(n: u64) -> (m: u64)
    ensures
        m == zero_based(n),
{
    if n == 0 {
        0
    } else {
        n - 1
    }
}

/// The parameters of a request for a position in a document.
pub open spec fn position_model(uri: Seq<char>, line: u64, column: u64) -> JsonModel {
    JsonModel::Object(
        seq![
            ("textDocument"@, JsonModel::Object(seq![("uri"@, JsonModel::Text(uri))])),
            (
                "position"@,
                JsonModel::Object(
                    seq![
                        ("line"@, count_model(zero_based(line))),
                        ("character"@, count_model(zero_based(column))),
                    ],
                ),
            ),
        ],
    )
}

/// The parameters of a request for a position in a document.
pub fn position_params(uri: &str, request: &PositionRequest) -> (params: Json)
    ensures
        params@ == position_model(uri@, request.line, request.column),
{
    let document: Json = Json::object().with("uri", Json::text(uri));
    assert(document@->Object_0 == seq![("uri"@, JsonModel::Text(uri@))]);
    let position: Json = Json::object().with("line", Json::count(less_one(request.line))).with(
        "character",
        Json::count(less_one(request.column)),
    );
    assert(position@->Object_0 == seq![
        ("line"@, count_model(zero_based(request.line))),
        ("character"@, count_model(zero_based(request.column))),
    ]);
    let params: Json = Json::object().with("textDocument", document).with("position", position);
    assert(params@->Object_0 == position_model(uri@, request.line, request.column)->Object_0);
    params
}

// ---------------------------------------------------------------------------
// Definitions
// ---------------------------------------------------------------------------

/// Jumps to a definition.
#[derive(Clone, Copy, Debug)]
pub struct LspDefinition;

impl LspDefinition {
    /// What the model is told of the tool.
    pub open spec fn told() -> DefinitionModel {
        DefinitionModel {
            name: "lsp_definition"@,
            description: "Jump to the definition of the symbol at a file position using the language server."@,
            input_schema: schema_model(position_parameters(), seq!["path"@, "line"@]),
        }
    }

    /// The name of the tool.
    pub fn name(&self) -> (name: &'static str)
        ensures
            name@ == Self::told().name,
    {
        "lsp_definition"
    }

    /// What the tool does, for the model.
    pub fn description(&self) -> (text: &'static str)
        ensures
            text@ == Self::told().description,
    {
        "Jump to the definition of the symbol at a file position using the language server."
    }

    /// What the model is told of the tool.
    pub fn definition(&self) -> (definition: ToolDefinition)
        ensures
            definition@ == Self::told(),
    {
        ToolDefinition {
            name: self.name().to_owned(),
            description: self.description().to_owned(),
            input_schema: self.input_schema(),
        }
    }

    /// What the tool takes, for the model.
    pub fn input_schema(&self) -> (document: Json)
        ensures
            document@ == Self::told().input_schema,
    {
        position_schema()
    }

    /// What a call answers, given the result of the server.
    pub fn answer(&self, result: &Json) -> (output: String)
        ensures
            output@ == shown_locations(result@),
    {
        format_locations(result)
    }
}

// ---------------------------------------------------------------------------
// References
// ---------------------------------------------------------------------------

/// Lists references.
#[derive(Clone, Copy, Debug)]
pub struct LspReferences;

/// The parameters of a request for references: the position, and that the
/// declaration counts as a reference.
pub open spec fn references_model(uri: Seq<char>, line: u64, column: u64) -> JsonModel {
    JsonModel::Object(
        position_model(uri, line, column)->Object_0.push(
            (
                "context"@,
                JsonModel::Object(seq![("includeDeclaration"@, JsonModel::Bool(true))]),
            ),
        ),
    )
}

impl LspReferences {
    /// What the model is told of the tool.
    pub open spec fn told() -> DefinitionModel {
        DefinitionModel {
            name: "lsp_references"@,
            description: "List all references to the symbol at a file position using the language server."@,
            input_schema: schema_model(position_parameters(), seq!["path"@, "line"@]),
        }
    }

    /// The name of the tool.
    pub fn name(&self) -> (name: &'static str)
        ensures
            name@ == Self::told().name,
    {
        "lsp_references"
    }

    /// What the tool does, for the model.
    pub fn description(&self) -> (text: &'static str)
        ensures
            text@ == Self::told().description,
    {
        "List all references to the symbol at a file position using the language server."
    }

    /// What the model is told of the tool.
    pub fn definition(&self) -> (definition: ToolDefinition)
        ensures
            definition@ == Self::told(),
    {
        ToolDefinition {
            name: self.name().to_owned(),
            description: self.description().to_owned(),
            input_schema: self.input_schema(),
        }
    }

    /// What the tool takes, for the model.
    pub fn input_schema(&self) -> (document: Json)
        ensures
            document@ == Self::told().input_schema,
    {
        position_schema()
    }

    /// The parameters of the request: the position, and that the declaration
    /// counts as a reference.
    pub fn params(&self, uri: &str, request: &PositionRequest) -> (params: Json)
        ensures
            params@ == references_model(uri@, request.line, request.column),
    {
        let context: Json = Json::object().with("includeDeclaration", Json::Bool(true));
        assert(context@->Object_0 == seq![("includeDeclaration"@, JsonModel::Bool(true))]);
        position_params(uri, request).with("context", context)
    }

    /// What a call answers, given the result of the server.
    pub fn answer(&self, result: &Json) -> (output: String)
        ensures
            output@ == clipped(shown_locations(result@), MAX_OUTPUT as nat),
    {
        clip(format_locations(result), MAX_OUTPUT)
    }
}

// ---------------------------------------------------------------------------
// Hover
// ---------------------------------------------------------------------------

/// Shows type information and documentation.
#[derive(Clone, Copy, Debug)]
pub struct LspHover;

/// The text of one item of hover contents.
pub open spec fn hover_item(item: JsonModel) -> Option<Seq<char>> {
    match as_text(item) {
        Some(text) => Some(text),
        None => as_text(at(item, "value"@)),
    }
}

/// The texts of the items of hover contents that have one.
pub open spec fn hover_items(items: Seq<JsonModel>) -> Seq<Seq<char>>
    decreases items.len(),
{
    if items.len() == 0 {
        Seq::empty()
    } else {
        match hover_item(items.last()) {
            Some(text) => hover_items(items.drop_last()).push(text),
            None => hover_items(items.drop_last()),
        }
    }
}

/// The text of hover contents: of a value, of several items, or plain.
pub open spec fn hover_words(contents: JsonModel) -> Seq<char> {
    match as_text(at(contents, "value"@)) {
        Some(value) => value,
        None => match contents {
            JsonModel::Array(items) => joined(hover_items(items), "\n"@),
            JsonModel::Text(text) => text,
            _ => "no hover information"@,
        },
    }
}

fn hover_text(contents: &Json) -> (text: String)
    ensures
        text@ == hover_words(contents@),
{
    broadcast use crate::json::lemma_array_model;

    if let Some(value) = text_at(contents.get("value")) {
        return value.to_owned();
    }
    match contents {
        Json::Array(items) => {
            let ghost all = models(items@);
            let mut list: Vec<String> = Vec::new();
            let mut i: usize = 0;
            assert(texts(list@) == hover_items(all.take(0)));
            while i < items.len()
                invariant
                    i <= items@.len(),
                    all == models(items@),
                    texts(list@) == hover_items(all.take(i as int)),
                decreases items@.len() - i,
            {
                let ghost before = list@;
                assert(all.take(i + 1).drop_last() == all.take(i as int));
                assert(all.take(i + 1).last() == items@[i as int]@);
                let text: Option<&str> = match items[i].as_text() {
                    Some(text) => Some(text),
                    None => text_at(items[i].get("value")),
                };
                if let Some(t) = text {
                    list.push(t.to_owned());
                    assert(texts(list@) == texts(before).push(t@));
                }
                i += 1;
            }
            assert(all.take(i as int) == all);
            join(list.as_slice(), "\n")
        },
        Json::Text(text) => text.clone(),
        _ => "no hover information".to_owned(),
    }
}

impl LspHover {
    /// What the model is told of the tool.
    pub open spec fn told() -> DefinitionModel {
        DefinitionModel {
            name: "lsp_hover"@,
            description: "Show type information and documentation for the symbol at a file position."@,
            input_schema: schema_model(position_parameters(), seq!["path"@, "line"@]),
        }
    }

    /// The name of the tool.
    pub fn name(&self) -> (name: &'static str)
        ensures
            name@ == Self::told().name,
    {
        "lsp_hover"
    }

    /// What the tool does, for the model.
    pub fn description(&self) -> (text: &'static str)
        ensures
            text@ == Self::told().description,
    {
        "Show type information and documentation for the symbol at a file position."
    }

    /// What the model is told of the tool.
    pub fn definition(&self) -> (definition: ToolDefinition)
        ensures
            definition@ == Self::told(),
    {
        ToolDefinition {
            name: self.name().to_owned(),
            description: self.description().to_owned(),
            input_schema: self.input_schema(),
        }
    }

    /// What the tool takes, for the model.
    pub fn input_schema(&self) -> (document: Json)
        ensures
            document@ == Self::told().input_schema,
    {
        position_schema()
    }

    /// What a call answers, given the result of the server.
    pub fn answer(&self, result: &Json) -> (output: String)
        ensures
            output@ == clipped(hover_words(at(result@, "contents"@)), MAX_OUTPUT as nat),
    {
        let text: String = match result.get("contents") {
            Some(contents) => hover_text(contents),
            None => hover_text(&Json::Null),
        };
        clip(text, MAX_OUTPUT)
    }
}

// ---------------------------------------------------------------------------
// Diagnostics
// ---------------------------------------------------------------------------

/// Lists diagnostics.
#[derive(Clone, Copy, Debug)]
pub struct LspDiagnostics;

/// The word for the severity of a diagnostic.
pub open spec fn severity_word(severity: Option<u64>) -> Seq<char> {
    if severity == Some(1u64) {
        "error"@
    } else if severity == Some(2u64) {
        "warning"@
    } else if severity == Some(3u64) {
        "info"@
    } else {
        "hint"@
    }
}

/// A diagnostic as it is listed: its 1-based line, severity and message.
pub open spec fn diagnostic_words(diagnostic: JsonModel) -> Seq<char> {
    decimal(
        (count_or(at(at(at(diagnostic, "range"@), "start"@), "line"@), 0) + 1) as nat,
    ) + ": ["@ + severity_word(as_count(at(diagnostic, "severity"@))) + "] "@ + text_or_empty(
        at(diagnostic, "message"@),
    )
}

/// Diagnostics as they are listed.
pub open spec fn diagnostics_words(published: Option<JsonModel>) -> Seq<char> {
    match published {
        Some(JsonModel::Array(items)) => if items.len() == 0 {
            "no diagnostics: the file is clean"@
        } else {
            clipped(
                joined(items.map_values(|d: JsonModel| diagnostic_words(d)), "\n"@),
                MAX_OUTPUT as nat,
            )
        },
        _ => "no diagnostics published for this file (it may be clean)"@,
    }
}

fn diagnostic_text(diagnostic: &Json) -> (text: String)
    ensures
        text@ == diagnostic_words(diagnostic@),
{
    let start: Option<&Json> = field(diagnostic.get("range"), "start");
    let line: u128 = count_or_at(field(start, "line"), 0) as u128 + 1;
    let number: String = decimal_text(line);
    let severity: &str = match count_at(diagnostic.get("severity")) {
        Some(n) => if n == 1 {
            "error"
        } else if n == 2 {
            "warning"
        } else if n == 3 {
            "info"
        } else {
            "hint"
        },
        None => "hint",
    };
    let message: String = text_or_empty_at(diagnostic.get("message"));
    number.concat(": [").concat(severity).concat("] ").concat(message.as_str())
}

impl LspDiagnostics {
    /// What the model is told of the tool.
    pub open spec fn told() -> DefinitionModel {
        DefinitionModel {
            name: "lsp_diagnostics"@,
            description: "List compiler/analyzer diagnostics (errors, warnings) for a file via the language server."@,
            input_schema: schema_model(
                seq![parameter_model("path"@, "string"@, "Path to the source file"@)],
                seq!["path"@],
            ),
        }
    }

    /// The name of the tool.
    pub fn name(&self) -> (name: &'static str)
        ensures
            name@ == Self::told().name,
    {
        "lsp_diagnostics"
    }

    /// What the tool does, for the model.
    pub fn description(&self) -> (text: &'static str)
        ensures
            text@ == Self::told().description,
    {
        "List compiler/analyzer diagnostics (errors, warnings) for a file via the language server."
    }

    /// What the model is told of the tool.
    pub fn definition(&self) -> (definition: ToolDefinition)
        ensures
            definition@ == Self::told(),
    {
        ToolDefinition {
            name: self.name().to_owned(),
            description: self.description().to_owned(),
            input_schema: self.input_schema(),
        }
    }

    /// What the tool takes, for the model.
    pub fn input_schema(&self) -> (document: Json)
        ensures
            document@ == Self::told().input_schema,
    {
        let parameters: [Parameter; 1] = [parameter("path", "string", "Path to the source file")];
        let required: [&str; 1] = ["path"];
        let document: Json = schema(parameters.as_slice(), required.as_slice());
        assert(parameter_models(parameters@) == seq![
            parameter_model("path"@, "string"@, "Path to the source file"@),
        ]);
        assert(slice_texts(required@) == seq!["path"@]);
        document
    }

    /// The file that a call asks about.
    pub fn request(&self, input: &Json) -> (res: Result<String, String>)
        ensures
            match res {
                Ok(path) => as_text(at(input@, "path"@)) == Some(path@),
                Err(error) => {
                    &&& as_text(at(input@, "path"@)) is None
                    &&& error@ == missing_words("path"@)
                },
            },
    {
        match required_str(input, "path") {
            Ok(path) => Ok(path.to_owned()),
            Err(error) => Err(error),
        }
    }

    /// What a call answers, given what the server published.
    pub fn answer(&self, published: Option<&Json>) -> (output: String)
        ensures
            output@ == diagnostics_words(
                match published {
                    Some(p) => Some(p@),
                    None => None,
                },
            ),
    {
        broadcast use crate::json::lemma_array_model;

        match published {
            Some(Json::Array(items)) => {
                if items.len() == 0 {
                    return "no diagnostics: the file is clean".to_owned();
                }
                let mut list: Vec<String> = Vec::new();
                let mut i: usize = 0;
                while i < items.len()
                    invariant
                        i <= items@.len(),
                        list@.len() == i,
                        forall|k: int|
                            0 <= k < i ==> (#[trigger] list@[k])@ == diagnostic_words(
                                items@[k]@,
                            ),
                    decreases items@.len() - i,
                {
                    list.push(diagnostic_text(&items[i]));
                    i += 1;
                }
                assert(texts(list@) == models(items@).map_values(
                    |d: JsonModel| diagnostic_words(d),
                ));
                clip(join(list.as_slice(), "\n"), MAX_OUTPUT)
            },
            _ => "no diagnostics published for this file (it may be clean)".to_owned(),
        }
    }
}

// ---------------------------------------------------------------------------
// What is asked and what is shown
// ---------------------------------------------------------------------------

/// A request names the document and the position that a call asks for, counted
/// from zero where the call counts from one.
pub proof fn law_positions_are_counted_from_zero(uri: Seq<char>, line: u64, column: u64)
    requires
        line >= 1,
        column >= 1,
    ensures
        ({
            let params = position_model(uri, line, column);
            let position = at(params, "position"@);
            &&& at(at(params, "textDocument"@), "uri"@) == JsonModel::Text(uri)
            &&& as_count(at(position, "line"@)) == Some((line - 1) as u64)
            &&& as_count(at(position, "character"@)) == Some((column - 1) as u64)
        }),
        zero_based(0) == 0,
{
    reveal_strlit("textDocument");
    reveal_strlit("position");
    reveal_strlit("line");
    reveal_strlit("character");
    assert("textDocument"@.len() == 12 && "position"@.len() == 8);
    assert("line"@.len() == 4 && "character"@.len() == 9);
    reveal_with_fuel(entry_of, 3);
}

/// A request for references asks for the position that a request for a
/// definition does, with the declaration among the references.
pub proof fn law_references_ask_for_the_same_position(uri: Seq<char>, line: u64, column: u64)
    ensures
        ({
            let params = references_model(uri, line, column);
            let position = position_model(uri, line, column);
            &&& at(params, "textDocument"@) == at(position, "textDocument"@)
            &&& at(params, "position"@) == at(position, "position"@)
            &&& at(at(params, "context"@), "includeDeclaration"@) == JsonModel::Bool(true)
        }),
{
    reveal_strlit("textDocument");
    reveal_strlit("position");
    reveal_strlit("context");
    assert("textDocument"@.len() == 12 && "position"@.len() == 8 && "context"@.len() == 7);
    reveal_with_fuel(entry_of, 4);
}

/// Hover items give their texts in order and nothing else: an item that is a
/// text gives it, one that has a text as its value gives that, and any other
/// none.
pub proof fn law_hover_items_give_their_texts(
    first: Seq<JsonModel>,
    second: Seq<JsonModel>,
    text: Seq<char>,
    item: JsonModel,
)
    ensures
        hover_items(first + second) == hover_items(first) + hover_items(second),
        hover_items(seq![JsonModel::Text(text)]) == seq![text],
        !(item is Text) && at(item, "value"@) == JsonModel::Text(text) ==> hover_items(seq![item])
            == seq![text],
        !(item is Text) && !(at(item, "value"@) is Text) ==> hover_items(seq![item]) == Seq::<
            Seq<char>,
        >::empty(),
    decreases second.len(),
{
    if second.len() == 0 {
        assert(first + second == first);
        assert(hover_items(first) + hover_items(second) == hover_items(first));
    } else {
        law_hover_items_give_their_texts(first, second.drop_last(), text, item);
        assert((first + second).drop_last() == first + second.drop_last());
        if let Some(shown) = hover_item(second.last()) {
            assert(hover_items(first) + hover_items(second.drop_last()).push(shown) == (
            hover_items(first) + hover_items(second.drop_last())).push(shown));
        }
    }
    let plain = seq![JsonModel::Text(text)];
    assert(plain.drop_last() == Seq::<JsonModel>::empty());
    assert(seq![item].drop_last() == Seq::<JsonModel>::empty());
    assert(hover_items(Seq::<JsonModel>::empty()) == Seq::<Seq<char>>::empty());
    assert(Seq::<Seq<char>>::empty().push(text) == seq![text]);
}

/// Hover information is shown in whichever of three forms it comes: the text of
/// its value, the texts of its items line by line, or a text by itself. Without
/// any there is none to show.
pub proof fn law_hover_is_shown_in_every_form(
    contents: JsonModel,
    text: Seq<char>,
    items: Seq<JsonModel>,
)
    ensures
        at(contents, "value"@) == JsonModel::Text(text) ==> hover_words(contents) == text,
        hover_words(JsonModel::Text(text)) == text,
        hover_words(JsonModel::Array(items)) == joined(hover_items(items), "\n"@),
        !(at(contents, "value"@) is Text) && !(contents is Array) && !(contents is Text)
            ==> hover_words(contents) == "no hover information"@,
{
}

/// Diagnostics are listed line by line, all of them and in order, each with its
/// line counted from one, its severity and its message.
pub proof fn law_every_diagnostic_is_listed(items: Seq<JsonModel>)
    requires
        items.len() > 0,
        forall|i: int|
            0 <= i < items.len() ==> !text_or_empty(
                at(#[trigger] items[i], "message"@),
            ).contains('\n'),
        utf8_len(joined(items.map_values(|d: JsonModel| diagnostic_words(d)), "\n"@))
            <= 20_000,
    ensures
        ({
            let listed = feed_pieces(diagnostics_words(Some(JsonModel::Array(items))));
            &&& listed.len() == items.len()
            &&& forall|i: int|
                0 <= i < items.len() ==> {
                    let start = at(at(#[trigger] items[i], "range"@), "start"@);
                    let severity = as_count(at(items[i], "severity"@));
                    let word = if severity == Some(1u64) {
                        "error"@
                    } else if severity == Some(2u64) {
                        "warning"@
                    } else if severity == Some(3u64) {
                        "info"@
                    } else {
                        "hint"@
                    };
                    listed[i] == decimal((count_or(at(start, "line"@), 0) + 1) as nat) + ": ["@
                        + word + "] "@ + text_or_empty(at(items[i], "message"@))
                }
        }),
{
    let lines = items.map_values(|d: JsonModel| diagnostic_words(d));
    reveal_strlit("error");
    reveal_strlit("warning");
    reveal_strlit("info");
    reveal_strlit("hint");
    reveal_strlit(": [");
    reveal_strlit("] ");
    assert forall|i: int| 0 <= i < lines.len() implies !(#[trigger] lines[i]).contains('\n') by {
        let number = decimal(
            (count_or(at(at(at(items[i], "range"@), "start"@), "line"@), 0) + 1) as nat,
        );
        let word = severity_word(as_count(at(items[i], "severity"@)));
        let message = text_or_empty(at(items[i], "message"@));
        let line = lines[i];
        law_decimal_is_plain(
            (count_or(at(at(at(items[i], "range"@), "start"@), "line"@), 0) + 1) as nat,
            0,
        );
        assert(!message.contains('\n'));
        assert(!word.contains('\n'));
        assert(line == number + ": ["@ + word + "] "@ + message);
        if line.contains('\n') {
            let k = choose|k: int| 0 <= k < line.len() && line[k] == '\n';
            let a = number.len();
            let b = a + 3 + word.len();
            if k < a {
                assert('0' <= number[k] <= '9');
            } else if k < a + 3 {
                assert(line[k] == ": ["@[k - a]);
            } else if k < b {
                assert(word[k - a - 3] == '\n');
            } else if k < b + 2 {
                assert(line[k] == "] "@[k - b]);
            } else {
                assert(message[k - b - 2] == '\n');
            }
        }
    }
    law_joined_lines_part_again(lines);
}

/// What a server tells is clipped at twenty thousand bytes, but for the place of
/// a definition, which is shown as it is.
pub proof fn law_shown_answers_are_clipped(
    hover: LspHover,
    references: LspReferences,
    definition: LspDefinition,
    result: Json,
    shown: String,
    listed: String,
    place: String,
    items: Seq<JsonModel>,
)
    requires
        call_ensures(LspHover::answer, (&hover, &result), shown),
        call_ensures(LspReferences::answer, (&references, &result), listed),
        call_ensures(LspDefinition::answer, (&definition, &result), place),
        items.len() > 0,
    ensures
        shown@ == clipped(hover_words(at(result@, "contents"@)), 20_000),
        listed@ == clipped(shown_locations(result@), 20_000),
        place@ == shown_locations(result@),
        diagnostics_words(Some(JsonModel::Array(items))) == clipped(
            joined(items.map_values(|d: JsonModel| diagnostic_words(d)), "\n"@),
            20_000,
        ),
{
}

/// A file that is clean is told apart from one of which nothing was published.
pub proof fn law_clean_files_are_told_apart(published: JsonModel)
    ensures
        diagnostics_words(Some(JsonModel::Array(Seq::empty())))
            == "no diagnostics: the file is clean"@,
        diagnostics_words(None) == "no diagnostics published for this file (it may be clean)"@,
        !(published is Array) ==> diagnostics_words(Some(published))
            == "no diagnostics published for this file (it may be clean)"@,
{
}

/// Each language has its server, and a file of any other has none.
pub proof fn law_servers_go_by_extension(extension: Seq<char>)
    ensures
        server_of("rs"@) == Some("rust-analyzer"@),
        server_of("py"@) == Some("pyright-langserver --stdio"@),
        extension != "rs"@ && extension != "py"@ ==> server_of(extension) is None,
{
    reveal_strlit("rs");
    reveal_strlit("py");
    assert("rs"@[0] == 'r' && "py"@[0] == 'p');
}

/// A call gives a file and a line, each as it is; its column is the first unless
/// it says otherwise.
pub proof fn law_positions_are_taken_as_they_are(input: Json, res: Result<PositionRequest, String>)
    requires
        call_ensures(position_request, (&input,), res),
    ensures
        res is Ok <==> at(input@, "path"@) is Text && as_count(at(input@, "line"@)) is Some,
        res matches Ok(request) ==> {
            &&& at(input@, "path"@) == JsonModel::Text(request.path@)
            &&& as_count(at(input@, "line"@)) == Some(request.line)
            &&& as_count(at(input@, "column"@)) is None ==> request.column == 1
            &&& as_count(at(input@, "column"@)) matches Some(n) ==> request.column == n
        },
{
}

} // verus!
