//! A minimal client of the Language Server Protocol: framing, what the server
//! sends, and how its answers are shown.

use vstd::prelude::*;
use vstd::string::*;
use vstd::utf8::*;

use crate::json::{
    as_count, as_text, at, copy_at, count_model, count_or, count_or_at, entry_of, field, get,
    models, text_at, text_of_document, Json, JsonModel,
};
use crate::keyed::{Keyed, TextSet};
use crate::rpc::{
    acknowledgement, answer_in, is_answer, law_messages_carry_their_parts, notification,
    notification_model, reply_model, Answer,
};
use crate::text::layout::{
    is_space, law_trimmed_end_cuts_white_space, trim, trim_end, trimmed, trimmed_end, words,
    words_of,
};
use crate::text::number::{
    decimal, decimal_of, decimal_text, lemma_decimal_digits, lemma_decimal_read_back, parse_size,
    parsed_number,
};
use crate::text::search::{begins_with, strip_prefix, strip_prefixes, without_prefixes};
use crate::text::{byte_len, join, joined, lemma_encode_concat, same_text, texts, utf8_len};

verus! {

broadcast use {
    vstd::string::group_string_axioms,
    vstd::seq_lib::group_seq_properties,
};

/// How long an answer may take, in seconds.
pub const REQUEST_TIMEOUT_SECS: u64 = 60;

// ---------------------------------------------------------------------------
// Starting a server
// ---------------------------------------------------------------------------

/// A command line, taken apart: the program and its arguments.
#[derive(Debug)]
pub struct CommandLine {
    pub program: String,
    pub arguments: Vec<String>,
}

/// Takes a command line apart at white space.
pub fn split_command(command: &str) -> (res: Result<CommandLine, String>)
    ensures
        match res {
            Ok(line) => words_of(command@) == seq![line.program@] + texts(line.arguments@),
            Err(error) => words_of(command@).len() == 0 && error@ == "empty LSP command"@,
        },
{
    let mut list: Vec<String> = words(command);
    let ghost all = texts(list@);
    if list.len() == 0 {
        assert(all.len() == 0);
        return Err("empty LSP command".to_owned());
    }
    let program: String = list.remove(0);
    assert(all == seq![program@] + texts(list@));
    Ok(CommandLine { program, arguments: list })
}

/// The parameters of the first request to a server.
pub open spec fn initialize_model(process_id: u32, root_uri: Seq<char>) -> JsonModel {
    let uri = JsonModel::Text(root_uri);
    let none = JsonModel::Object(Seq::empty());
    JsonModel::Object(
        seq![
            ("processId"@, count_model(process_id as u64)),
            ("rootUri"@, uri),
            (
                "workspaceFolders"@,
                JsonModel::Array(
                    seq![
                        JsonModel::Object(
                            seq![("uri"@, uri), ("name"@, JsonModel::Text("workspace"@))],
                        ),
                    ],
                ),
            ),
            (
                "capabilities"@,
                JsonModel::Object(
                    seq![
                        (
                            "window"@,
                            JsonModel::Object(seq![("workDoneProgress"@, JsonModel::Bool(true))]),
                        ),
                        (
                            "textDocument"@,
                            JsonModel::Object(
                                seq![
                                    (
                                        "hover"@,
                                        JsonModel::Object(
                                            seq![
                                                (
                                                    "contentFormat"@,
                                                    JsonModel::Array(
                                                        seq![
                                                            JsonModel::Text("plaintext"@),
                                                            JsonModel::Text("markdown"@),
                                                        ],
                                                    ),
                                                ),
                                            ],
                                        ),
                                    ),
                                    ("definition"@, none),
                                    ("references"@, none),
                                    ("publishDiagnostics"@, none),
                                ],
                            ),
                        ),
                    ],
                ),
            ),
        ],
    )
}

/// The parameters of the first request to a server.
pub fn initialize_params(process_id: u32, root_uri: &str) -> (params: Json)
    ensures
        params@ == initialize_model(process_id, root_uri@),
{
    let folder: Json = Json::object().with("uri", Json::text(root_uri)).with(
        "name",
        Json::text("workspace"),
    );
    assert(folder@->Object_0 == seq![
        ("uri"@, JsonModel::Text(root_uri@)),
        ("name"@, JsonModel::Text("workspace"@)),
    ]);
    let folders: Vec<Json> = vec![folder];
    assert(models(folders@) == seq![folder@]);
    let plain: Json = Json::text("plaintext");
    let markdown: Json = Json::text("markdown");
    let formats: Vec<Json> = vec![plain, markdown];
    assert(models(formats@) == seq![plain@, markdown@]);
    let hover: Json = Json::object().with("contentFormat", Json::array(formats));
    assert(hover@->Object_0 == seq![("contentFormat"@, JsonModel::Array(seq![plain@, markdown@]))]);
    let document: Json = Json::object().with("hover", hover).with(
        "definition",
        Json::object(),
    ).with("references", Json::object()).with("publishDiagnostics", Json::object());
    let ghost none = JsonModel::Object(Seq::empty());
    assert(document@->Object_0 == seq![
        ("hover"@, hover@),
        ("definition"@, none),
        ("references"@, none),
        ("publishDiagnostics"@, none),
    ]);
    let window: Json = Json::object().with("workDoneProgress", Json::Bool(true));
    assert(window@->Object_0 == seq![("workDoneProgress"@, JsonModel::Bool(true))]);
    let capabilities: Json = Json::object().with("window", window).with("textDocument", document);
    assert(capabilities@->Object_0 == seq![
        ("window"@, window@),
        ("textDocument"@, document@),
    ]);
    let params: Json = Json::object().with("processId", Json::count(process_id as u64)).with(
        "rootUri",
        Json::text(root_uri),
    ).with("workspaceFolders", Json::array(folders)).with("capabilities", capabilities);
    assert(params@->Object_0 == initialize_model(process_id, root_uri@)->Object_0);
    params
}

/// The uri of a file, given its absolute path.
pub fn uri_for(absolute: &str) -> (uri: String)
    ensures
        uri@ == "file://"@ + absolute@,
{
    "file://".to_owned().concat(absolute)
}

/// The name of a language in the protocol, by file extension.
pub open spec fn language_of(extension: Option<Seq<char>>) -> Seq<char> {
    match extension {
        Some(e) => if e == "rs"@ {
            "rust"@
        } else if e == "py"@ {
            "python"@
        } else {
            e
        },
        None => "plaintext"@,
    }
}

/// The text of an optional slice.
pub open spec fn slice_text(s: Option<&str>) -> Option<Seq<char>> {
    match s {
        Some(t) => Some(t@),
        None => None,
    }
}

/// The name of a language in the protocol, by file extension.
pub fn language_id(extension: Option<&str>) -> (id: String)
    ensures
        id@ == language_of(slice_text(extension)),
{
    match extension {
        Some(e) => if same_text(e, "rs") {
            "rust".to_owned()
        } else if same_text(e, "py") {
            "python".to_owned()
        } else {
            e.to_owned()
        },
        None => "plaintext".to_owned(),
    }
}

/// The parameters of the notification that opens a document.
pub open spec fn did_open_model(
    uri: Seq<char>,
    language: Seq<char>,
    text: Seq<char>,
) -> JsonModel {
    JsonModel::Object(
        seq![
            (
                "textDocument"@,
                JsonModel::Object(
                    seq![
                        ("uri"@, JsonModel::Text(uri)),
                        ("languageId"@, JsonModel::Text(language)),
                        ("version"@, count_model(1)),
                        ("text"@, JsonModel::Text(text)),
                    ],
                ),
            ),
        ],
    )
}

/// The parameters of the notification that opens a document.
pub fn did_open_params(uri: &str, extension: Option<&str>, text: &str) -> (params: Json)
    ensures
        params@ == did_open_model(uri@, language_of(slice_text(extension)), text@),
{
    let language: String = language_id(extension);
    let document: Json = Json::object().with("uri", Json::text(uri)).with(
        "languageId",
        Json::text(language.as_str()),
    ).with("version", Json::count(1)).with("text", Json::text(text));
    assert(document@->Object_0 == seq![
        ("uri"@, JsonModel::Text(uri@)),
        ("languageId"@, JsonModel::Text(language@)),
        ("version"@, count_model(1)),
        ("text"@, JsonModel::Text(text@)),
    ]);
    let params: Json = Json::object().with("textDocument", document);
    assert(params@->Object_0 == seq![("textDocument"@, document@)]);
    params
}

/// The notification that opens a document.
pub open spec fn opening_model(uri: Seq<char>, language: Seq<char>, text: Seq<char>) -> JsonModel {
    notification_model("textDocument/didOpen"@, did_open_model(uri, language, text))
}

// ---------------------------------------------------------------------------
// Framing
// ---------------------------------------------------------------------------

/// The header line that gives the length of a body.
pub open spec fn length_line(length: nat) -> Seq<char> {
    "Content-Length: "@ + decimal(length) + "\r\n"@
}

/// A message as it is sent: its length in bytes, a blank line, its body.
pub open spec fn framed(body: Seq<char>) -> Seq<char> {
    length_line(utf8_len(body)) + "\r\n"@ + body
}

/// A message as it is sent.
pub fn frame(body: &str) -> (text: String)
    ensures
        text@ == framed(body@),
{
    let length: String = decimal_of(byte_len(body));
    "Content-Length: ".to_owned().concat(length.as_str()).concat("\r\n").concat("\r\n").concat(
        body,
    )
}

/// The header of a message that comes in, as far as it was read.
#[derive(Clone, Copy, Debug)]
pub struct FrameHeader {
    pub length: Option<usize>,
}

/// What a header line does: nothing where it ends the header, else the length
/// that is known after it. A length line that is no number leaves no length.
pub open spec fn header_after(length: Option<nat>, line: Seq<char>) -> Option<Option<nat>> {
    let content = trimmed_end(line);
    if content.len() == 0 {
        None
    } else if begins_with(content, "Content-Length:"@) {
        match parsed_number(trimmed(content.skip("Content-Length:"@.len() as int))) {
            Some(n) => if n <= usize::MAX {
                Some(Some(n))
            } else {
                Some(None)
            },
            None => Some(None),
        }
    } else {
        Some(length)
    }
}

impl FrameHeader {
    /// The length that is known, as a number.
    pub open spec fn known(self) -> Option<nat> {
        match self.length {
            Some(n) => Some(n as nat),
            None => None,
        }
    }

    /// A header of which nothing was read.
    pub fn new() -> (header: FrameHeader)
        ensures
            header.known() is None,
    {
        FrameHeader { length: None }
    }

    /// Takes in a header line, and tells whether the header ends with it.
    pub fn take_line(&mut self, line: &str) -> (ended: bool)
        ensures
            match header_after(old(self).known(), line@) {
                Some(length) => !ended && final(self).known() == length,
                None => ended && *final(self) == *old(self),
            },
    {
        let content: String = trim_end(line);
        if content.as_str().is_empty() {
            return true;
        }
        if let Some(value) = strip_prefix(content.as_str(), "Content-Length:") {
            let number: String = trim(value.as_str());
            self.length = parse_size(number.as_str());
        }
        false
    }

    /// The length of the body, once the header has ended.
    pub fn body_length(&self) -> (res: Result<usize, String>)
        ensures
            match res {
                Ok(n) => self.known() == Some(n as nat),
                Err(error) => {
                    &&& self.known() is None
                    &&& error@ == "missing Content-Length header"@
                },
            },
    {
        match self.length {
            Some(n) => Ok(n),
            None => Err("missing Content-Length header".to_owned()),
        }
    }
}

proof fn lemma_digits_are_not_space(n: nat)
    ensures
        trimmed(seq![' '] + decimal(n)) == decimal(n),
        decimal(n).len() > 0,
        trimmed_end(decimal(n) + "\r\n"@) == decimal(n),
        trimmed_end(decimal(n)) == decimal(n),
{
    lemma_decimal_digits(n);
    let digits = decimal(n);
    reveal_strlit("\r\n");
    let ended = digits + "\r\n"@;
    assert(ended.drop_last().drop_last() == digits);
    assert(ended.last() == '\n');
    assert(ended.drop_last().last() == '\r');
    reveal_with_fuel(trimmed_end, 3);
    let spaced = seq![' '] + digits;
    assert(spaced.drop_first() == digits);
    assert(digits[0] == spaced[1]);
    reveal_with_fuel(crate::text::layout::trimmed_start, 2);
}

/// What is framed reads back: the frame is a length line, a blank line and the
/// body; the header ends with the blank line, gives the length of the body in
/// bytes, and as many bytes after it are the body.
pub proof fn law_frames_read_back(body: Seq<char>)
    requires
        utf8_len(body) <= usize::MAX,
    ensures
        framed(body) == length_line(utf8_len(body)) + "\r\n"@ + body,
        header_after(None, length_line(utf8_len(body))) == Some(Some(utf8_len(body))),
        header_after(Some(utf8_len(body)), "\r\n"@) is None,
        ({
            let sent = encode_utf8(framed(body));
            let header = encode_utf8(length_line(utf8_len(body)) + "\r\n"@);
            &&& sent.take(header.len() as int) == header
            &&& sent.skip(header.len() as int) == encode_utf8(body)
            &&& sent.len() == header.len() + utf8_len(body)
        }),
{
    lemma_encode_concat(length_line(utf8_len(body)) + "\r\n"@, body);
    let n = utf8_len(body);
    let line = length_line(n);
    let prefix = "Content-Length:"@;
    reveal_strlit("Content-Length:");
    reveal_strlit("Content-Length: ");
    reveal_strlit("\r\n");
    lemma_digits_are_not_space(n);
    lemma_decimal_digits(n);
    lemma_decimal_read_back(n);
    let content = "Content-Length: "@ + decimal(n);
    assert("Content-Length: "@ == prefix.push(' '));
    assert(trimmed_end(line) == content) by {
        assert(line.last() == '\n');
        assert(line.drop_last().last() == '\r');
        assert(line.drop_last().drop_last() == content);
        assert(content.last() == decimal(n).last());
        reveal_with_fuel(trimmed_end, 3);
    }
    assert(content.subrange(0, prefix.len() as int) == prefix);
    assert(content.skip(prefix.len() as int) == seq![' '] + decimal(n));
    assert(trimmed_end("\r\n"@) == Seq::<char>::empty()) by {
        reveal_with_fuel(trimmed_end, 3);
        assert("\r\n"@.drop_last().drop_last() == Seq::<char>::empty());
    }
}

// ---------------------------------------------------------------------------
// What the server sends
// ---------------------------------------------------------------------------

/// What is known of a server.
#[derive(Debug)]
pub struct LspState {
    /// Work-done progress tokens currently active (server is
    /// indexing/analyzing).
    pub active_progress: TextSet,
    /// Latest diagnostics published per document uri.
    pub diagnostics: Keyed<Json>,
    /// Documents that were opened.
    pub opened: TextSet,
}

/// What an [`LspState`] stands for.
pub ghost struct ServerModel {
    pub active_progress: Set<Seq<char>>,
    pub diagnostics: Map<Seq<char>, JsonModel>,
    pub opened: Set<Seq<char>>,
}

impl View for LspState {
    type V = ServerModel;

    open spec fn view(&self) -> ServerModel {
        ServerModel {
            active_progress: self.active_progress@,
            diagnostics: self.diagnostics@.map_values(|d: Json| d@),
            opened: self.opened@,
        }
    }
}

/// What is known of a server after a message with a method: progress begins or
/// ends, or the diagnostics of a document are published.
pub open spec fn server_after(server: ServerModel, message: JsonModel) -> ServerModel {
    let params = at(message, "params"@);
    let method = as_text(at(message, "method"@));
    if method == Some("$/progress"@) {
        let token = text_of_document(at(params, "token"@));
        let kind = as_text(at(at(params, "value"@), "kind"@));
        if kind == Some("begin"@) {
            ServerModel { active_progress: server.active_progress.insert(token), ..server }
        } else if kind == Some("end"@) {
            ServerModel { active_progress: server.active_progress.remove(token), ..server }
        } else {
            server
        }
    } else if method == Some("textDocument/publishDiagnostics"@) {
        match as_text(at(params, "uri"@)) {
            Some(uri) => ServerModel {
                diagnostics: server.diagnostics.insert(uri, at(params, "diagnostics"@)),
                ..server
            },
            None => server,
        }
    } else {
        server
    }
}

/// The reply that a message wants: a request of the server is acknowledged, so
/// that the server never stalls.
pub open spec fn wanted_reply(message: JsonModel) -> Option<JsonModel> {
    match (get(message, "id"@), get(message, "method"@)) {
        (Some(id), Some(_)) => Some(reply_model(id, JsonModel::Null)),
        _ => None,
    }
}

/// What to do about a message.
#[derive(Debug)]
pub struct Reaction {
    /// An answer to hand to the request that waits for it.
    pub answer: Option<Answer>,
    /// A message to send back.
    pub reply: Option<Json>,
}

/// Whether a reply is the one that a message wants.
pub open spec fn is_reply(reply: Option<Json>, wanted: Option<JsonModel>) -> bool {
    match reply {
        Some(r) => wanted == Some(r@),
        None => wanted is None,
    }
}

fn is_method(message: &Json, method: &str) -> (res: bool)
    ensures
        res == (as_text(at(message@, "method"@)) == Some(method@)),
{
    match text_at(message.get("method")) {
        Some(text) => same_text(text, method),
        None => false,
    }
}

impl LspState {
    /// The sets and the map list each key once.
    pub open spec fn wf(&self) -> bool {
        self.active_progress.wf() && self.diagnostics.wf() && self.opened.wf()
    }

    /// A server of which nothing is known.
    pub fn new() -> (state: LspState)
        ensures
            state.wf(),
            state@ == (ServerModel {
                active_progress: Set::empty(),
                diagnostics: Map::empty(),
                opened: Set::empty(),
            }),
    {
        let state: LspState = LspState {
            active_progress: TextSet::new(),
            diagnostics: Keyed::new(),
            opened: TextSet::new(),
        };
        assert(state@.diagnostics == Map::<Seq<char>, JsonModel>::empty());
        state
    }

    /// Takes in a message of the server. An answer is handed on and changes
    /// nothing; anything else may want a reply and may tell of progress or
    /// diagnostics.
    pub fn on_message(&mut self, message: &Json) -> (reaction: Reaction)
        requires
            old(self).wf(),
        ensures
            final(self).wf(),
            is_answer(reaction.answer, message@),
            reaction.answer is Some ==> reaction.reply is None && final(self)@ == old(self)@,
            reaction.answer is None ==> {
                &&& is_reply(reaction.reply, wanted_reply(message@))
                &&& final(self)@ == server_after(old(self)@, message@)
            },
    {
        if let Some(answer) = answer_in(message) {
            return Reaction { answer: Some(answer), reply: None };
        }
        let reply: Option<Json> = match message.get("id") {
            Some(id) => if message.get("method").is_some() {
                Some(acknowledgement(id))
            } else {
                None
            },
            None => None,
        };
        let params: Option<&Json> = message.get("params");
        let ghost before = self@;
        if is_method(message, "$/progress") {
            let token: String = copy_at(field(params, "token")).to_text();
            if let Some(kind) = text_at(field(field(params, "value"), "kind")) {
                if same_text(kind, "begin") {
                    let added: bool = self.active_progress.insert(token);
                } else if same_text(kind, "end") {
                    self.active_progress.remove(token.as_str());
                }
            }
        } else if is_method(message, "textDocument/publishDiagnostics") {
            if let Some(uri) = text_at(field(params, "uri")) {
                let published: Json = copy_at(field(params, "diagnostics"));
                let key: String = uri.to_owned();
                self.diagnostics.insert(key, published);
                assert(self@.diagnostics == before.diagnostics.insert(uri@, published@));
            }
        }
        Reaction { answer: None, reply }
    }

    /// Whether the server reports no work in progress.
    pub fn is_quiet(&self) -> (res: bool)
        requires
            self.wf(),
        ensures
            res == (self@.active_progress == Set::<Seq<char>>::empty()),
    {
        self.active_progress.is_empty()
    }

    /// Latest diagnostics the server published for a document, if any.
    pub fn diagnostics_for(&self, uri: &str) -> (published: Option<Json>)
        requires
            self.wf(),
        ensures
            match published {
                Some(d) => self@.diagnostics.contains_key(uri@) && self@.diagnostics[uri@] == d@,
                None => !self@.diagnostics.contains_key(uri@),
            },
    {
        match self.diagnostics.get(uri) {
            Some(d) => Some(d.clone()),
            None => None,
        }
    }

    /// Whether a document was opened.
    pub fn is_open(&self, uri: &str) -> (res: bool)
        requires
            self.wf(),
        ensures
            res == self@.opened.contains(uri@),
    {
        self.opened.contains(uri)
    }

    /// The notification that opens a document, unless it was opened.
    pub fn opening(&self, uri: &str, extension: Option<&str>, text: &str) -> (message: Option<
        Json,
    >)
        requires
            self.wf(),
        ensures
            match message {
                Some(m) => {
                    &&& !self@.opened.contains(uri@)
                    &&& m@ == opening_model(uri@, language_of(slice_text(extension)), text@)
                },
                None => self@.opened.contains(uri@),
            },
    {
        if self.opened.contains(uri) {
            None
        } else {
            Some(notification("textDocument/didOpen", did_open_params(uri, extension, text)))
        }
    }

    /// Takes note that the notification that opens a document was sent, and
    /// tells whether the document was not open before.
    pub fn open_once(&mut self, uri: &str) -> (first: bool)
        requires
            old(self).wf(),
        ensures
            final(self).wf(),
            first == !old(self)@.opened.contains(uri@),
            final(self)@ == (ServerModel { opened: old(self)@.opened.insert(uri@), ..old(self)@ }),
    {
        let key: String = uri.to_owned();
        self.opened.insert(key)
    }
}

/// How often in a row the server was found quiet.
#[derive(Clone, Copy, Debug, PartialEq, Eq, Structural)]
pub struct Readiness {
    pub quiet_checks: u32,
}

/// How many quiet checks in a row make a server ready: sustained quiet, so that
/// a gap between two tasks is not mistaken for readiness.
pub const QUIET_CHECKS: u32 = 3;

/// The quiet checks in a row after one more: work in progress starts over, and
/// quiet counts once the server had time to report work.
pub open spec fn quiet_after(checks: nat, busy: bool, settled: bool) -> nat {
    if busy {
        0
    } else if settled {
        checks + 1
    } else {
        checks
    }
}

/// Whether a check finds the server ready, given the quiet checks in a row with
/// it.
pub open spec fn found_ready(checks: nat, busy: bool, settled: bool) -> bool {
    !busy && settled && checks >= QUIET_CHECKS
}

impl Readiness {
    /// The server was not found quiet yet.
    pub fn new() -> (readiness: Readiness)
        ensures
            readiness.quiet_checks == 0,
    {
        Readiness { quiet_checks: 0 }
    }

    /// Takes note of a check, and tells whether the server is ready.
    pub fn check(&mut self, busy: bool, settled: bool) -> (ready: bool)
        requires
            old(self).quiet_checks < u32::MAX,
        ensures
            final(self).quiet_checks == quiet_after(
                old(self).quiet_checks as nat,
                busy,
                settled,
            ),
            ready == found_ready(final(self).quiet_checks as nat, busy, settled),
    {
        if busy {
            self.quiet_checks = 0;
        } else if settled {
            self.quiet_checks = self.quiet_checks + 1;
            if self.quiet_checks >= QUIET_CHECKS {
                return true;
            }
        }
        false
    }
}

/// What is known of a server after several messages.
pub open spec fn server_after_all(server: ServerModel, messages: Seq<JsonModel>) -> ServerModel
    decreases messages.len(),
{
    if messages.len() == 0 {
        server
    } else {
        server_after(server_after_all(server, messages.drop_last()), messages.last())
    }
}

/// Whatever the server sends, the documents that were opened stay known, and no
/// other becomes known.
pub proof fn law_documents_stay_open(server: ServerModel, messages: Seq<JsonModel>)
    ensures
        server_after_all(server, messages).opened == server.opened,
    decreases messages.len(),
{
    if messages.len() > 0 {
        law_documents_stay_open(server, messages.drop_last());
    }
}

/// What can happen while a document is to be open.
pub ghost enum DocumentStep {
    /// The server sends a message.
    Message(JsonModel),
    /// Another document is opened.
    Other(Seq<char>),
    /// The document is asked for, and if it is not open, it cannot be read.
    Unread,
    /// The document is asked for, and if it is not open, it is read but the
    /// notification cannot be sent.
    Unsent(Seq<char>),
    /// The document is asked for, and if it is not open, it is read and the
    /// notification is sent.
    Sent(Seq<char>),
}

/// What has come of a document: what is known of the server, what was sent, and
/// whether the document was open after it was last asked for.
pub ghost struct Opening {
    pub server: ServerModel,
    pub sent: Seq<JsonModel>,
    pub ready: bool,
}

/// What comes of a document in one step. It is taken note of as opened once the
/// notification was sent.
pub open spec fn opening_step(
    before: Opening,
    uri: Seq<char>,
    language: Seq<char>,
    step: DocumentStep,
) -> Opening {
    let open = before.server.opened.contains(uri);
    match step {
        DocumentStep::Message(message) => Opening {
            server: server_after(before.server, message),
            ..before
        },
        DocumentStep::Other(other) => Opening {
            server: ServerModel { opened: before.server.opened.insert(other), ..before.server },
            ..before
        },
        DocumentStep::Unread => Opening { ready: open, ..before },
        DocumentStep::Unsent(_) => Opening { ready: open, ..before },
        DocumentStep::Sent(text) => if open {
            Opening { ready: true, ..before }
        } else {
            Opening {
                server: ServerModel { opened: before.server.opened.insert(uri), ..before.server },
                sent: before.sent.push(opening_model(uri, language, text)),
                ready: true,
            }
        },
    }
}

/// What comes of a document that is not open, in several steps.
pub open spec fn opening_run(
    server: ServerModel,
    uri: Seq<char>,
    language: Seq<char>,
    steps: Seq<DocumentStep>,
) -> Opening
    decreases steps.len(),
{
    if steps.len() == 0 {
        Opening { server, sent: Seq::empty(), ready: false }
    } else {
        opening_step(
            opening_run(server, uri, language, steps.drop_last()),
            uri,
            language,
            steps.last(),
        )
    }
}

/// A document is opened once: however often it is asked for, and whatever
/// happens in between, no more than one notification is sent for it. Once it
/// was asked for with success just one was sent, with the text that was read
/// for it; an attempt that failed does not stand in the way of the next.
pub proof fn law_documents_open_once(
    server: ServerModel,
    uri: Seq<char>,
    language: Seq<char>,
    steps: Seq<DocumentStep>,
)
    requires
        !server.opened.contains(uri),
        forall|i: int|
            0 <= i < steps.len() ==> (#[trigger] steps[i] matches DocumentStep::Other(other)
                ==> other != uri),
    ensures
        ({
            let run = opening_run(server, uri, language, steps);
            &&& run.sent.len() <= 1
            &&& run.server.opened.contains(uri) <==> run.sent.len() == 1
            &&& run.ready ==> run.sent.len() == 1
            &&& run.sent.len() == 1 ==> exists|i: int|
                0 <= i < steps.len() && (#[trigger] steps[i] matches DocumentStep::Sent(text)
                    && run.sent[0] == opening_model(uri, language, text))
            &&& (exists|i: int| 0 <= i < steps.len() && #[trigger] steps[i] is Sent)
                ==> run.sent.len() == 1
        }),
    decreases steps.len(),
{
    if steps.len() > 0 {
        let front = steps.drop_last();
        assert forall|i: int| 0 <= i < front.len() implies (
        #[trigger] front[i] matches DocumentStep::Other(other) ==> other != uri) by {
            assert(front[i] == steps[i]);
        }
        law_documents_open_once(server, uri, language, front);
        let before = opening_run(server, uri, language, front);
        let run = opening_run(server, uri, language, steps);
        assert(steps[steps.len() - 1] == steps.last());
        if before.sent.len() == 1 {
            let i = choose|i: int|
                0 <= i < front.len() && (#[trigger] front[i] matches DocumentStep::Sent(text)
                    && before.sent[0] == opening_model(uri, language, text));
            assert(steps[i] == front[i]);
            assert(run.sent == before.sent);
        }
        if exists|i: int| 0 <= i < steps.len() && #[trigger] steps[i] is Sent {
            let i = choose|i: int| 0 <= i < steps.len() && #[trigger] steps[i] is Sent;
            if i < front.len() {
                assert(front[i] is Sent);
            }
        }
    }
}

/// The quiet checks in a row after several checks, each of which found the
/// server busy or not, and settled or not.
pub open spec fn quiet_run(checks: Seq<(bool, bool)>) -> nat
    decreases checks.len(),
{
    if checks.len() == 0 {
        0
    } else {
        quiet_after(quiet_run(checks.drop_last()), checks.last().0, checks.last().1)
    }
}

/// How many of several checks found the server settled.
pub open spec fn settled_checks(checks: Seq<(bool, bool)>) -> nat
    decreases checks.len(),
{
    if checks.len() == 0 {
        0
    } else {
        settled_checks(checks.drop_last()) + if checks.last().1 {
            1nat
        } else {
            0nat
        }
    }
}

/// Readiness takes sustained quiet: the count is that of the settled checks
/// since some check from which on the server was never found busy.
pub proof fn law_readiness_takes_sustained_quiet(checks: Seq<(bool, bool)>) -> (from: int)
    ensures
        0 <= from <= checks.len(),
        forall|i: int| from <= i < checks.len() ==> !(#[trigger] checks[i]).0,
        from > 0 ==> checks[from - 1].0,
        quiet_run(checks) == settled_checks(checks.skip(from)),
    decreases checks.len(),
{
    if checks.len() == 0 {
        assert(checks.skip(0) == checks);
        0
    } else if checks.last().0 {
        assert(checks.skip(checks.len() as int) == Seq::<(bool, bool)>::empty());
        checks.len() as int
    } else {
        let front = checks.drop_last();
        let from = law_readiness_takes_sustained_quiet(front);
        assert forall|i: int| from <= i < checks.len() implies !(#[trigger] checks[i]).0 by {
            if i < front.len() {
                assert(front[i] == checks[i]);
            }
        }
        if from > 0 {
            assert(front[from - 1] == checks[from - 1]);
        }
        assert(checks.skip(from).drop_last() == front.skip(from));
        from
    }
}

// ---------------------------------------------------------------------------
// Locations
// ---------------------------------------------------------------------------

/// The place that a location names: `path:line`, 1-based.
pub open spec fn location_words(location: JsonModel) -> Option<Seq<char>> {
    let uri = match as_text(at(location, "uri"@)) {
        Some(uri) => Some(uri),
        None => as_text(at(location, "targetUri"@)),
    };
    let range = if at(location, "range"@) is Object {
        at(location, "range"@)
    } else {
        at(location, "targetRange"@)
    };
    let start = at(range, "start"@);
    match uri {
        Some(u) => Some(
            without_prefixes(u, "file://"@) + ":"@ + decimal(
                (count_or(at(start, "line"@), 0) + 1) as nat,
            ),
        ),
        None => None,
    }
}

/// The places that locations name; a location without a uri is left out.
pub open spec fn location_lines(locations: Seq<JsonModel>) -> Seq<Seq<char>>
    decreases locations.len(),
{
    if locations.len() == 0 {
        Seq::empty()
    } else {
        match location_words(locations.last()) {
            Some(words) => location_lines(locations.drop_last()).push(words),
            None => location_lines(locations.drop_last()),
        }
    }
}

/// The locations of a result: one, several, or none.
pub open spec fn locations_of(result: JsonModel) -> Seq<JsonModel> {
    match result {
        JsonModel::Array(items) => items,
        JsonModel::Null => Seq::empty(),
        single => seq![single],
    }
}

/// Locations as they are shown.
pub open spec fn shown_locations(result: JsonModel) -> Seq<char> {
    if locations_of(result).len() == 0 {
        "no results"@
    } else {
        joined(location_lines(locations_of(result)), "\n"@)
    }
}

fn location_text(location: &Json) -> (words: Option<String>)
    ensures
        match words {
            Some(w) => location_words(location@) == Some(w@),
            None => location_words(location@) is None,
        },
{
    let uri: Option<&str> = match text_at(location.get("uri")) {
        Some(uri) => Some(uri),
        None => text_at(location.get("targetUri")),
    };
    let direct: Option<&Json> = location.get("range");
    let has_range: bool = match direct {
        Some(Json::Object(_)) => true,
        _ => false,
    };
    assert(has_range == (at(location@, "range"@) is Object));
    let range: Option<&Json> = if has_range {
        direct
    } else {
        location.get("targetRange")
    };
    let start: Option<&Json> = field(range, "start");
    let line: u128 = count_or_at(field(start, "line"), 0) as u128 + 1;
    match uri {
        Some(u) => {
            let path: String = strip_prefixes(u, "file://");
            let row: String = decimal_text(line);
            Some(path.concat(":").concat(row.as_str()))
        },
        None => None,
    }
}

fn location_texts(locations: &[Json]) -> (lines: Vec<String>)
    ensures
        texts(lines@) == location_lines(models(locations@)),
{
    let ghost all = models(locations@);
    let mut lines: Vec<String> = Vec::new();
    let mut i: usize = 0;
    assert(texts(lines@) == location_lines(all.take(0)));
    while i < locations.len()
        invariant
            i <= locations@.len(),
            all == models(locations@),
            texts(lines@) == location_lines(all.take(i as int)),
        decreases locations@.len() - i,
    {
        let ghost before = lines@;
        assert(all.take(i + 1).drop_last() == all.take(i as int));
        assert(all.take(i + 1).last() == locations@[i as int]@);
        if let Some(words) = location_text(&locations[i]) {
            lines.push(words);
            assert(texts(lines@) == texts(before).push(words@));
        }
        i += 1;
    }
    assert(all.take(i as int) == all);
    lines
}

/// Render an LSP `Location | Location[] | LocationLink[]` result as
/// `path:line`.
pub fn format_locations(result: &Json) -> (text: String)
    ensures
        text@ == shown_locations(result@),
{
    broadcast use crate::json::lemma_array_model;

    match result {
        Json::Array(items) => {
            assert(locations_of(result@) == models(items@));
            if items.len() == 0 {
                return "no results".to_owned();
            }
            let lines: Vec<String> = location_texts(items.as_slice());
            join(lines.as_slice(), "\n")
        },
        Json::Null => "no results".to_owned(),
        single => {
            let items: Vec<Json> = vec![single.clone()];
            assert(models(items@) == seq![single@]);
            let lines: Vec<String> = location_texts(items.as_slice());
            join(lines.as_slice(), "\n")
        },
    }
}

// ---------------------------------------------------------------------------
// What messages mean
// ---------------------------------------------------------------------------

/// A header ends with the first line that is nothing but white space, and lines
/// that do not give the length of the body leave what is known of it as it is.
pub proof fn law_other_headers_are_passed_over(length: Option<nat>, line: Seq<char>)
    ensures
        header_after(length, line) is None <==> forall|i: int|
            0 <= i < line.len() ==> is_space(#[trigger] line[i]),
        (exists|i: int| 0 <= i < line.len() && !is_space(#[trigger] line[i]))
            && !("Content-Length:"@.is_prefix_of(line)) ==> header_after(length, line) == Some(
            length,
        ),
{
    let to = law_trimmed_end_cuts_white_space(line);
    let content = trimmed_end(line);
    let word = "Content-Length:"@;
    if to > 0 {
        assert(!is_space(line[to - 1]));
    }
    if exists|i: int| 0 <= i < line.len() && !is_space(#[trigger] line[i]) {
        let i = choose|i: int| 0 <= i < line.len() && !is_space(#[trigger] line[i]);
        assert(i < to);
        if begins_with(content, word) {
            assert(content.subrange(0, word.len() as int) == word);
            assert(line.subrange(0, word.len() as int) == content.subrange(
                0,
                word.len() as int,
            ));
            assert(word.is_prefix_of(line));
        }
    }
}

/// Progress that begins makes its token active and progress that ends makes it
/// inactive; every other token, the diagnostics and the open documents stay as
/// they are.
pub proof fn law_progress_begins_and_ends(server: ServerModel, message: JsonModel, other: Seq<char>)
    requires
        at(message, "method"@) == JsonModel::Text("$/progress"@),
    ensures
        ({
            let now = server_after(server, message);
            let params = at(message, "params"@);
            let token = text_of_document(at(params, "token"@));
            let kind = at(at(params, "value"@), "kind"@);
            &&& now.diagnostics == server.diagnostics
            &&& now.opened == server.opened
            &&& other != token ==> now.active_progress.contains(other)
                == server.active_progress.contains(other)
            &&& kind == JsonModel::Text("begin"@) ==> now.active_progress.contains(token)
            &&& kind == JsonModel::Text("end"@) ==> !now.active_progress.contains(token)
            &&& kind != JsonModel::Text("begin"@) && kind != JsonModel::Text("end"@) ==> now
                == server
        }),
{
    reveal_strlit("begin");
    reveal_strlit("end");
    assert("begin"@.len() == 5 && "end"@.len() == 3);
}

/// What is kept of the diagnostics of a document is what was last published for
/// it; those of every other document, the progress and the open documents stay
/// as they are.
pub proof fn law_latest_diagnostics_are_kept(
    server: ServerModel,
    message: JsonModel,
    uri: Seq<char>,
    other: Seq<char>,
)
    requires
        at(message, "method"@) == JsonModel::Text("textDocument/publishDiagnostics"@),
        at(at(message, "params"@), "uri"@) == JsonModel::Text(uri),
    ensures
        ({
            let now = server_after(server, message);
            &&& now.diagnostics.contains_key(uri)
            &&& now.diagnostics[uri] == at(at(message, "params"@), "diagnostics"@)
            &&& other != uri ==> {
                &&& now.diagnostics.contains_key(other) == server.diagnostics.contains_key(other)
                &&& now.diagnostics[other] == server.diagnostics[other]
            }
            &&& now.active_progress == server.active_progress
            &&& now.opened == server.opened
        }),
{
    reveal_strlit("$/progress");
    reveal_strlit("textDocument/publishDiagnostics");
    assert("$/progress"@.len() == 10 && "textDocument/publishDiagnostics"@.len() == 31);
}

/// A message of any other kind tells nothing of the server.
pub proof fn law_other_messages_tell_nothing(server: ServerModel, message: JsonModel)
    requires
        at(message, "method"@) != JsonModel::Text("$/progress"@),
        at(message, "method"@) != JsonModel::Text("textDocument/publishDiagnostics"@),
    ensures
        server_after(server, message) == server,
{
}

/// Every request of the server is acknowledged, under its own id; a
/// notification and an answer want no reply.
pub proof fn law_requests_are_acknowledged(message: JsonModel)
    ensures
        get(message, "id"@) matches Some(id) ==> (get(message, "method"@) is Some ==> (
        wanted_reply(message) matches Some(reply) && {
            &&& at(reply, "id"@) == id
            &&& get(reply, "result"@) == Some(JsonModel::Null)
            &&& get(reply, "method"@) is None
        })),
        get(message, "id"@) is None || get(message, "method"@) is None ==> wanted_reply(
            message,
        ) is None,
{
    if let Some(id) = get(message, "id"@) {
        law_messages_carry_their_parts(0, Seq::empty(), JsonModel::Null, id, JsonModel::Null);
        reveal_strlit("jsonrpc");
        reveal_strlit("id");
        reveal_strlit("result");
        assert("jsonrpc"@.len() == 7 && "id"@.len() == 2 && "result"@.len() == 6);
        reveal_with_fuel(entry_of, 4);
    }
}

/// The notification that opens a document carries its uri, its language and its
/// whole text.
pub proof fn law_opening_carries_the_document(
    uri: Seq<char>,
    language: Seq<char>,
    text: Seq<char>,
)
    ensures
        ({
            let message = opening_model(uri, language, text);
            let document = at(at(message, "params"@), "textDocument"@);
            &&& at(message, "method"@) == JsonModel::Text("textDocument/didOpen"@)
            &&& get(message, "id"@) is None
            &&& at(document, "uri"@) == JsonModel::Text(uri)
            &&& at(document, "languageId"@) == JsonModel::Text(language)
            &&& at(document, "text"@) == JsonModel::Text(text)
            &&& as_count(at(document, "version"@)) == Some(1u64)
        }),
{
    law_messages_carry_their_parts(
        0,
        "textDocument/didOpen"@,
        did_open_model(uri, language, text),
        JsonModel::Null,
        JsonModel::Null,
    );
    reveal_strlit("uri");
    reveal_strlit("languageId");
    reveal_strlit("version");
    reveal_strlit("text");
    assert("uri"@.len() == 3 && "languageId"@.len() == 10);
    assert("version"@.len() == 7 && "text"@.len() == 4);
    reveal_with_fuel(entry_of, 5);
}

/// Locations are shown line by line, in order: each that names a file as that
/// file and its line, counted from one, and one that names none not at all.
pub proof fn law_locations_are_listed_in_order(
    first: Seq<JsonModel>,
    second: Seq<JsonModel>,
    location: JsonModel,
    path: Seq<char>,
)
    requires
        !begins_with(path, "file://"@),
    ensures
        location_lines(first + second) == location_lines(first) + location_lines(second),
        at(location, "uri"@) == JsonModel::Text("file://"@ + path) && at(
            location,
            "range"@,
        ) is Object ==> location_lines(seq![location]) == seq![
            path + ":"@ + decimal(
                (count_or(at(at(at(location, "range"@), "start"@), "line"@), 0) + 1) as nat,
            ),
        ],
        !(at(location, "uri"@) is Text) && at(location, "targetUri"@) == JsonModel::Text(
            "file://"@ + path,
        ) && !(at(location, "range"@) is Object) ==> location_lines(seq![location]) == seq![
            path + ":"@ + decimal(
                (count_or(at(at(at(location, "targetRange"@), "start"@), "line"@), 0) + 1) as nat,
            ),
        ],
        !(at(location, "uri"@) is Text) && !(at(location, "targetUri"@) is Text)
            ==> location_lines(seq![location]) == Seq::<Seq<char>>::empty(),
    decreases second.len(),
{
    if second.len() == 0 {
        assert(first + second == first);
        assert(location_lines(first) + location_lines(second) == location_lines(first));
    } else {
        law_locations_are_listed_in_order(first, second.drop_last(), location, path);
        assert((first + second).drop_last() == first + second.drop_last());
        if let Some(words) = location_words(second.last()) {
            assert(location_lines(first) + location_lines(second.drop_last()).push(words) == (
            location_lines(first) + location_lines(second.drop_last())).push(words));
        }
    }
    assert(seq![location].drop_last() == Seq::<JsonModel>::empty());
    assert(location_lines(Seq::<JsonModel>::empty()) == Seq::<Seq<char>>::empty());
    let scheme = "file://"@;
    reveal_strlit("file://");
    let uri = scheme + path;
    assert(uri.subrange(0, scheme.len() as int) == scheme);
    assert(uri.skip(scheme.len() as int) == path);
    assert(without_prefixes(path, scheme) == path);
    assert(without_prefixes(uri, scheme) == path);
    if let Some(words) = location_words(location) {
        assert(location_lines(seq![location]) == seq![words]);
    }
}

/// A result is shown whole, whether it is one location, several or none.
pub proof fn law_results_come_in_three_forms(items: Seq<JsonModel>, single: JsonModel)
    ensures
        items.len() > 0 ==> shown_locations(JsonModel::Array(items)) == joined(
            location_lines(items),
            "\n"@,
        ),
        !(single is Array) && !(single is Null) ==> shown_locations(single) == joined(
            location_lines(seq![single]),
            "\n"@,
        ),
        shown_locations(JsonModel::Null) == "no results"@,
        shown_locations(JsonModel::Array(Seq::empty())) == "no results"@,
{
}

/// A command line is taken apart into the words between its white space, the
/// first as the program and all others, in order, as its arguments; one without
/// words is none.
pub proof fn law_command_lines_keep_their_words(command: &str, res: Result<CommandLine, String>)
    requires
        call_ensures(split_command, (command,), res),
    ensures
        res is Err <==> words_of(command@).len() == 0,
        res matches Ok(line) ==> {
            &&& words_of(command@).len() == line.arguments@.len() + 1
            &&& words_of(command@)[0] == line.program@
            &&& forall|i: int|
                0 <= i < line.arguments@.len() ==> words_of(command@)[i + 1] == (
                #[trigger] line.arguments@[i])@
        },
{
    if let Ok(line) = res {
        let all = seq![line.program@] + texts(line.arguments@);
        assert(all.len() == 1 + line.arguments@.len());
        assert(all[0] == line.program@);
        assert forall|i: int| 0 <= i < line.arguments@.len() implies words_of(command@)[i + 1] == (
        #[trigger] line.arguments@[i])@ by {
            assert(all[i + 1] == texts(line.arguments@)[i]);
        }
    }
}

/// Two languages have a name of their own in the protocol; a file of any other
/// goes by its extension, and one without an extension is plain text.
pub proof fn law_languages_go_by_extension(extension: Seq<char>)
    ensures
        language_of(Some("rs"@)) == "rust"@,
        language_of(Some("py"@)) == "python"@,
        extension != "rs"@ && extension != "py"@ ==> language_of(Some(extension)) == extension,
        language_of(None) == "plaintext"@,
{
    reveal_strlit("rs");
    reveal_strlit("py");
    assert("rs"@[0] == 'r' && "py"@[0] == 'p');
}

/// The first request tells who asks, where the project is, and that progress is
/// wanted.
pub proof fn law_first_request_names_the_project(process_id: u32, root_uri: Seq<char>)
    ensures
        ({
            let params = initialize_model(process_id, root_uri);
            let window = at(at(params, "capabilities"@), "window"@);
            &&& as_count(at(params, "processId"@)) == Some(process_id as u64)
            &&& at(params, "rootUri"@) == JsonModel::Text(root_uri)
            &&& at(window, "workDoneProgress"@) == JsonModel::Bool(true)
            &&& at(params, "workspaceFolders"@) matches JsonModel::Array(folders) && folders.len()
                == 1 && at(folders[0], "uri"@) == JsonModel::Text(root_uri)
        }),
{
    reveal_strlit("processId");
    reveal_strlit("rootUri");
    reveal_strlit("workspaceFolders");
    reveal_strlit("capabilities");
    assert("processId"@.len() == 9 && "rootUri"@.len() == 7);
    assert("workspaceFolders"@.len() == 16 && "capabilities"@.len() == 12);
    reveal_with_fuel(entry_of, 5);
}

/// Whether a server is ready after several checks.
pub open spec fn ready_after(checks: Seq<(bool, bool)>) -> bool {
    checks.len() > 0 && found_ready(
        quiet_run(checks),
        checks.last().0,
        checks.last().1,
    )
}

/// A server is ready just if the last check found it settled and quiet, and at
/// least three settled checks were made since it was last found busy.
pub proof fn law_ready_after_three_quiet_checks(checks: Seq<(bool, bool)>, from: int)
    requires
        0 <= from <= checks.len(),
        forall|i: int| from <= i < checks.len() ==> !(#[trigger] checks[i]).0,
        from > 0 ==> checks[from - 1].0,
    ensures
        ready_after(checks) <==> from < checks.len() && checks.last().1 && settled_checks(
            checks.skip(from),
        ) >= 3,
{
    let found = law_readiness_takes_sustained_quiet(checks);
    if found < from {
        assert(!checks[from - 1].0);
    }
    if from < found {
        assert(!checks[found - 1].0);
    }
    assert(found == from);
    if checks.len() > 0 {
        assert(checks[checks.len() - 1] == checks.last());
        if from == checks.len() {
            assert(checks.last().0);
        }
    }
}

} // verus!
