//! Rebuilds a reply from the events of its stream:
//! `message_start` → (`content_block_start` → `content_block_delta`* →
//! `content_block_stop`)* → `message_delta` → `message_stop`.

use vstd::prelude::*;
use vstd::string::*;

use crate::api::types::{
    block_models, optional_text, zero_usage, ApiResponse, BlockModel, ContentBlock, Usage,
};
use crate::json::{
    as_count, as_text, at, count_at, count_or, count_or_at, document_of_text, field, text_at,
    text_or_empty, text_or_empty_at, Json, JsonModel, NumberModel,
};
use crate::text::layout::{trim, trimmed};
use crate::text::same_text;

verus! {

broadcast use {
    vstd::string::group_string_axioms,
    vstd::seq_lib::group_seq_properties,
};

// ---------------------------------------------------------------------------
// Errors
// ---------------------------------------------------------------------------

/// Why a stream does not make a reply.
#[derive(Debug)]
pub enum StreamError {
    /// An event whose data is no JSON.
    InvalidPayload { data: String },
    /// An event that reports an error.
    Reported { kind: String, message: String },
    /// A block of a type that is not known.
    UnknownBlock { kind: String },
    /// The input of a tool call is no JSON.
    InvalidToolInput { buffer: String },
    /// The stream ended before a stop reason came.
    NoStopReason,
}

/// What a [`StreamError`] stands for.
pub ghost enum Fault {
    InvalidPayload { data: Seq<char> },
    Reported { kind: Seq<char>, message: Seq<char> },
    UnknownBlock { kind: Seq<char> },
    InvalidToolInput { buffer: Seq<char> },
    NoStopReason,
}

impl View for StreamError {
    type V = Fault;

    open spec fn view(&self) -> Fault {
        match *self {
            StreamError::InvalidPayload { data } => Fault::InvalidPayload { data: data@ },
            StreamError::Reported { kind, message } => Fault::Reported {
                kind: kind@,
                message: message@,
            },
            StreamError::UnknownBlock { kind } => Fault::UnknownBlock { kind: kind@ },
            StreamError::InvalidToolInput { buffer } => Fault::InvalidToolInput { buffer: buffer@ },
            StreamError::NoStopReason => Fault::NoStopReason,
        }
    }
}

/// The words in which a fault is reported.
pub open spec fn fault_words(fault: Fault) -> Seq<char> {
    match fault {
        Fault::InvalidPayload { data } => "invalid SSE payload: "@ + data,
        Fault::Reported { kind, message } => "API stream error "@ + kind + ": "@ + message,
        Fault::UnknownBlock { kind } => "unknown content block type in stream: "@ + kind,
        Fault::InvalidToolInput { buffer } => "invalid tool input JSON: "@ + buffer,
        Fault::NoStopReason => "stream ended without a stop_reason"@,
    }
}

impl StreamError {
    /// The error in words.
    pub fn message(&self) -> (words: String)
        ensures
            words@ == fault_words(self@),
    {
        match self {
            StreamError::InvalidPayload { data } => {
                "invalid SSE payload: ".to_owned().concat(data.as_str())
            },
            StreamError::Reported { kind, message } => {
                "API stream error ".to_owned().concat(kind.as_str()).concat(": ").concat(
                    message.as_str(),
                )
            },
            StreamError::UnknownBlock { kind } => {
                "unknown content block type in stream: ".to_owned().concat(kind.as_str())
            },
            StreamError::InvalidToolInput { buffer } => {
                "invalid tool input JSON: ".to_owned().concat(buffer.as_str())
            },
            StreamError::NoStopReason => "stream ended without a stop_reason".to_owned(),
        }
    }
}

// ---------------------------------------------------------------------------
// What an event means
// ---------------------------------------------------------------------------

/// A reply in the making.
pub ghost struct Assembly {
    pub blocks: Seq<BlockModel>,
    /// The JSON fragments of each open tool call, by block index.
    pub buffers: Seq<(usize, Seq<char>)>,
    pub stop_reason: Option<Seq<char>>,
    pub usage: Usage,
}

/// A reply of which nothing has come.
pub open spec fn empty_assembly() -> Assembly {
    Assembly {
        blocks: Seq::empty(),
        buffers: Seq::empty(),
        stop_reason: None,
        usage: zero_usage(),
    }
}

/// What an event does: the reply after it, and the text fragment that it
/// brings or the fault that it shows.
pub ghost struct Effect {
    pub next: Assembly,
    pub outcome: Result<Option<Seq<char>>, Fault>,
}

/// An effect that shows no fault and brings no text.
pub open spec fn quiet(next: Assembly) -> Effect {
    Effect { next, outcome: Ok(None) }
}

/// The block that an event speaks of.
pub open spec fn event_index(event: JsonModel) -> usize {
    count_or(at(event, "index"@), 0) as usize
}

/// The block that an event of type `content_block_start` opens.
pub open spec fn started_block(block: JsonModel) -> Option<BlockModel> {
    let kind = text_or_empty(at(block, "type"@));
    if kind == "text"@ {
        Some(BlockModel::Text { text: text_or_empty(at(block, "text"@)) })
    } else if kind == "thinking"@ {
        Some(
            BlockModel::Thinking {
                thinking: text_or_empty(at(block, "thinking"@)),
                signature: None,
            },
        )
    } else if kind == "redacted_thinking"@ {
        Some(BlockModel::RedactedThinking { data: text_or_empty(at(block, "data"@)) })
    } else if kind == "tool_use"@ {
        Some(
            BlockModel::ToolUse {
                id: text_or_empty(at(block, "id"@)),
                name: text_or_empty(at(block, "name"@)),
                input: JsonModel::Null,
            },
        )
    } else {
        None
    }
}

/// The effect of an event of type `content_block_start`: a block at the end,
/// and for a tool call an empty buffer under the event's index.
pub open spec fn start_effect(a: Assembly, event: JsonModel) -> Effect {
    let block = at(event, "content_block"@);
    match started_block(block) {
        Some(started) => quiet(
            Assembly {
                blocks: a.blocks.push(started),
                buffers: if started is ToolUse {
                    a.buffers.push((event_index(event), Seq::empty()))
                } else {
                    a.buffers
                },
                ..a
            },
        ),
        None => Effect {
            next: a,
            outcome: Err(Fault::UnknownBlock { kind: text_or_empty(at(block, "type"@)) }),
        },
    }
}

/// A block after a text fragment.
pub open spec fn with_text(block: BlockModel, fragment: Seq<char>) -> BlockModel {
    match block {
        BlockModel::Text { text } => BlockModel::Text { text: text + fragment },
        other => other,
    }
}

/// A block after a fragment of thinking.
pub open spec fn with_thinking(block: BlockModel, fragment: Seq<char>) -> BlockModel {
    match block {
        BlockModel::Thinking { thinking, signature } => BlockModel::Thinking {
            thinking: thinking + fragment,
            signature,
        },
        other => other,
    }
}

/// A block after a fragment of its signature.
pub open spec fn with_signature(block: BlockModel, fragment: Seq<char>) -> BlockModel {
    match block {
        BlockModel::Thinking { thinking, signature } => BlockModel::Thinking {
            thinking,
            signature: match signature {
                Some(existing) => Some(existing + fragment),
                None => Some(fragment),
            },
        },
        other => other,
    }
}

/// A tool call after its input is known.
pub open spec fn with_input(block: BlockModel, document: JsonModel) -> BlockModel {
    match block {
        BlockModel::ToolUse { id, name, input } => BlockModel::ToolUse {
            id,
            name,
            input: document,
        },
        other => other,
    }
}

/// The blocks with one of them changed, if there is such a block.
pub open spec fn changed_at(
    blocks: Seq<BlockModel>,
    index: usize,
    change: spec_fn(BlockModel) -> BlockModel,
) -> Seq<BlockModel> {
    if index < blocks.len() {
        blocks.update(index as int, change(blocks[index as int]))
    } else {
        blocks
    }
}

/// The place of the first buffer under an index.
pub open spec fn buffer_place(buffers: Seq<(usize, Seq<char>)>, index: usize) -> Option<int>
    decreases buffers.len(),
{
    if buffers.len() == 0 {
        None
    } else {
        match buffer_place(buffers.drop_last(), index) {
            Some(i) => Some(i),
            None => if buffers.last().0 == index {
                Some(buffers.len() - 1)
            } else {
                None
            },
        }
    }
}

/// The effect of an event of type `content_block_delta`.
pub open spec fn delta_effect(a: Assembly, event: JsonModel) -> Effect {
    let index = event_index(event);
    let delta = at(event, "delta"@);
    let kind = text_or_empty(at(delta, "type"@));
    if kind == "text_delta"@ {
        let fragment = text_or_empty(at(delta, "text"@));
        Effect {
            next: Assembly {
                blocks: changed_at(a.blocks, index, |b: BlockModel| with_text(b, fragment)),
                ..a
            },
            outcome: Ok(Some(fragment)),
        }
    } else if kind == "thinking_delta"@ {
        let fragment = text_or_empty(at(delta, "thinking"@));
        quiet(
            Assembly {
                blocks: changed_at(a.blocks, index, |b: BlockModel| with_thinking(b, fragment)),
                ..a
            },
        )
    } else if kind == "signature_delta"@ {
        let fragment = text_or_empty(at(delta, "signature"@));
        quiet(
            Assembly {
                blocks: changed_at(a.blocks, index, |b: BlockModel| with_signature(b, fragment)),
                ..a
            },
        )
    } else if kind == "input_json_delta"@ {
        let fragment = text_or_empty(at(delta, "partial_json"@));
        match buffer_place(a.buffers, index) {
            Some(i) => quiet(
                Assembly {
                    buffers: a.buffers.update(i, (index, a.buffers[i].1 + fragment)),
                    ..a
                },
            ),
            None => quiet(a),
        }
    } else {
        quiet(a)
    }
}

/// The input of a tool call from its collected JSON: an empty object where
/// nothing but white space came, else the document `parsed`, which must be
/// there.
pub open spec fn tool_input_of(buffer: Seq<char>, parsed: Option<JsonModel>) -> Result<
    JsonModel,
    Fault,
> {
    if trimmed(buffer).len() == 0 {
        Ok(JsonModel::Object(Seq::empty()))
    } else {
        match parsed {
            Some(document) => Ok(document),
            None => Err(Fault::InvalidToolInput { buffer }),
        }
    }
}

/// The effect of an event of type `content_block_stop`: the buffer under its
/// index is used up, and the tool call there gets its input from it.
pub open spec fn stop_effect(a: Assembly, event: JsonModel) -> Effect {
    let index = event_index(event);
    match buffer_place(a.buffers, index) {
        Some(i) => {
            let buffer = a.buffers[i].1;
            let rest = Assembly {
                buffers: a.buffers.update(i, a.buffers.last()).drop_last(),
                ..a
            };
            if index < a.blocks.len() && a.blocks[index as int] is ToolUse {
                match tool_input_of(buffer, document_of_text(buffer)) {
                    Ok(document) => quiet(
                        Assembly {
                            blocks: changed_at(
                                a.blocks,
                                index,
                                |b: BlockModel| with_input(b, document),
                            ),
                            ..rest
                        },
                    ),
                    Err(fault) => Effect { next: rest, outcome: Err(fault) },
                }
            } else {
                quiet(rest)
            }
        },
        None => quiet(a),
    }
}

/// The usage after an event of type `message_start`.
pub open spec fn started_usage(usage: Usage, event: JsonModel) -> Usage {
    let counts = at(at(event, "message"@), "usage"@);
    Usage {
        input_tokens: count_or(at(counts, "input_tokens"@), 0) as u32,
        output_tokens: usage.output_tokens,
        cache_creation_input_tokens: count_or(at(counts, "cache_creation_input_tokens"@), 0) as u32,
        cache_read_input_tokens: count_or(at(counts, "cache_read_input_tokens"@), 0) as u32,
    }
}

/// The effect of an event of type `message_delta`.
pub open spec fn message_effect(a: Assembly, event: JsonModel) -> Effect {
    quiet(
        Assembly {
            stop_reason: match as_text(at(at(event, "delta"@), "stop_reason"@)) {
                Some(reason) => Some(reason),
                None => a.stop_reason,
            },
            usage: match as_count(at(at(event, "usage"@), "output_tokens"@)) {
                Some(tokens) => Usage { output_tokens: tokens as u32, ..a.usage },
                None => a.usage,
            },
            ..a
        },
    )
}

/// The fault that an event of type `error` reports.
pub open spec fn reported_fault(event: JsonModel) -> Fault {
    Fault::Reported {
        kind: match as_text(at(at(event, "error"@), "type"@)) {
            Some(kind) => kind,
            None => "unknown"@,
        },
        message: text_or_empty(at(at(event, "error"@), "message"@)),
    }
}

/// The effect of an event. Types that are not named here need no action.
pub open spec fn effect(a: Assembly, event: JsonModel) -> Effect {
    let kind = text_or_empty(at(event, "type"@));
    if kind == "message_start"@ {
        quiet(Assembly { usage: started_usage(a.usage, event), ..a })
    } else if kind == "content_block_start"@ {
        start_effect(a, event)
    } else if kind == "content_block_delta"@ {
        delta_effect(a, event)
    } else if kind == "content_block_stop"@ {
        stop_effect(a, event)
    } else if kind == "message_delta"@ {
        message_effect(a, event)
    } else if kind == "error"@ {
        Effect { next: a, outcome: Err(reported_fault(event)) }
    } else {
        quiet(a)
    }
}

// ---------------------------------------------------------------------------
// The assembler
// ---------------------------------------------------------------------------

/// Rebuilds the response message from the event sequence.
pub struct MessageAssembler {
    pub blocks: Vec<ContentBlock>,
    /// Accumulates the JSON fragments of each open tool call, by block index.
    pub json_buffers: Vec<(usize, String)>,
    pub stop_reason: Option<String>,
    pub usage: Usage,
}

/// What a list of buffers stands for.
pub open spec fn buffer_models(buffers: Seq<(usize, String)>) -> Seq<(usize, Seq<char>)> {
    buffers.map_values(|b: (usize, String)| (b.0, b.1@))
}

impl View for MessageAssembler {
    type V = Assembly;

    open spec fn view(&self) -> Assembly {
        Assembly {
            blocks: block_models(self.blocks@),
            buffers: buffer_models(self.json_buffers@),
            stop_reason: optional_text(self.stop_reason),
            usage: self.usage,
        }
    }
}

/// Whether a result is the one that an outcome describes.
pub open spec fn shows(
    res: Result<Option<String>, StreamError>,
    outcome: Result<Option<Seq<char>>, Fault>,
) -> bool {
    match res {
        Ok(fragment) => outcome == Ok::<Option<Seq<char>>, Fault>(optional_text(fragment)),
        Err(error) => outcome == Err::<Option<Seq<char>>, Fault>(error@),
    }
}

/// The input of a tool call, given what its collected JSON reads as.
pub fn tool_input_from(buffer: &str, parsed: Option<Json>) -> (res: Result<Json, StreamError>)
    ensures
        match res {
            Ok(input) => tool_input_of(
                buffer@,
                match parsed {
                    Some(document) => Some(document@),
                    None => None,
                },
            ) == Ok::<JsonModel, Fault>(input@),
            Err(error) => tool_input_of(
                buffer@,
                match parsed {
                    Some(document) => Some(document@),
                    None => None,
                },
            ) == Err::<JsonModel, Fault>(error@),
        },
{
    let content: String = trim(buffer);
    if content.as_str().is_empty() {
        Ok(Json::object())
    } else {
        match parsed {
            Some(document) => Ok(document),
            None => Err(StreamError::InvalidToolInput { buffer: buffer.to_owned() }),
        }
    }
}

impl Default for MessageAssembler {
    fn default() -> (assembler: MessageAssembler)
        ensures
            assembler@ == empty_assembly(),
    {
        MessageAssembler::new()
    }
}

impl MessageAssembler {
    /// An assembler that has seen no event.
    pub fn new() -> (assembler: MessageAssembler)
        ensures
            assembler@ == empty_assembly(),
    {
        let assembler: MessageAssembler = MessageAssembler {
            blocks: Vec::new(),
            json_buffers: Vec::new(),
            stop_reason: None,
            usage: Usage::default(),
        };
        assert(assembler@.blocks == Seq::<BlockModel>::empty());
        assert(assembler@.buffers == Seq::<(usize, Seq<char>)>::empty());
        assembler
    }

    /// Takes in the data of one event. The text fragment that it brings, if
    /// any, is returned, to be forwarded at once.
    pub fn handle(&mut self, data: &str) -> (res: Result<Option<String>, StreamError>)
        ensures
            match document_of_text(data@) {
                Some(event) => {
                    &&& final(self)@ == effect(old(self)@, event).next
                    &&& shows(res, effect(old(self)@, event).outcome)
                },
                None => {
                    &&& final(self)@ == old(self)@
                    &&& shows(res, Err(Fault::InvalidPayload { data: data@ }))
                },
            },
    {
        match Json::parse(data) {
            Some(event) => self.handle_event(&event),
            None => Err(StreamError::InvalidPayload { data: data.to_owned() }),
        }
    }

    /// Takes in one event.
    pub fn handle_event(&mut self, event: &Json) -> (res: Result<Option<String>, StreamError>)
        ensures
            final(self)@ == effect(old(self)@, event@).next,
            shows(res, effect(old(self)@, event@).outcome),
    {
        let kind: String = text_or_empty_at(event.get("type"));
        if same_text(kind.as_str(), "message_start") {
            let counts: Option<&Json> = field(event.get("message"), "usage");
            self.usage.input_tokens = count_or_at(field(counts, "input_tokens"), 0) as u32;
            self.usage.cache_creation_input_tokens = count_or_at(
                field(counts, "cache_creation_input_tokens"),
                0,
            ) as u32;
            self.usage.cache_read_input_tokens = count_or_at(
                field(counts, "cache_read_input_tokens"),
                0,
            ) as u32;
            Ok(None)
        } else if same_text(kind.as_str(), "content_block_start") {
            self.start_block(event)
        } else if same_text(kind.as_str(), "content_block_delta") {
            Ok(self.apply_delta(event))
        } else if same_text(kind.as_str(), "content_block_stop") {
            self.stop_block(event)
        } else if same_text(kind.as_str(), "message_delta") {
            if let Some(reason) = text_at(field(event.get("delta"), "stop_reason")) {
                self.stop_reason = Some(reason.to_owned());
            }
            if let Some(tokens) = count_at(field(event.get("usage"), "output_tokens")) {
                self.usage.output_tokens = tokens as u32;
            }
            Ok(None)
        } else if same_text(kind.as_str(), "error") {
            let detail: Option<&Json> = event.get("error");
            let kind: String = match text_at(field(detail, "type")) {
                Some(kind) => kind.to_owned(),
                None => "unknown".to_owned(),
            };
            Err(
                StreamError::Reported { kind, message: text_or_empty_at(field(detail, "message")) },
            )
        } else {
            Ok(None)
        }
    }

    fn start_block(&mut self, event: &Json) -> (res: Result<Option<String>, StreamError>)
        ensures
            final(self)@ == start_effect(old(self)@, event@).next,
            shows(res, start_effect(old(self)@, event@).outcome),
    {
        let index: usize = count_or_at(event.get("index"), 0) as usize;
        let block: Option<&Json> = event.get("content_block");
        let kind: String = text_or_empty_at(field(block, "type"));
        let ghost before = *self;
        let mut tool_call: bool = false;
        let started: ContentBlock = if same_text(kind.as_str(), "text") {
            ContentBlock::Text { text: text_or_empty_at(field(block, "text")) }
        } else if same_text(kind.as_str(), "thinking") {
            ContentBlock::Thinking {
                thinking: text_or_empty_at(field(block, "thinking")),
                signature: None,
            }
        } else if same_text(kind.as_str(), "redacted_thinking") {
            ContentBlock::RedactedThinking { data: text_or_empty_at(field(block, "data")) }
        } else if same_text(kind.as_str(), "tool_use") {
            tool_call = true;
            ContentBlock::ToolUse {
                id: text_or_empty_at(field(block, "id")),
                name: text_or_empty_at(field(block, "name")),
                input: Json::Null,
            }
        } else {
            return Err(StreamError::UnknownBlock { kind });
        };
        if tool_call {
            self.json_buffers.push((index, String::new()));
            assert(buffer_models(self.json_buffers@) == buffer_models(before.json_buffers@).push(
                (index, Seq::empty()),
            ));
        }
        self.blocks.push(started);
        assert(block_models(self.blocks@) == block_models(before.blocks@).push(started@));
        Ok(None)
    }

    fn apply_delta(&mut self, event: &Json) -> (fragment: Option<String>)
        ensures
            final(self)@ == delta_effect(old(self)@, event@).next,
            shows(Ok(fragment), delta_effect(old(self)@, event@).outcome),
    {
        let index: usize = count_or_at(event.get("index"), 0) as usize;
        let delta: Option<&Json> = event.get("delta");
        let kind: String = text_or_empty_at(field(delta, "type"));
        let ghost before = *self;
        if same_text(kind.as_str(), "text_delta") {
            let fragment: String = text_or_empty_at(field(delta, "text"));
            if index < self.blocks.len() {
                match &mut self.blocks[index] {
                    ContentBlock::Text { text } => {
                        text.append(fragment.as_str());
                    },
                    _ => {},
                }
            }
            assert(block_models(self.blocks@) == changed_at(
                block_models(before.blocks@),
                index,
                |b: BlockModel| with_text(b, fragment@),
            ));
            Some(fragment)
        } else if same_text(kind.as_str(), "thinking_delta") {
            let fragment: String = text_or_empty_at(field(delta, "thinking"));
            if index < self.blocks.len() {
                match &mut self.blocks[index] {
                    ContentBlock::Thinking { thinking, .. } => {
                        thinking.append(fragment.as_str());
                    },
                    _ => {},
                }
            }
            assert(block_models(self.blocks@) == changed_at(
                block_models(before.blocks@),
                index,
                |b: BlockModel| with_thinking(b, fragment@),
            ));
            None
        } else if same_text(kind.as_str(), "signature_delta") {
            let fragment: String = text_or_empty_at(field(delta, "signature"));
            let ghost piece = fragment@;
            if index < self.blocks.len() {
                match &mut self.blocks[index] {
                    ContentBlock::Thinking { signature, .. } => {
                        match signature {
                            Some(existing) => {
                                existing.append(fragment.as_str());
                            },
                            None => {
                                *signature = Some(fragment);
                            },
                        }
                    },
                    _ => {},
                }
            }
            assert(block_models(self.blocks@) == changed_at(
                block_models(before.blocks@),
                index,
                |b: BlockModel| with_signature(b, piece),
            ));
            None
        } else if same_text(kind.as_str(), "input_json_delta") {
            let fragment: String = text_or_empty_at(field(delta, "partial_json"));
            match self.find_buffer(index) {
                Some(i) => {
                    self.json_buffers[i].1.append(fragment.as_str());
                    assert(buffer_models(self.json_buffers@) == buffer_models(
                        before.json_buffers@,
                    ).update(
                        i as int,
                        (index, buffer_models(before.json_buffers@)[i as int].1 + fragment@),
                    ));
                },
                None => {},
            }
            None
        } else {
            None
        }
    }

    fn find_buffer(&self, index: usize) -> (place: Option<usize>)
        ensures
            match place {
                Some(i) => {
                    &&& i < self.json_buffers@.len()
                    &&& self.json_buffers@[i as int].0 == index
                    &&& buffer_place(self@.buffers, index) == Some(i as int)
                },
                None => buffer_place(self@.buffers, index) is None,
            },
    {
        let ghost all = buffer_models(self.json_buffers@);
        let mut i: usize = 0;
        assert(all.take(0) == Seq::<(usize, Seq<char>)>::empty());
        while i < self.json_buffers.len()
            invariant
                i <= self.json_buffers@.len(),
                all == buffer_models(self.json_buffers@),
                buffer_place(all.take(i as int), index) is None,
            decreases self.json_buffers@.len() - i,
        {
            assert(all.take(i + 1).drop_last() == all.take(i as int));
            if self.json_buffers[i].0 == index {
                proof {
                    lemma_buffer_place_stays(all, index, i + 1);
                }
                return Some(i);
            }
            i += 1;
        }
        assert(all.take(i as int) == all);
        None
    }

    fn stop_block(&mut self, event: &Json) -> (res: Result<Option<String>, StreamError>)
        ensures
            final(self)@ == stop_effect(old(self)@, event@).next,
            shows(res, stop_effect(old(self)@, event@).outcome),
    {
        let index: usize = count_or_at(event.get("index"), 0) as usize;
        let ghost before = *self;
        match self.find_buffer(index) {
            Some(i) => {
                let taken: (usize, String) = self.json_buffers.swap_remove(i);
                let buffer: String = taken.1;
                let ghost all = buffer_models(before.json_buffers@);
                assert(buffer_models(self.json_buffers@) == all.update(
                    i as int,
                    all.last(),
                ).drop_last());
                if index < self.blocks.len() {
                    let is_call: bool = match &self.blocks[index] {
                        ContentBlock::ToolUse { .. } => true,
                        _ => false,
                    };
                    if is_call {
                        let parsed: Option<Json> = Json::parse(buffer.as_str());
                        let document: Json = match tool_input_from(buffer.as_str(), parsed) {
                            Ok(document) => document,
                            Err(error) => {
                                return Err(error);
                            },
                        };
                        let ghost model = document@;
                        match &mut self.blocks[index] {
                            ContentBlock::ToolUse { input, .. } => {
                                *input = document;
                            },
                            _ => {},
                        }
                        assert(block_models(self.blocks@) == changed_at(
                            block_models(before.blocks@),
                            index,
                            |b: BlockModel| with_input(b, model),
                        ));
                    }
                }
                Ok(None)
            },
            None => Ok(None),
        }
    }

    /// The reply, once the stream has ended.
    pub fn finish(self) -> (res: Result<ApiResponse, StreamError>)
        ensures
            match res {
                Ok(response) => {
                    &&& self@.stop_reason == Some(response.stop_reason@)
                    &&& block_models(response.content@) == self@.blocks
                    &&& response.usage == self@.usage
                },
                Err(error) => self@.stop_reason is None && error@ == Fault::NoStopReason,
            },
    {
        match self.stop_reason {
            Some(stop_reason) => Ok(
                ApiResponse { content: self.blocks, stop_reason, usage: self.usage },
            ),
            None => Err(StreamError::NoStopReason),
        }
    }
}

proof fn lemma_buffer_place_stays(buffers: Seq<(usize, Seq<char>)>, index: usize, n: int)
    requires
        0 <= n <= buffers.len(),
        buffer_place(buffers.take(n), index) is Some,
    ensures
        buffer_place(buffers, index) == buffer_place(buffers.take(n), index),
    decreases buffers.len() - n,
{
    if n == buffers.len() {
        assert(buffers.take(n) == buffers);
    } else {
        assert(buffers.take(n + 1).drop_last() == buffers.take(n));
        lemma_buffer_place_stays(buffers, index, n + 1);
    }
}

// ---------------------------------------------------------------------------
// What a whole stream makes
// ---------------------------------------------------------------------------

/// The reply after several events.
pub open spec fn after(a: Assembly, events: Seq<JsonModel>) -> Assembly
    decreases events.len(),
{
    if events.len() == 0 {
        a
    } else {
        effect(after(a, events.drop_last()), events.last()).next
    }
}

/// Whether an event is of a type.
pub open spec fn is_event(event: JsonModel, kind: Seq<char>) -> bool {
    text_or_empty(at(event, "type"@)) == kind
}

/// Whether an event is a delta of a kind for a block.
pub open spec fn is_delta(event: JsonModel, kind: Seq<char>, index: usize) -> bool {
    &&& is_event(event, "content_block_delta"@)
    &&& text_or_empty(at(at(event, "delta"@), "type"@)) == kind
    &&& event_index(event) == index
}

/// The fragment that a delta carries under a key.
pub open spec fn carried(event: JsonModel, key: Seq<char>) -> Seq<char> {
    text_or_empty(at(at(event, "delta"@), key))
}

/// The fragments that several deltas carry under a key, one after the other.
pub open spec fn carried_together(events: Seq<JsonModel>, key: Seq<char>) -> Seq<char>
    decreases events.len(),
{
    if events.len() == 0 {
        Seq::empty()
    } else {
        carried_together(events.drop_last(), key) + carried(events.last(), key)
    }
}

proof fn lemma_event_types_differ()
    ensures
        "content_block_delta"@ != "message_start"@,
        "content_block_delta"@ != "content_block_start"@,
        "content_block_stop"@ != "message_start"@,
        "content_block_stop"@ != "content_block_start"@,
        "content_block_stop"@ != "content_block_delta"@,
        "content_block_start"@ != "message_start"@,
        "input_json_delta"@ != "text_delta"@,
        "input_json_delta"@ != "thinking_delta"@,
        "input_json_delta"@ != "signature_delta"@,
{
    reveal_strlit("message_start");
    reveal_strlit("content_block_start");
    reveal_strlit("content_block_delta");
    reveal_strlit("content_block_stop");
    reveal_strlit("text_delta");
    reveal_strlit("thinking_delta");
    reveal_strlit("signature_delta");
    reveal_strlit("input_json_delta");
    assert("content_block_delta"@[14] != "content_block_start"@[14]);
    assert("content_block_delta"@.len() != "message_start"@.len());
    assert("content_block_stop"@.len() != "content_block_start"@.len());
    assert("input_json_delta"@.len() != "text_delta"@.len());
    assert("input_json_delta"@.len() != "thinking_delta"@.len());
    assert("input_json_delta"@.len() != "signature_delta"@.len());
}

/// A text block at an index that holds a text.
spec fn text_block_at(a: Assembly, index: usize, text: Seq<char>) -> Assembly {
    Assembly { blocks: a.blocks.update(index as int, BlockModel::Text { text }), ..a }
}

proof fn lemma_text_delta(a: Assembly, event: JsonModel, index: usize, text: Seq<char>)
    requires
        index < a.blocks.len(),
        is_delta(event, "text_delta"@, index),
    ensures
        effect(text_block_at(a, index, text), event) == (Effect {
            next: text_block_at(a, index, text + carried(event, "text"@)),
            outcome: Ok(Some(carried(event, "text"@))),
        }),
{
    lemma_event_types_differ();
    let before = text_block_at(a, index, text);
    let fragment = carried(event, "text"@);
    assert(effect(before, event) == delta_effect(before, event));
    assert(changed_at(before.blocks, index, |b: BlockModel| with_text(b, fragment))
        == text_block_at(a, index, text + fragment).blocks);
}

proof fn lemma_after_text_deltas(
    a: Assembly,
    events: Seq<JsonModel>,
    index: usize,
    text: Seq<char>,
)
    requires
        index < a.blocks.len(),
        a.blocks[index as int] == (BlockModel::Text { text }),
        forall|i: int|
            0 <= i < events.len() ==> is_delta(#[trigger] events[i], "text_delta"@, index),
    ensures
        after(a, events) == text_block_at(a, index, text + carried_together(events, "text"@)),
    decreases events.len(),
{
    if events.len() == 0 {
        assert(text + carried_together(events, "text"@) == text);
        assert(a.blocks.update(index as int, a.blocks[index as int]) == a.blocks);
    } else {
        let front = events.drop_last();
        let last = events.last();
        let so_far = text + carried_together(front, "text"@);
        assert forall|i: int| 0 <= i < front.len() implies is_delta(
            #[trigger] front[i],
            "text_delta"@,
            index,
        ) by {
            assert(front[i] == events[i]);
        }
        lemma_after_text_deltas(a, front, index, text);
        assert(events[events.len() - 1] == last);
        lemma_text_delta(a, last, index, so_far);
        assert(so_far + carried(last, "text"@) == text + carried_together(events, "text"@));
    }
}

/// Text deltas for a text block are joined to it in the order of their
/// arrival, touch nothing else, and each is handed out once, as it came.
pub proof fn law_text_deltas_accumulate(
    a: Assembly,
    events: Seq<JsonModel>,
    index: usize,
    text: Seq<char>,
)
    requires
        index < a.blocks.len(),
        a.blocks[index as int] == (BlockModel::Text { text }),
        forall|i: int|
            0 <= i < events.len() ==> is_delta(#[trigger] events[i], "text_delta"@, index),
    ensures
        after(a, events) == (Assembly {
            blocks: a.blocks.update(
                index as int,
                BlockModel::Text { text: text + carried_together(events, "text"@) },
            ),
            ..a
        }),
        forall|i: int|
            0 <= i < events.len() ==> effect(
                after(a, events.take(i)),
                #[trigger] events[i],
            ).outcome == Ok::<Option<Seq<char>>, Fault>(Some(carried(events[i], "text"@))),
{
    lemma_after_text_deltas(a, events, index, text);
    assert forall|i: int| 0 <= i < events.len() implies effect(
        after(a, events.take(i)),
        #[trigger] events[i],
    ).outcome == Ok::<Option<Seq<char>>, Fault>(Some(carried(events[i], "text"@))) by {
        let front = events.take(i);
        assert forall|k: int| 0 <= k < front.len() implies is_delta(
            #[trigger] front[k],
            "text_delta"@,
            index,
        ) by {
            assert(front[k] == events[k]);
        }
        lemma_after_text_deltas(a, front, index, text);
        lemma_text_delta(a, events[i], index, text + carried_together(front, "text"@));
    }
}

proof fn lemma_json_deltas_accumulate(
    a: Assembly,
    events: Seq<JsonModel>,
    index: usize,
    place: int,
    buffer: Seq<char>,
)
    requires
        buffer_place(a.buffers, index) == Some(place),
        0 <= place < a.buffers.len(),
        a.buffers[place] == (index, buffer),
        forall|i: int|
            0 <= i < events.len() ==> is_delta(#[trigger] events[i], "input_json_delta"@, index),
    ensures
        after(a, events) == (Assembly {
            buffers: a.buffers.update(
                place,
                (index, buffer + carried_together(events, "partial_json"@)),
            ),
            ..a
        }),
        buffer_place(after(a, events).buffers, index) == Some(place),
    decreases events.len(),
{
    lemma_event_types_differ();
    if events.len() == 0 {
        assert(buffer + carried_together(events, "partial_json"@) == buffer);
        assert(a.buffers.update(place, a.buffers[place]) == a.buffers);
    } else {
        let front = events.drop_last();
        assert forall|i: int| 0 <= i < front.len() implies is_delta(
            #[trigger] front[i],
            "input_json_delta"@,
            index,
        ) by {
            assert(front[i] == events[i]);
        }
        lemma_json_deltas_accumulate(a, front, index, place, buffer);
        let before = after(a, front);
        let last = events.last();
        assert(is_delta(events[events.len() - 1], "input_json_delta"@, index));
        let fragment = carried(last, "partial_json"@);
        assert(effect(before, last) == delta_effect(before, last));
        let joined = (buffer + carried_together(front, "partial_json"@)) + fragment;
        assert(joined == buffer + carried_together(events, "partial_json"@));
        assert(before.buffers.update(place, (index, joined)) == a.buffers.update(
            place,
            (index, joined),
        ));
        lemma_buffer_place_keeps(before.buffers, index, place, joined);
    }
}

proof fn lemma_buffer_place_keeps(
    buffers: Seq<(usize, Seq<char>)>,
    index: usize,
    place: int,
    text: Seq<char>,
)
    requires
        buffer_place(buffers, index) == Some(place),
        0 <= place < buffers.len(),
    ensures
        buffer_place(buffers.update(place, (index, text)), index) == Some(place),
    decreases buffers.len(),
{
    let changed = buffers.update(place, (index, text));
    if place == buffers.len() - 1 {
        assert(changed.drop_last() == buffers.drop_last());
        lemma_buffer_place_in_range(buffers.drop_last(), index);
    } else {
        lemma_buffer_place_in_range(buffers.drop_last(), index);
        assert(changed.drop_last() == buffers.drop_last().update(place, (index, text)));
        lemma_buffer_place_keeps(buffers.drop_last(), index, place, text);
    }
}

proof fn lemma_buffer_place_in_range(buffers: Seq<(usize, Seq<char>)>, index: usize)
    ensures
        match buffer_place(buffers, index) {
            Some(i) => 0 <= i < buffers.len() && buffers[i].0 == index,
            None => true,
        },
    decreases buffers.len(),
{
    if buffers.len() > 0 {
        lemma_buffer_place_in_range(buffers.drop_last(), index);
    }
}

/// A tool call that is started as the next block, gets its JSON in fragments
/// and is stopped ends up with the input that the joined fragments read as,
/// however they were cut, and leaves nothing else changed. Where the joined
/// fragments are no JSON, the stop shows just that fault, and the call is left
/// without an input.
pub proof fn law_tool_input_from_fragments(
    a: Assembly,
    start: JsonModel,
    deltas: Seq<JsonModel>,
    stop: JsonModel,
)
    requires
        is_event(start, "content_block_start"@),
        is_event(stop, "content_block_stop"@),
        event_index(start) == a.blocks.len(),
        event_index(stop) == event_index(start),
        started_block(at(start, "content_block"@)) matches Some(block) && block is ToolUse,
        buffer_place(a.buffers, event_index(start)) is None,
        forall|i: int|
            0 <= i < deltas.len() ==> is_delta(
                #[trigger] deltas[i],
                "input_json_delta"@,
                event_index(start),
            ),
    ensures
        ({
            let block = started_block(at(start, "content_block"@))->Some_0;
            let joined = carried_together(deltas, "partial_json"@);
            let done = effect(after(effect(a, start).next, deltas), stop);
            match tool_input_of(joined, document_of_text(joined)) {
                Ok(input) => done == quiet(
                    Assembly { blocks: a.blocks.push(with_input(block, input)), ..a },
                ),
                Err(fault) => done == (Effect {
                    next: Assembly { blocks: a.blocks.push(block), ..a },
                    outcome: Err(fault),
                }),
            }
        }),
{
    lemma_event_types_differ();
    let index = event_index(start);
    let block = started_block(at(start, "content_block"@))->Some_0;
    let opened = effect(a, start).next;
    let place = a.buffers.len() as int;
    assert(opened.buffers.drop_last() == a.buffers);
    lemma_json_deltas_accumulate(opened, deltas, index, place, Seq::empty());
    let filled = after(opened, deltas);
    let buffer = Seq::<char>::empty() + carried_together(deltas, "partial_json"@);
    assert(buffer == carried_together(deltas, "partial_json"@));
    assert(effect(filled, stop) == stop_effect(filled, stop));
    assert(filled.buffers.update(place, filled.buffers.last()).drop_last() == a.buffers);
    if let Ok(input) = tool_input_of(buffer, document_of_text(buffer)) {
        assert(changed_at(filled.blocks, index, |b: BlockModel| with_input(b, input))
            == a.blocks.push(with_input(block, input)));
    }
}

// ---------------------------------------------------------------------------
// What each event does to the reply
// ---------------------------------------------------------------------------

proof fn lemma_event_types()
    ensures
        "message_delta"@ != "message_start"@,
        "message_delta"@ != "content_block_start"@,
        "message_delta"@ != "content_block_delta"@,
        "message_delta"@ != "content_block_stop"@,
        "error"@ != "message_start"@,
        "error"@ != "content_block_start"@,
        "error"@ != "content_block_delta"@,
        "error"@ != "content_block_stop"@,
        "error"@ != "message_delta"@,
        "text"@ != "thinking"@,
        "text"@ != "redacted_thinking"@,
        "text"@ != "tool_use"@,
        "thinking"@ != "redacted_thinking"@,
        "thinking"@ != "tool_use"@,
        "redacted_thinking"@ != "tool_use"@,
        "text_delta"@ != "thinking_delta"@,
        "text_delta"@ != "signature_delta"@,
        "text_delta"@ != "input_json_delta"@,
        "thinking_delta"@ != "signature_delta"@,
        "thinking_delta"@ != "input_json_delta"@,
        "signature_delta"@ != "input_json_delta"@,
{
    reveal_strlit("message_start");
    reveal_strlit("content_block_start");
    reveal_strlit("content_block_delta");
    reveal_strlit("content_block_stop");
    reveal_strlit("message_delta");
    reveal_strlit("error");
    reveal_strlit("text");
    reveal_strlit("thinking");
    reveal_strlit("redacted_thinking");
    reveal_strlit("tool_use");
    reveal_strlit("text_delta");
    reveal_strlit("thinking_delta");
    reveal_strlit("signature_delta");
    reveal_strlit("input_json_delta");
    assert("message_delta"@[8] != "message_start"@[8]);
    assert("thinking"@[1] != "tool_use"@[1]);
    assert("error"@.len() == 5 && "text"@.len() == 4 && "message_delta"@.len() == 13);
    assert("message_start"@.len() == 13 && "content_block_start"@.len() == 19);
    assert("content_block_delta"@.len() == 19 && "content_block_stop"@.len() == 18);
    assert("thinking"@.len() == 8 && "redacted_thinking"@.len() == 17 && "tool_use"@.len() == 8);
    assert("text_delta"@.len() == 10 && "thinking_delta"@.len() == 14);
    assert("signature_delta"@.len() == 15 && "input_json_delta"@.len() == 16);
}

/// A started block of a known kind is added behind the blocks that are there,
/// which stay as they were; it holds what the event gives for its kind, and
/// waits for its input if it is a tool call. A block of another kind is a
/// fault and adds nothing.
pub proof fn law_start_adds_one_block(a: Assembly, event: JsonModel)
    requires
        is_event(event, "content_block_start"@),
    ensures
        ({
            let given = at(event, "content_block"@);
            let kind = text_or_empty(at(given, "type"@));
            let done = effect(a, event);
            let next = done.next;
            if kind == "text"@ || kind == "thinking"@ || kind == "redacted_thinking"@ || kind
                == "tool_use"@ {
                &&& done.outcome == Ok::<Option<Seq<char>>, Fault>(None)
                &&& next.blocks.len() == a.blocks.len() + 1
                &&& next.blocks.take(a.blocks.len() as int) == a.blocks
                &&& next.stop_reason == a.stop_reason
                &&& next.usage == a.usage
                &&& next.buffers == if kind == "tool_use"@ {
                    a.buffers + seq![(event_index(event), Seq::<char>::empty())]
                } else {
                    a.buffers
                }
                &&& kind == "text"@ ==> (next.blocks.last() matches BlockModel::Text { text }
                    && text == text_or_empty(at(given, "text"@)))
                &&& kind == "thinking"@ ==> (next.blocks.last() matches BlockModel::Thinking {
                    thinking,
                    signature,
                } && thinking == text_or_empty(at(given, "thinking"@)) && signature is None)
                &&& kind == "redacted_thinking"@ ==> (
                next.blocks.last() matches BlockModel::RedactedThinking { data } && data
                    == text_or_empty(at(given, "data"@)))
                &&& kind == "tool_use"@ ==> (next.blocks.last() matches BlockModel::ToolUse {
                    id,
                    name,
                    input,
                } && id == text_or_empty(at(given, "id"@)) && name == text_or_empty(
                    at(given, "name"@),
                ) && input == JsonModel::Null)
            } else {
                &&& done.outcome == Err::<Option<Seq<char>>, Fault>(Fault::UnknownBlock { kind })
                &&& next == a
            }
        }),
{
    lemma_event_types_differ();
    lemma_event_types();
}

/// A delta changes at most the block that it speaks of, and there it only
/// adds what it carries at the end: text to a text, thinking to a thought, a
/// signature to the thought's signature. JSON goes to the buffer of that block
/// and nowhere else. Text, and only text, is handed out.
pub proof fn law_delta_adds_to_one_block(a: Assembly, event: JsonModel)
    requires
        is_event(event, "content_block_delta"@),
    ensures
        ({
            let index = event_index(event);
            let kind = text_or_empty(at(at(event, "delta"@), "type"@));
            let done = effect(a, event);
            let next = done.next;
            &&& done.outcome == Ok::<Option<Seq<char>>, Fault>(
                if kind == "text_delta"@ {
                    Some(carried(event, "text"@))
                } else {
                    None
                },
            )
            &&& next.stop_reason == a.stop_reason
            &&& next.usage == a.usage
            &&& next.blocks.len() == a.blocks.len()
            &&& forall|i: int|
                0 <= i < a.blocks.len() && i != index ==> #[trigger] next.blocks[i] == a.blocks[i]
            &&& index < a.blocks.len() ==> match a.blocks[index as int] {
                BlockModel::Text { text } => next.blocks[index as int] == (BlockModel::Text {
                    text: if kind == "text_delta"@ {
                        text + carried(event, "text"@)
                    } else {
                        text
                    },
                }),
                BlockModel::Thinking { thinking, signature } => next.blocks[index as int] == (
                BlockModel::Thinking {
                    thinking: if kind == "thinking_delta"@ {
                        thinking + carried(event, "thinking"@)
                    } else {
                        thinking
                    },
                    signature: if kind == "signature_delta"@ {
                        match signature {
                            Some(so_far) => Some(so_far + carried(event, "signature"@)),
                            None => Some(carried(event, "signature"@)),
                        }
                    } else {
                        signature
                    },
                }),
                other => next.blocks[index as int] == other,
            }
            &&& kind != "input_json_delta"@ ==> next.buffers == a.buffers
            &&& next.buffers.len() == a.buffers.len()
            &&& forall|i: int|
                0 <= i < a.buffers.len() && a.buffers[i].0 != index ==> #[trigger] next.buffers[i]
                    == a.buffers[i]
            &&& forall|i: int|
                0 <= i < a.buffers.len() && kind == "input_json_delta"@ && a.buffers[i].0 == index
                    && (forall|j: int| 0 <= j < i ==> (#[trigger] a.buffers[j]).0 != index)
                    ==> next.buffers == a.buffers.update(
                    i,
                    (index, (#[trigger] a.buffers[i]).1 + carried(event, "partial_json"@)),
                )
        }),
{
    lemma_event_types_differ();
    lemma_event_types();
    let index = event_index(event);
    let next = effect(a, event).next;
    assert(effect(a, event) == delta_effect(a, event));
    lemma_buffer_place_first(a.buffers, index);
}

/// The place of the first buffer under an index holds that index, and no place
/// before it does.
proof fn lemma_buffer_place_first(buffers: Seq<(usize, Seq<char>)>, index: usize)
    ensures
        match buffer_place(buffers, index) {
            Some(i) => {
                &&& 0 <= i < buffers.len()
                &&& buffers[i].0 == index
                &&& forall|j: int| 0 <= j < i ==> (#[trigger] buffers[j]).0 != index
            },
            None => forall|j: int| 0 <= j < buffers.len() ==> (#[trigger] buffers[j]).0 != index,
        },
    decreases buffers.len(),
{
    if buffers.len() > 0 {
        let front = buffers.drop_last();
        lemma_buffer_place_first(front, index);
        assert forall|j: int| 0 <= j < front.len() implies #[trigger] buffers[j] == front[j] by {}
    }
}

/// A stop changes no block but the tool call that it speaks of, and of that
/// only the input: an empty object where nothing but white space was collected
/// for it, else the document that the collected JSON is. JSON that reads as no
/// document is a fault that names it. What was collected is used up; without
/// any, nothing happens.
pub proof fn law_stop_completes_the_input(a: Assembly, event: JsonModel, place: int)
    requires
        is_event(event, "content_block_stop"@),
        0 <= place < a.buffers.len(),
        a.buffers[place].0 == event_index(event),
        forall|j: int| 0 <= j < place ==> (#[trigger] a.buffers[j]).0 != event_index(event),
    ensures
        ({
            let index = event_index(event);
            let collected = a.buffers[place].1;
            let done = effect(a, event);
            let next = done.next;
            &&& next.stop_reason == a.stop_reason
            &&& next.usage == a.usage
            &&& next.buffers.to_multiset() == a.buffers.to_multiset().remove(a.buffers[place])
            &&& next.blocks.len() == a.blocks.len()
            &&& forall|i: int|
                0 <= i < a.blocks.len() && i != index ==> #[trigger] next.blocks[i] == a.blocks[i]
            &&& index < a.blocks.len() ==> match a.blocks[index as int] {
                BlockModel::ToolUse { id, name, input } => {
                    if trimmed(collected) == Seq::<char>::empty() {
                        &&& done.outcome == Ok::<Option<Seq<char>>, Fault>(None)
                        &&& next.blocks[index as int] == (BlockModel::ToolUse {
                            id,
                            name,
                            input: JsonModel::Object(Seq::empty()),
                        })
                    } else if let Some(document) = document_of_text(collected) {
                        &&& done.outcome == Ok::<Option<Seq<char>>, Fault>(None)
                        &&& next.blocks[index as int] == (BlockModel::ToolUse {
                            id,
                            name,
                            input: document,
                        })
                    } else {
                        &&& done.outcome == Err::<Option<Seq<char>>, Fault>(
                            Fault::InvalidToolInput { buffer: collected },
                        )
                        &&& next.blocks == a.blocks
                    }
                },
                other => {
                    &&& done.outcome == Ok::<Option<Seq<char>>, Fault>(None)
                    &&& next.blocks[index as int] == other
                },
            }
            &&& index >= a.blocks.len() ==> done.outcome == Ok::<Option<Seq<char>>, Fault>(None)
        }),
{
    lemma_event_types_differ();
    lemma_event_types();
    let index = event_index(event);
    assert(effect(a, event) == stop_effect(a, event));
    lemma_buffer_place_first(a.buffers, index);
    assert(buffer_place(a.buffers, index) == Some(place));
    lemma_last_takes_the_place(a.buffers, place);
    let collected = a.buffers[place].1;
    assert(trimmed(collected).len() == 0 ==> trimmed(collected) == Seq::<char>::empty());
}

/// A list that loses an element, with the last one put in its place, holds
/// what it held but for that element.
proof fn lemma_last_takes_the_place<T>(list: Seq<T>, place: int)
    requires
        0 <= place < list.len(),
    ensures
        list.update(place, list.last()).drop_last().to_multiset() == list.to_multiset().remove(
            list[place],
        ),
{
    broadcast use vstd::multiset::group_multiset_axioms;

    let last = list.len() - 1;
    let shorter = list.update(place, list.last()).drop_last();
    vstd::seq_lib::to_multiset_remove(list, place);
    let removed = list.remove(place);
    if place == last {
        assert(shorter == removed);
    } else {
        vstd::seq_lib::to_multiset_remove(shorter, place);
        vstd::seq_lib::to_multiset_remove(removed, last - 1);
        assert(shorter.remove(place) == removed.remove(last - 1));
        assert(shorter[place] == removed[last - 1]);
        let rest = shorter.remove(place).to_multiset();
        assert(shorter.to_multiset().contains(shorter[place])) by {
            shorter.to_multiset_ensures();
            assert(shorter.contains(shorter[place]));
        }
        assert(removed.to_multiset().contains(removed[last - 1])) by {
            removed.to_multiset_ensures();
            assert(removed.contains(removed[last - 1]));
        }
        assert(shorter.to_multiset() =~= rest.insert(shorter[place]));
        assert(removed.to_multiset() =~= rest.insert(removed[last - 1]));
    }
}

/// A stop for a block without collected JSON, and an event of a type that the
/// reply does not depend on, leave everything as it is.
pub proof fn law_other_events_change_nothing(a: Assembly, event: JsonModel)
    requires
        is_event(event, "content_block_stop"@) ==> forall|j: int|
            0 <= j < a.buffers.len() ==> (#[trigger] a.buffers[j]).0 != event_index(event),
        !is_event(event, "message_start"@),
        !is_event(event, "content_block_start"@),
        !is_event(event, "content_block_delta"@),
        !is_event(event, "message_delta"@),
        !is_event(event, "error"@),
    ensures
        effect(a, event).next == a,
        effect(a, event).outcome == Ok::<Option<Seq<char>>, Fault>(None),
{
    lemma_buffer_place_first(a.buffers, event_index(event));
}

/// A number that counts, or else zero.
pub open spec fn counted(value: JsonModel) -> u64 {
    match value {
        JsonModel::Number(NumberModel::Unsigned(n)) => n,
        _ => 0,
    }
}

/// The start of a message sets the counts of what went in, and its end those of
/// what came out and the reason for which it ended, where they are given. Each
/// leaves the rest as it is. An error is shown with its type and message and
/// changes nothing.
pub proof fn law_message_events_set_the_totals(a: Assembly, event: JsonModel)
    ensures
        ({
            let done = effect(a, event);
            let next = done.next;
            let counts = at(at(event, "message"@), "usage"@);
            let reason = at(at(event, "delta"@), "stop_reason"@);
            let tokens = at(at(event, "usage"@), "output_tokens"@);
            let error = at(event, "error"@);
            &&& is_event(event, "message_start"@) ==> {
                &&& done.outcome == Ok::<Option<Seq<char>>, Fault>(None)
                &&& next.blocks == a.blocks
                &&& next.buffers == a.buffers
                &&& next.stop_reason == a.stop_reason
                &&& next.usage.input_tokens == counted(at(counts, "input_tokens"@)) as u32
                &&& next.usage.cache_creation_input_tokens == counted(
                    at(counts, "cache_creation_input_tokens"@),
                ) as u32
                &&& next.usage.cache_read_input_tokens == counted(
                    at(counts, "cache_read_input_tokens"@),
                ) as u32
                &&& next.usage.output_tokens == a.usage.output_tokens
            }
            &&& is_event(event, "message_delta"@) ==> {
                &&& done.outcome == Ok::<Option<Seq<char>>, Fault>(None)
                &&& next.blocks == a.blocks
                &&& next.buffers == a.buffers
                &&& next.usage.input_tokens == a.usage.input_tokens
                &&& next.usage.cache_creation_input_tokens == a.usage.cache_creation_input_tokens
                &&& next.usage.cache_read_input_tokens == a.usage.cache_read_input_tokens
                &&& match reason {
                    JsonModel::Text(words) => next.stop_reason == Some(words),
                    _ => next.stop_reason == a.stop_reason,
                }
                &&& match tokens {
                    JsonModel::Number(NumberModel::Unsigned(n)) => next.usage.output_tokens
                        == n as u32,
                    _ => next.usage.output_tokens == a.usage.output_tokens,
                }
            }
            &&& is_event(event, "error"@) ==> {
                &&& next == a
                &&& done.outcome matches Err(Fault::Reported { kind, message })
                &&& message == text_or_empty(at(error, "message"@))
                &&& match at(error, "type"@) {
                    JsonModel::Text(words) => kind == words,
                    _ => kind == "unknown"@,
                }
            }
        }),
{
    lemma_event_types_differ();
    lemma_event_types();
}

// ---------------------------------------------------------------------------
// Whole streams
// ---------------------------------------------------------------------------

/// The events that make one block: its start, its deltas and its stop.
pub ghost struct Group {
    pub start: JsonModel,
    pub deltas: Seq<JsonModel>,
    pub stop: JsonModel,
}

/// The kind of block that a group makes.
pub open spec fn group_kind(group: Group) -> Seq<char> {
    text_or_empty(at(at(group.start, "content_block"@), "type"@))
}

/// The kind of a delta.
pub open spec fn delta_kind(event: JsonModel) -> Seq<char> {
    text_or_empty(at(at(event, "delta"@), "type"@))
}

/// Whether a group is that of the block at an index: a start of a known kind,
/// deltas that belong to the kind, and a stop. A tool call's JSON is a document
/// or nothing but white space.
pub open spec fn well_formed(group: Group, index: int) -> bool {
    let kind = group_kind(group);
    &&& is_event(group.start, "content_block_start"@)
    &&& is_event(group.stop, "content_block_stop"@)
    &&& event_index(group.start) == index
    &&& event_index(group.stop) == index
    &&& forall|i: int|
        0 <= i < group.deltas.len() ==> {
            let delta = #[trigger] group.deltas[i];
            &&& is_event(delta, "content_block_delta"@)
            &&& event_index(delta) == index
            &&& kind == "text"@ ==> delta_kind(delta) == "text_delta"@
            &&& kind == "thinking"@ ==> delta_kind(delta) == "thinking_delta"@ || delta_kind(delta)
                == "signature_delta"@
            &&& kind == "tool_use"@ ==> delta_kind(delta) == "input_json_delta"@
        }
    &&& {
        ||| kind == "text"@
        ||| kind == "thinking"@
        ||| kind == "redacted_thinking"@ && group.deltas.len() == 0
        ||| kind == "tool_use"@ && ({
            let json = carried_together(group.deltas, "partial_json"@);
            trimmed(json).len() == 0 || document_of_text(json) is Some
        })
    }
}

/// The deltas of a kind among several.
pub open spec fn deltas_of(events: Seq<JsonModel>, kind: Seq<char>) -> Seq<JsonModel> {
    events.filter(|e: JsonModel| delta_kind(e) == kind)
}

/// Whether a block is the one that a group spells out: of its kind, with all
/// that the deltas carry, joined.
pub open spec fn spells_out(group: Group, block: BlockModel) -> bool {
    let kind = group_kind(group);
    let given = at(group.start, "content_block"@);
    &&& kind == "text"@ ==> (block matches BlockModel::Text { text } && text == text_or_empty(
        at(given, "text"@),
    ) + carried_together(group.deltas, "text"@))
    &&& kind == "thinking"@ ==> ({
        let thoughts = deltas_of(group.deltas, "thinking_delta"@);
        let signatures = deltas_of(group.deltas, "signature_delta"@);
        &&& block matches BlockModel::Thinking { thinking, signature }
        &&& thinking == text_or_empty(at(given, "thinking"@)) + carried_together(
            thoughts,
            "thinking"@,
        )
        &&& signature == if signatures.len() == 0 {
            None
        } else {
            Some(carried_together(signatures, "signature"@))
        }
    })
    &&& kind == "redacted_thinking"@ ==> (block matches BlockModel::RedactedThinking { data }
        && data == text_or_empty(at(given, "data"@)))
    &&& kind == "tool_use"@ ==> ({
        let json = carried_together(group.deltas, "partial_json"@);
        &&& block matches BlockModel::ToolUse { id, name, input }
        &&& id == text_or_empty(at(given, "id"@))
        &&& name == text_or_empty(at(given, "name"@))
        &&& trimmed(json).len() == 0 ==> input == JsonModel::Object(Seq::empty())
        &&& trimmed(json).len() != 0 ==> Some(input) == document_of_text(json)
    })
}

/// The events of a group, in order.
pub open spec fn group_events(group: Group) -> Seq<JsonModel> {
    seq![group.start] + group.deltas + seq![group.stop]
}

/// The events of several groups, in order.
pub open spec fn all_events(groups: Seq<Group>) -> Seq<JsonModel>
    decreases groups.len(),
{
    if groups.len() == 0 {
        Seq::empty()
    } else {
        all_events(groups.drop_last()) + group_events(groups.last())
    }
}

/// Events that come in two parts have the effect of the whole.
pub proof fn law_events_in_parts(a: Assembly, first: Seq<JsonModel>, second: Seq<JsonModel>)
    ensures
        after(a, first + second) == after(after(a, first), second),
    decreases second.len(),
{
    if second.len() == 0 {
        assert(first + second == first);
    } else {
        law_events_in_parts(a, first, second.drop_last());
        assert((first + second).drop_last() == first + second.drop_last());
        assert((first + second).last() == second.last());
    }
}

proof fn lemma_after_thinking_deltas(
    a: Assembly,
    events: Seq<JsonModel>,
    index: usize,
    thinking: Seq<char>,
)
    requires
        index < a.blocks.len(),
        a.blocks[index as int] == (BlockModel::Thinking { thinking, signature: None }),
        forall|i: int|
            0 <= i < events.len() ==> {
                &&& is_event(#[trigger] events[i], "content_block_delta"@)
                &&& event_index(events[i]) == index
                &&& delta_kind(events[i]) == "thinking_delta"@ || delta_kind(events[i])
                    == "signature_delta"@
            },
    ensures
        after(a, events) == (Assembly {
            blocks: a.blocks.update(
                index as int,
                BlockModel::Thinking {
                    thinking: thinking + carried_together(
                        deltas_of(events, "thinking_delta"@),
                        "thinking"@,
                    ),
                    signature: if deltas_of(events, "signature_delta"@).len() == 0 {
                        None
                    } else {
                        Some(
                            carried_together(deltas_of(events, "signature_delta"@), "signature"@),
                        )
                    },
                },
            ),
            ..a
        }),
    decreases events.len(),
{
    reveal(Seq::filter);
    lemma_event_types();
    if events.len() == 0 {
        assert(thinking + carried_together(deltas_of(events, "thinking_delta"@), "thinking"@)
            == thinking);
        assert(a.blocks.update(index as int, a.blocks[index as int]) == a.blocks);
    } else {
        let front = events.drop_last();
        let last = events.last();
        assert forall|i: int| 0 <= i < front.len() implies #[trigger] front[i] == events[i] by {}
        assert(events[events.len() - 1] == last);
        lemma_after_thinking_deltas(a, front, index, thinking);
        let before = after(a, front);
        law_delta_adds_to_one_block(before, last);
        let thoughts = deltas_of(front, "thinking_delta"@);
        let signatures = deltas_of(front, "signature_delta"@);
        if delta_kind(last) == "thinking_delta"@ {
            assert(deltas_of(events, "thinking_delta"@) == thoughts.push(last));
            assert(deltas_of(events, "signature_delta"@) == signatures);
            assert(thoughts.push(last).drop_last() == thoughts);
            assert(thinking + carried_together(thoughts, "thinking"@) + carried(last, "thinking"@)
                == thinking + carried_together(thoughts.push(last), "thinking"@));
        } else {
            assert(deltas_of(events, "thinking_delta"@) == thoughts);
            assert(deltas_of(events, "signature_delta"@) == signatures.push(last));
            assert(signatures.push(last).drop_last() == signatures);
            assert(signatures.push(last).last() == last);
            assert(carried_together(signatures.push(last), "signature"@) == carried_together(
                signatures,
                "signature"@,
            ) + carried(last, "signature"@));
            if signatures.len() == 0 {
                assert(Seq::<char>::empty() + carried(last, "signature"@) == carried(
                    last,
                    "signature"@,
                ));
            }
        }
        let expected = Assembly {
            blocks: a.blocks.update(
                index as int,
                BlockModel::Thinking {
                    thinking: thinking + carried_together(
                        deltas_of(events, "thinking_delta"@),
                        "thinking"@,
                    ),
                    signature: if deltas_of(events, "signature_delta"@).len() == 0 {
                        None
                    } else {
                        Some(
                            carried_together(deltas_of(events, "signature_delta"@), "signature"@),
                        )
                    },
                },
            ),
            ..a
        };
        assert(after(a, events).blocks == expected.blocks);
    }
}

/// One group adds the block that it spells out, and changes nothing else.
proof fn lemma_group_adds_its_block(a: Assembly, group: Group)
    requires
        well_formed(group, a.blocks.len() as int),
        a.buffers.len() == 0,
    ensures
        ({
            let done = after(a, group_events(group));
            &&& done.blocks.len() == a.blocks.len() + 1
            &&& done.blocks.take(a.blocks.len() as int) == a.blocks
            &&& spells_out(group, done.blocks.last())
            &&& done == (Assembly { blocks: done.blocks, ..a })
        }),
{
    lemma_event_types();
    lemma_event_types_differ();
    let index = event_index(group.start);
    let kind = group_kind(group);
    let given = at(group.start, "content_block"@);
    let opened = effect(a, group.start).next;
    let filled = after(opened, group.deltas);
    let done = effect(filled, group.stop).next;
    law_start_adds_one_block(a, group.start);
    assert(after(a, seq![group.start]) == opened) by {
        assert(seq![group.start].drop_last() == Seq::<JsonModel>::empty());
        assert(after(a, Seq::<JsonModel>::empty()) == a);
    }
    law_events_in_parts(a, seq![group.start], group.deltas);
    assert(group_events(group).drop_last() == seq![group.start] + group.deltas);
    assert(after(a, group_events(group)) == done);
    assert(opened.blocks[index as int] == opened.blocks.last());
    if kind == "text"@ {
        let text = text_or_empty(at(given, "text"@));
        assert forall|i: int| 0 <= i < group.deltas.len() implies is_delta(
            #[trigger] group.deltas[i],
            "text_delta"@,
            index,
        ) by {}
        law_text_deltas_accumulate(opened, group.deltas, index, text);
        law_other_events_change_nothing(filled, group.stop);
    } else if kind == "thinking"@ {
        let thinking = text_or_empty(at(given, "thinking"@));
        lemma_after_thinking_deltas(opened, group.deltas, index, thinking);
        law_other_events_change_nothing(filled, group.stop);
    } else if kind == "redacted_thinking"@ {
        assert(group.deltas == Seq::<JsonModel>::empty());
        law_other_events_change_nothing(filled, group.stop);
    } else {
        assert forall|i: int| 0 <= i < group.deltas.len() implies is_delta(
            #[trigger] group.deltas[i],
            "input_json_delta"@,
            index,
        ) by {}
        assert(a.buffers == Seq::<(usize, Seq<char>)>::empty());
        law_tool_input_from_fragments(a, group.start, group.deltas, group.stop);
        let json = carried_together(group.deltas, "partial_json"@);
        assert(tool_input_of(json, document_of_text(json)) is Ok);
    }
}

/// A stream of well-formed groups makes as many blocks as there are groups, in
/// their order: the block at each place is of the kind of the group there, with
/// the text, thinking, signature or input that the group's deltas carry,
/// joined. No JSON is left over.
pub proof fn law_stream_makes_a_block_per_group(groups: Seq<Group>)
    requires
        forall|i: int| 0 <= i < groups.len() ==> well_formed(#[trigger] groups[i], i),
    ensures
        ({
            let reply = after(empty_assembly(), all_events(groups));
            &&& reply.blocks.len() == groups.len()
            &&& forall|i: int|
                0 <= i < groups.len() ==> spells_out(#[trigger] groups[i], reply.blocks[i])
            &&& reply.buffers.len() == 0
            &&& reply.stop_reason is None
            &&& reply.usage == zero_usage()
        }),
    decreases groups.len(),
{
    if groups.len() > 0 {
        let front = groups.drop_last();
        let last = groups.last();
        assert forall|i: int| 0 <= i < front.len() implies well_formed(#[trigger] front[i], i) by {
            assert(front[i] == groups[i]);
        }
        law_stream_makes_a_block_per_group(front);
        let before = after(empty_assembly(), all_events(front));
        assert(groups[groups.len() - 1] == last);
        assert(well_formed(groups[groups.len() - 1], groups.len() - 1));
        lemma_group_adds_its_block(before, last);
        law_events_in_parts(empty_assembly(), all_events(front), group_events(last));
        let reply = after(empty_assembly(), all_events(groups));
        assert forall|i: int| 0 <= i < groups.len() implies spells_out(
            #[trigger] groups[i],
            reply.blocks[i],
        ) by {
            if i < front.len() {
                assert(front[i] == groups[i]);
                assert(reply.blocks.take(before.blocks.len() as int)[i] == before.blocks[i]);
            }
        }
    }
}

/// Each fault is told in words of its own, with what it is about.
pub proof fn law_faults_say_what_they_are_about(fault: Fault)
    ensures
        fault matches Fault::InvalidPayload { data } ==> fault_words(fault)
            == "invalid SSE payload: "@ + data,
        fault matches Fault::Reported { kind, message } ==> fault_words(fault)
            == "API stream error "@ + kind + ": "@ + message,
        fault matches Fault::UnknownBlock { kind } ==> fault_words(fault)
            == "unknown content block type in stream: "@ + kind,
        fault matches Fault::InvalidToolInput { buffer } ==> fault_words(fault)
            == "invalid tool input JSON: "@ + buffer,
        fault is NoStopReason ==> fault_words(fault) == "stream ended without a stop_reason"@,
{
}

/// An event speaks of the block whose number it gives, and of the first where it
/// gives none.
pub proof fn law_events_name_their_block(event: JsonModel, n: u64)
    ensures
        at(event, "index"@) == JsonModel::Number(NumberModel::Unsigned(n)) && n <= usize::MAX
            ==> event_index(event) == n,
        !(at(event, "index"@) matches JsonModel::Number(NumberModel::Unsigned(_)))
            ==> event_index(event) == 0,
{
}

/// A reply is handed on whole: every block, in order and as it was assembled,
/// with the stop reason and the counts that came. Just a stream without a stop
/// reason makes none.
pub proof fn law_reply_is_handed_on_whole(
    assembler: MessageAssembler,
    res: Result<ApiResponse, StreamError>,
)
    requires
        call_ensures(MessageAssembler::finish, (assembler,), res),
    ensures
        res is Ok <==> assembler.stop_reason is Some,
        res matches Err(error) ==> error is NoStopReason,
        res matches Ok(response) ==> {
            &&& assembler.stop_reason matches Some(reason) && response.stop_reason@ == reason@
            &&& response.usage == assembler.usage
            &&& response.content@.len() == assembler.blocks@.len()
            &&& forall|i: int|
                0 <= i < response.content@.len() ==> (#[trigger] response.content@[i])@
                    == assembler.blocks@[i]@
        },
{
    if let Ok(response) = res {
        let handed = block_models(response.content@);
        let made = block_models(assembler.blocks@);
        assert(handed.len() == made.len());
        assert forall|i: int| 0 <= i < response.content@.len() implies (
        #[trigger] response.content@[i])@ == assembler.blocks@[i]@ by {
            assert(handed[i] == made[i]);
        }
    }
}

} // verus!
