//! Values of the Messages API.

use vstd::prelude::*;

use crate::json::{Json, JsonModel};

verus! {

broadcast use vstd::seq_lib::group_seq_properties;

/// Who speaks in a message.
#[derive(Clone, Copy, Debug, PartialEq, Eq, Structural)]
pub enum Role {
    User,
    Assistant,
}

/// One block inside a message's content.
///
/// `Thinking` and `RedactedThinking` are echoed back unchanged when a
/// conversation continues on the same model, so their extra fields are kept.
#[derive(Debug)]
pub enum ContentBlock {
    Text { text: String },
    Thinking { thinking: String, signature: Option<String> },
    RedactedThinking { data: String },
    ToolUse { id: String, name: String, input: Json },
    ToolResult { tool_use_id: String, content: String, is_error: Option<bool> },
}

/// What a [`ContentBlock`] stands for.
pub ghost enum BlockModel {
    Text { text: Seq<char> },
    Thinking { thinking: Seq<char>, signature: Option<Seq<char>> },
    RedactedThinking { data: Seq<char> },
    ToolUse { id: Seq<char>, name: Seq<char>, input: JsonModel },
    ToolResult { tool_use_id: Seq<char>, content: Seq<char>, is_error: Option<bool> },
}

/// The text of an optional string.
pub open spec fn optional_text(s: Option<String>) -> Option<Seq<char>> {
    match s {
        Some(t) => Some(t@),
        None => None,
    }
}

impl View for ContentBlock {
    type V = BlockModel;

    open spec fn view(&self) -> BlockModel {
        match *self {
            ContentBlock::Text { text } => BlockModel::Text { text: text@ },
            ContentBlock::Thinking { thinking, signature } => BlockModel::Thinking {
                thinking: thinking@,
                signature: optional_text(signature),
            },
            ContentBlock::RedactedThinking { data } => BlockModel::RedactedThinking { data: data@ },
            ContentBlock::ToolUse { id, name, input } => BlockModel::ToolUse {
                id: id@,
                name: name@,
                input: input@,
            },
            ContentBlock::ToolResult { tool_use_id, content, is_error } => BlockModel::ToolResult {
                tool_use_id: tool_use_id@,
                content: content@,
                is_error,
            },
        }
    }
}

/// What a list of blocks stands for.
pub open spec fn block_models(blocks: Seq<ContentBlock>) -> Seq<BlockModel> {
    blocks.map_values(|b: ContentBlock| b@)
}

impl Clone for ContentBlock {
    fn clone(&self) -> (res: Self)
        ensures
            res@ == self@,
    {
        match self {
            ContentBlock::Text { text } => ContentBlock::Text { text: text.clone() },
            ContentBlock::Thinking { thinking, signature } => ContentBlock::Thinking {
                thinking: thinking.clone(),
                signature: match signature {
                    Some(s) => Some(s.clone()),
                    None => None,
                },
            },
            ContentBlock::RedactedThinking { data } => ContentBlock::RedactedThinking {
                data: data.clone(),
            },
            ContentBlock::ToolUse { id, name, input } => ContentBlock::ToolUse {
                id: id.clone(),
                name: name.clone(),
                input: input.clone(),
            },
            ContentBlock::ToolResult { tool_use_id, content, is_error } => ContentBlock::ToolResult {
                tool_use_id: tool_use_id.clone(),
                content: content.clone(),
                is_error: *is_error,
            },
        }
    }
}

/// Copies a list of blocks.
pub fn copy_blocks(blocks: &[ContentBlock]) -> (copies: Vec<ContentBlock>)
    ensures
        block_models(copies@) == block_models(blocks@),
{
    let mut copies: Vec<ContentBlock> = Vec::new();
    let mut i: usize = 0;
    while i < blocks.len()
        invariant
            i <= blocks@.len(),
            block_models(copies@) == block_models(blocks@).take(i as int),
        decreases blocks@.len() - i,
    {
        let ghost before = copies@;
        let copy: ContentBlock = blocks[i].clone();
        copies.push(copy);
        i += 1;
        assert(block_models(copies@) == block_models(before).push(copy@));
        assert(block_models(blocks@).take(i as int) == block_models(blocks@).take(i - 1).push(
            blocks@[i - 1]@,
        ));
    }
    assert(block_models(blocks@).take(i as int) == block_models(blocks@));
    copies
}

/// One message of a conversation.
#[derive(Debug)]
pub struct Message {
    pub role: Role,
    pub content: Vec<ContentBlock>,
}

/// What a [`Message`] stands for.
pub ghost struct MessageModel {
    pub role: Role,
    pub content: Seq<BlockModel>,
}

impl View for Message {
    type V = MessageModel;

    open spec fn view(&self) -> MessageModel {
        MessageModel { role: self.role, content: block_models(self.content@) }
    }
}

/// What a list of messages stands for.
pub open spec fn message_models(messages: Seq<Message>) -> Seq<MessageModel> {
    messages.map_values(|m: Message| m@)
}

impl Clone for Message {
    fn clone(&self) -> (res: Self)
        ensures
            res@ == self@,
    {
        Message { role: self.role, content: copy_blocks(self.content.as_slice()) }
    }
}

/// A user message that holds one text.
pub open spec fn user_text_model(text: Seq<char>) -> MessageModel {
    MessageModel { role: Role::User, content: seq![BlockModel::Text { text }] }
}

impl Message {
    /// A user message that holds one text.
    pub fn user_text(text: &str) -> (message: Message)
        ensures
            message@ == user_text_model(text@),
    {
        let block: ContentBlock = ContentBlock::Text { text: text.to_owned() };
        let message: Message = Message { role: Role::User, content: vec![block] };
        assert(message@.content == seq![block@]);
        message
    }

    /// A user message that hands tool results back.
    pub fn tool_results(results: Vec<ContentBlock>) -> (message: Message)
        ensures
            message@ == (MessageModel { role: Role::User, content: block_models(results@) }),
    {
        Message { role: Role::User, content: results }
    }
}

/// JSON Schema description of a tool, sent in the request's `tools` array.
#[derive(Debug)]
pub struct ToolDefinition {
    pub name: String,
    pub description: String,
    pub input_schema: Json,
}

/// What a [`ToolDefinition`] stands for.
pub ghost struct DefinitionModel {
    pub name: Seq<char>,
    pub description: Seq<char>,
    pub input_schema: JsonModel,
}

impl View for ToolDefinition {
    type V = DefinitionModel;

    open spec fn view(&self) -> DefinitionModel {
        DefinitionModel {
            name: self.name@,
            description: self.description@,
            input_schema: self.input_schema@,
        }
    }
}

/// What a list of definitions stands for.
pub open spec fn definition_models(tools: Seq<ToolDefinition>) -> Seq<DefinitionModel> {
    tools.map_values(|t: ToolDefinition| t@)
}

impl Clone for ToolDefinition {
    fn clone(&self) -> (res: Self)
        ensures
            res@ == self@,
    {
        ToolDefinition {
            name: self.name.clone(),
            description: self.description.clone(),
            input_schema: self.input_schema.clone(),
        }
    }
}

/// System prompt as a content block, so it can carry a `cache_control`
/// breakpoint: the cached prefix covers tools and system on every loop
/// iteration, which is where most repeated input tokens live.
#[derive(Debug)]
pub struct SystemBlock {
    pub kind: String,
    pub text: String,
    pub cache_control: Option<Json>,
}

/// One request to the Messages API.
#[derive(Debug)]
pub struct ApiRequest {
    pub model: String,
    pub max_tokens: u32,
    pub system: Option<Vec<SystemBlock>>,
    pub messages: Vec<Message>,
    pub tools: Vec<ToolDefinition>,
    pub stream: bool,
}

/// The assembled reply to one request.
#[derive(Debug)]
pub struct ApiResponse {
    pub content: Vec<ContentBlock>,
    pub stop_reason: String,
    pub usage: Usage,
}

/// Token counts of one request, or their sums over several.
#[derive(Clone, Copy, Debug, PartialEq, Eq, Structural)]
pub struct Usage {
    pub input_tokens: u32,
    pub output_tokens: u32,
    /// Tokens written to the prompt cache this request (billed at 1.25x input).
    pub cache_creation_input_tokens: u32,
    /// Tokens served from the prompt cache this request (billed at 0.1x input).
    pub cache_read_input_tokens: u32,
}

impl Default for Usage {
    fn default() -> (usage: Usage)
        ensures
            usage == zero_usage(),
    {
        Usage {
            input_tokens: 0,
            output_tokens: 0,
            cache_creation_input_tokens: 0,
            cache_read_input_tokens: 0,
        }
    }
}

/// No tokens at all.
pub open spec fn zero_usage() -> Usage {
    Usage {
        input_tokens: 0,
        output_tokens: 0,
        cache_creation_input_tokens: 0,
        cache_read_input_tokens: 0,
    }
}

impl Usage {
    /// All tokens together.
    pub open spec fn total(self) -> int {
        self.input_tokens + self.cache_creation_input_tokens + self.cache_read_input_tokens
            + self.output_tokens
    }

    /// Whether each count still fits in 32 bits after `other` is added to it.
    pub open spec fn sum_fits(self, other: Usage) -> bool {
        &&& self.input_tokens + other.input_tokens <= u32::MAX
        &&& self.output_tokens + other.output_tokens <= u32::MAX
        &&& self.cache_creation_input_tokens + other.cache_creation_input_tokens <= u32::MAX
        &&& self.cache_read_input_tokens + other.cache_read_input_tokens <= u32::MAX
    }

    /// Everything the model saw this request: approximates context size.
    pub fn context_tokens(&self) -> (n: u32)
        requires
            self.total() <= u32::MAX,
        ensures
            n == self.total(),
    {
        self.input_tokens + self.cache_creation_input_tokens + self.cache_read_input_tokens
            + self.output_tokens
    }

    /// Adds the counts of another request.
    pub fn add(&mut self, other: &Usage)
        requires
            old(self).sum_fits(*other),
        ensures
            final(self).input_tokens == old(self).input_tokens + other.input_tokens,
            final(self).output_tokens == old(self).output_tokens + other.output_tokens,
            final(self).cache_creation_input_tokens == old(self).cache_creation_input_tokens
                + other.cache_creation_input_tokens,
            final(self).cache_read_input_tokens == old(self).cache_read_input_tokens
                + other.cache_read_input_tokens,
    {
        self.input_tokens += other.input_tokens;
        self.output_tokens += other.output_tokens;
        self.cache_creation_input_tokens += other.cache_creation_input_tokens;
        self.cache_read_input_tokens += other.cache_read_input_tokens;
    }
}

/// Body of a failed request.
#[derive(Debug)]
pub struct ApiErrorBody {
    pub error: ApiErrorDetail,
}

/// What went wrong with a failed request.
#[derive(Debug)]
pub struct ApiErrorDetail {
    pub kind: String,
    pub message: String,
}

/// Two blocks stand for the same just if they are of one kind and equal in every
/// field, those among them that only the API reads.
pub proof fn law_blocks_are_told_apart_by_their_fields(one: ContentBlock, other: ContentBlock)
    ensures
        one@ == other@ <==> match (one, other) {
            (ContentBlock::Text { text }, ContentBlock::Text { text: other_text }) => text@
                == other_text@,
            (
                ContentBlock::Thinking { thinking, signature },
                ContentBlock::Thinking { thinking: other_thinking, signature: other_signature },
            ) => thinking@ == other_thinking@ && match (signature, other_signature) {
                (Some(s), Some(t)) => s@ == t@,
                (None, None) => true,
                _ => false,
            },
            (
                ContentBlock::RedactedThinking { data },
                ContentBlock::RedactedThinking { data: other_data },
            ) => data@ == other_data@,
            (
                ContentBlock::ToolUse { id, name, input },
                ContentBlock::ToolUse { id: other_id, name: other_name, input: other_input },
            ) => id@ == other_id@ && name@ == other_name@ && input@ == other_input@,
            (
                ContentBlock::ToolResult { tool_use_id, content, is_error },
                ContentBlock::ToolResult {
                    tool_use_id: other_id,
                    content: other_content,
                    is_error: other_error,
                },
            ) => tool_use_id@ == other_id@ && content@ == other_content@ && is_error
                == other_error,
            _ => false,
        },
{
}

/// Two messages stand for the same just if one speaks in both and they hold the
/// same blocks in the same order.
pub proof fn law_messages_are_told_apart_by_their_blocks(one: Message, other: Message)
    ensures
        one@ == other@ <==> {
            &&& one.role == other.role
            &&& one.content@.len() == other.content@.len()
            &&& forall|i: int|
                0 <= i < one.content@.len() ==> (#[trigger] one.content@[i])@ == other.content@[i]@
        },
{
    let a = block_models(one.content@);
    let b = block_models(other.content@);
    if one@ == other@ {
        assert(a.len() == b.len());
        assert forall|i: int| 0 <= i < one.content@.len() implies (#[trigger] one.content@[i])@
            == other.content@[i]@ by {
            assert(a[i] == b[i]);
        }
    }
    if one.role == other.role && one.content@.len() == other.content@.len() && (forall|i: int|
        0 <= i < one.content@.len() ==> (#[trigger] one.content@[i])@ == other.content@[i]@) {
        assert forall|i: int| 0 <= i < a.len() implies a[i] == b[i] by {
            assert(one.content@[i]@ == other.content@[i]@);
        }
        assert(a == b);
    }
}

/// A message of the user that holds one text says just that.
pub proof fn law_user_text_says_just_that(text: Seq<char>)
    ensures
        user_text_model(text).role == Role::User,
        user_text_model(text).content.len() == 1,
        user_text_model(text).content[0] == (BlockModel::Text { text }),
{
}

/// All tokens together are those of each kind.
pub proof fn law_total_counts_every_token(usage: Usage)
    ensures
        usage.total() == usage.input_tokens + usage.output_tokens
            + usage.cache_creation_input_tokens + usage.cache_read_input_tokens,
{
}

} // verus!
