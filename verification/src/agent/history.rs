//! The conversation of an agent: its messages, and how a turn extends them so
//! that the API accepts them.

use vstd::prelude::*;
use vstd::string::*;

use crate::api::types::{
    block_models, message_models, user_text_model, BlockModel, ContentBlock, Message, MessageModel,
    Role,
};
use crate::json::{Json, JsonModel};

verus! {

broadcast use {
    vstd::string::group_string_axioms,
    vstd::seq_lib::group_seq_properties,
};

// ---------------------------------------------------------------------------
// Tool calls and their results
// ---------------------------------------------------------------------------

/// A tool call of a reply.
#[derive(Debug)]
pub struct ToolCall {
    pub id: String,
    pub name: String,
    pub input: Json,
}

/// What a [`ToolCall`] stands for.
pub ghost struct CallModel {
    pub id: Seq<char>,
    pub name: Seq<char>,
    pub input: JsonModel,
}

impl View for ToolCall {
    type V = CallModel;

    open spec fn view(&self) -> CallModel {
        CallModel { id: self.id@, name: self.name@, input: self.input@ }
    }
}

/// The tool calls of a message, in order.
pub open spec fn calls_of(content: Seq<BlockModel>) -> Seq<CallModel>
    decreases content.len(),
{
    if content.len() == 0 {
        Seq::empty()
    } else {
        match content.last() {
            BlockModel::ToolUse { id, name, input } => calls_of(content.drop_last()).push(
                CallModel { id, name, input },
            ),
            _ => calls_of(content.drop_last()),
        }
    }
}

/// The calls that a message holds results for, in order.
pub open spec fn answered_ids(content: Seq<BlockModel>) -> Seq<Seq<char>>
    decreases content.len(),
{
    if content.len() == 0 {
        Seq::empty()
    } else {
        match content.last() {
            BlockModel::ToolResult { tool_use_id, .. } => answered_ids(content.drop_last()).push(
                tool_use_id,
            ),
            _ => answered_ids(content.drop_last()),
        }
    }
}

/// The ids of calls.
pub open spec fn ids_of(calls: Seq<CallModel>) -> Seq<Seq<char>> {
    calls.map_values(|c: CallModel| c.id)
}

/// The block that answers a call, given the text of its outcome and whether
/// that is an error.
pub open spec fn result_block(call: CallModel, outcome: (Seq<char>, bool)) -> BlockModel {
    BlockModel::ToolResult {
        tool_use_id: call.id,
        content: outcome.0,
        is_error: if outcome.1 {
            Some(true)
        } else {
            None
        },
    }
}

/// The text in place of the result of a call that was never executed.
pub const INTERRUPTED: &'static str = "interrupted by the user before execution";

/// The blocks that answer interrupted calls.
pub open spec fn interrupted_results(calls: Seq<CallModel>) -> Seq<BlockModel> {
    calls.map_values(|c: CallModel| result_block(c, (INTERRUPTED@, true)))
}

/// The tool calls of a reply, in order.
pub fn tool_calls(content: &[ContentBlock]) -> (calls: Vec<ToolCall>)
    ensures
        calls@.map_values(|c: ToolCall| c@) == calls_of(block_models(content@)),
{
    let ghost all = block_models(content@);
    let mut calls: Vec<ToolCall> = Vec::new();
    let mut i: usize = 0;
    assert(calls@.map_values(|c: ToolCall| c@) == calls_of(all.take(0)));
    while i < content.len()
        invariant
            i <= content@.len(),
            all == block_models(content@),
            calls@.map_values(|c: ToolCall| c@) == calls_of(all.take(i as int)),
        decreases content@.len() - i,
    {
        let ghost before = calls@;
        assert(all.take(i + 1).drop_last() == all.take(i as int));
        assert(all.take(i + 1).last() == content@[i as int]@);
        if let ContentBlock::ToolUse { id, name, input } = &content[i] {
            let call: ToolCall = ToolCall {
                id: id.clone(),
                name: name.clone(),
                input: input.clone(),
            };
            calls.push(call);
            assert(calls@.map_values(|c: ToolCall| c@) == before.map_values(|c: ToolCall| c@).push(
                call@,
            ));
        }
        i += 1;
    }
    assert(all.take(i as int) == all);
    calls
}

// ---------------------------------------------------------------------------
// Extending the conversation
// ---------------------------------------------------------------------------

/// The conversation after a user input: part of the last message where that is
/// the user's already, else a message of its own.
pub open spec fn prompted(messages: Seq<MessageModel>, input: Seq<char>) -> Seq<MessageModel> {
    if messages.len() > 0 && messages.last().role == Role::User {
        messages.update(
            messages.len() - 1,
            MessageModel {
                role: Role::User,
                content: messages.last().content.push(BlockModel::Text { text: input }),
            },
        )
    } else {
        messages.push(user_text_model(input))
    }
}

/// The conversation after a reply.
pub open spec fn replied(messages: Seq<MessageModel>, content: Seq<BlockModel>) -> Seq<
    MessageModel,
> {
    messages.push(MessageModel { role: Role::Assistant, content })
}

/// The conversation after tool results.
pub open spec fn answered_with(messages: Seq<MessageModel>, results: Seq<BlockModel>) -> Seq<
    MessageModel,
> {
    messages.push(MessageModel { role: Role::User, content: results })
}

/// The conversation after a repair: where it ends in a reply with tool calls,
/// each of them is answered as interrupted.
pub open spec fn repaired(messages: Seq<MessageModel>) -> Seq<MessageModel> {
    if messages.len() > 0 && messages.last().role == Role::Assistant && calls_of(
        messages.last().content,
    ).len() > 0 {
        answered_with(messages, interrupted_results(calls_of(messages.last().content)))
    } else {
        messages
    }
}

/// Copies the messages of a conversation.
pub fn copy_messages(messages: &[Message]) -> (copies: Vec<Message>)
    ensures
        message_models(copies@) == message_models(messages@),
{
    let mut copies: Vec<Message> = Vec::new();
    let mut i: usize = 0;
    while i < messages.len()
        invariant
            i <= messages@.len(),
            copies@.len() == i,
            forall|k: int| 0 <= k < i ==> (#[trigger] copies@[k])@ == messages@[k]@,
        decreases messages@.len() - i,
    {
        copies.push(messages[i].clone());
        i += 1;
    }
    assert(message_models(copies@) == message_models(messages@));
    copies
}

/// Adds a user input to the conversation.
pub fn prompt(messages: &mut Vec<Message>, input: String)
    ensures
        message_models(final(messages)@) == prompted(message_models(old(messages)@), input@),
{
    let ghost before = messages@;
    let total: usize = messages.len();
    if total > 0 && messages[total - 1].role == Role::User {
        let block: ContentBlock = ContentBlock::Text { text: input };
        let ghost content = before[total - 1].content@;
        messages[total - 1].content.push(block);
        assert(block_models(messages@[total - 1].content@) == block_models(content).push(block@));
        assert(message_models(messages@) == prompted(message_models(before), input@));
    } else {
        let message: Message = Message::user_text(input.as_str());
        messages.push(message);
        assert(message_models(messages@) == message_models(before).push(message@));
    }
}

/// Adds a reply to the conversation.
pub fn push_reply(messages: &mut Vec<Message>, content: Vec<ContentBlock>)
    ensures
        message_models(final(messages)@) == replied(
            message_models(old(messages)@),
            block_models(content@),
        ),
{
    let ghost before = messages@;
    let message: Message = Message { role: Role::Assistant, content };
    messages.push(message);
    assert(message_models(messages@) == message_models(before).push(message@));
}

/// Adds tool results to the conversation.
pub fn push_results(messages: &mut Vec<Message>, results: Vec<ContentBlock>)
    ensures
        message_models(final(messages)@) == answered_with(
            message_models(old(messages)@),
            block_models(results@),
        ),
{
    let ghost before = messages@;
    let message: Message = Message::tool_results(results);
    messages.push(message);
    assert(message_models(messages@) == message_models(before).push(message@));
}

/// Answers the tool calls that the conversation ends in as interrupted.
pub fn repair(messages: &mut Vec<Message>)
    ensures
        message_models(final(messages)@) == repaired(message_models(old(messages)@)),
{
    let total: usize = messages.len();
    if total == 0 {
        return;
    }
    if messages[total - 1].role != Role::Assistant {
        return;
    }
    let calls: Vec<ToolCall> = tool_calls(messages[total - 1].content.as_slice());
    let ghost models = calls@.map_values(|c: ToolCall| c@);
    let mut results: Vec<ContentBlock> = Vec::new();
    let mut i: usize = 0;
    while i < calls.len()
        invariant
            i <= calls@.len(),
            models == calls@.map_values(|c: ToolCall| c@),
            results@.len() == i,
            forall|k: int|
                0 <= k < i ==> (#[trigger] results@[k])@ == result_block(
                    models[k],
                    (INTERRUPTED@, true),
                ),
        decreases calls@.len() - i,
    {
        results.push(
            ContentBlock::ToolResult {
                tool_use_id: calls[i].id.clone(),
                content: INTERRUPTED.to_owned(),
                is_error: Some(true),
            },
        );
        i += 1;
    }
    assert(block_models(results@) == interrupted_results(models));
    if results.len() > 0 {
        push_results(messages, results);
    }
}

// ---------------------------------------------------------------------------
// Conversations that the API accepts
// ---------------------------------------------------------------------------

/// Whether user and assistant take turns, the user first.
pub open spec fn alternating(messages: Seq<MessageModel>) -> bool {
    forall|i: int|
        0 <= i < messages.len() ==> (#[trigger] messages[i]).role == if i % 2 == 0 {
            Role::User
        } else {
            Role::Assistant
        }
}

/// Whether the tool calls of one message are answered in the next, all of them
/// and in their order.
pub open spec fn answered_at(messages: Seq<MessageModel>, i: int) -> bool {
    messages[i].role == Role::Assistant && calls_of(messages[i].content).len() > 0 ==> {
        &&& i + 1 < messages.len()
        &&& messages[i + 1].role == Role::User
        &&& answered_ids(messages[i + 1].content) == ids_of(calls_of(messages[i].content))
    }
}

/// A conversation in which user and assistant take turns and every tool call
/// before the last message is answered: what it is while a turn runs.
pub open spec fn open_history(messages: Seq<MessageModel>) -> bool {
    &&& alternating(messages)
    &&& forall|i: int| 0 <= i < messages.len() - 1 ==> #[trigger] answered_at(messages, i)
}

/// A conversation in which user and assistant take turns and every tool call
/// is answered: what a turn can start from.
pub open spec fn closed_history(messages: Seq<MessageModel>) -> bool {
    &&& alternating(messages)
    &&& forall|i: int| 0 <= i < messages.len() ==> #[trigger] answered_at(messages, i)
}

proof fn lemma_answered_ids_of_results(results: Seq<BlockModel>)
    requires
        forall|i: int| 0 <= i < results.len() ==> (#[trigger] results[i]) is ToolResult,
    ensures
        answered_ids(results) == results.map_values(|b: BlockModel| b->ToolResult_tool_use_id),
    decreases results.len(),
{
    if results.len() > 0 {
        let front = results.drop_last();
        assert forall|i: int| 0 <= i < front.len() implies (#[trigger] front[i]) is ToolResult by {
            assert(front[i] == results[i]);
        }
        lemma_answered_ids_of_results(front);
        assert(results[results.len() - 1] is ToolResult);
        assert(results.map_values(|b: BlockModel| b->ToolResult_tool_use_id) == front.map_values(
            |b: BlockModel| b->ToolResult_tool_use_id,
        ).push(results.last()->ToolResult_tool_use_id));
    }
    assert(answered_ids(results) == results.map_values(
        |b: BlockModel| b->ToolResult_tool_use_id,
    ));
}

/// A user input keeps a conversation acceptable, and leaves the word to the
/// assistant.
pub proof fn law_prompt_keeps_history_closed(messages: Seq<MessageModel>, input: Seq<char>)
    requires
        closed_history(messages),
    ensures
        closed_history(prompted(messages, input)),
        prompted(messages, input).last().role == Role::User,
{
    let after = prompted(messages, input);
    if messages.len() > 0 {
        assert(messages[messages.len() - 1] == messages.last());
    }
    assert(alternating(after));
    assert forall|i: int| 0 <= i < after.len() implies #[trigger] answered_at(after, i) by {
        if i < messages.len() {
            assert(answered_at(messages, i));
        }
        if messages.len() > 0 && messages.last().role == Role::User && i + 1 == messages.len() - 1 {
            let text = BlockModel::Text { text: input };
            assert(after[i + 1].content.drop_last() == messages.last().content);
            assert(answered_ids(after[i + 1].content) == answered_ids(messages.last().content));
        }
    }
}

/// A reply to a conversation that ends in a user message keeps it open.
pub proof fn law_reply_keeps_history_open(messages: Seq<MessageModel>, content: Seq<BlockModel>)
    requires
        closed_history(messages),
        messages.len() > 0,
        messages.last().role == Role::User,
    ensures
        open_history(replied(messages, content)),
{
    let after = replied(messages, content);
    assert(messages[messages.len() - 1].role == Role::User);
    assert(alternating(after));
    assert forall|i: int| 0 <= i < after.len() - 1 implies #[trigger] answered_at(after, i) by {
        assert(answered_at(messages, i));
        assert(i + 1 < messages.len() ==> after[i + 1] == messages[i + 1]);
    }
}

/// A reply without tool calls leaves a conversation that the next turn can
/// start from.
pub proof fn law_plain_reply_closes_history(messages: Seq<MessageModel>, content: Seq<BlockModel>)
    requires
        closed_history(messages),
        messages.len() > 0,
        messages.last().role == Role::User,
        calls_of(content).len() == 0,
    ensures
        closed_history(replied(messages, content)),
{
    law_reply_keeps_history_open(messages, content);
    let after = replied(messages, content);
    assert forall|i: int| 0 <= i < after.len() implies #[trigger] answered_at(after, i) by {
        if i < after.len() - 1 {
            assert(answered_at(after, i));
        }
    }
}

/// Handing back a result for each call of the last reply, in their order,
/// closes the conversation.
pub proof fn law_results_close_history(
    messages: Seq<MessageModel>,
    outcomes: Seq<(Seq<char>, bool)>,
)
    requires
        open_history(messages),
        messages.len() > 0,
        messages.last().role == Role::Assistant,
        outcomes.len() == calls_of(messages.last().content).len(),
    ensures
        closed_history(
            answered_with(
                messages,
                Seq::new(
                    outcomes.len(),
                    |i: int| result_block(calls_of(messages.last().content)[i], outcomes[i]),
                ),
            ),
        ),
{
    let calls = calls_of(messages.last().content);
    let results = Seq::new(outcomes.len(), |i: int| result_block(calls[i], outcomes[i]));
    lemma_answered_ids_of_results(results);
    assert(results.map_values(|b: BlockModel| b->ToolResult_tool_use_id) == ids_of(calls));
    let after = answered_with(messages, results);
    assert(messages[messages.len() - 1].role == Role::Assistant);
    assert(alternating(after));
    assert forall|i: int| 0 <= i < after.len() implies #[trigger] answered_at(after, i) by {
        if i < messages.len() - 1 {
            assert(answered_at(messages, i));
            assert(after[i + 1] == messages[i + 1]);
        }
    }
}

/// Whatever a cancelled turn left behind, the repaired conversation is one
/// that the API accepts and that the next turn can start from.
pub proof fn law_repair_closes_history(messages: Seq<MessageModel>)
    requires
        open_history(messages),
    ensures
        closed_history(repaired(messages)),
{
    if messages.len() > 0 && messages.last().role == Role::Assistant && calls_of(
        messages.last().content,
    ).len() > 0 {
        let calls = calls_of(messages.last().content);
        let outcomes = Seq::new(calls.len(), |i: int| (INTERRUPTED@, true));
        law_results_close_history(messages, outcomes);
        assert(interrupted_results(calls) == Seq::new(
            outcomes.len(),
            |i: int| result_block(calls[i], outcomes[i]),
        ));
    } else {
        assert forall|i: int| 0 <= i < messages.len() implies #[trigger] answered_at(
            messages,
            i,
        ) by {
            if i < messages.len() - 1 {
                assert(answered_at(messages, i));
            }
        }
    }
}

/// A repaired conversation needs no repair, and neither does one whose calls
/// are all answered.
pub proof fn law_repair_is_idempotent(messages: Seq<MessageModel>)
    ensures
        repaired(repaired(messages)) == repaired(messages),
        closed_history(messages) ==> repaired(messages) == messages,
{
    if closed_history(messages) && messages.len() > 0 {
        assert(answered_at(messages, messages.len() - 1));
    }
}

// ---------------------------------------------------------------------------
// What each step keeps and adds
// ---------------------------------------------------------------------------

/// The tool calls of a message are its blocks that ask for a tool, each with
/// its id, name and input, in their order and none left out. The places of
/// these blocks are returned.
pub proof fn law_calls_are_the_tool_uses(content: Seq<BlockModel>) -> (places: Seq<int>)
    ensures
        calls_of(content).len() == places.len(),
        forall|k: int|
            0 <= k < places.len() ==> {
                &&& 0 <= #[trigger] places[k] < content.len()
                &&& content[places[k]] matches BlockModel::ToolUse { id, name, input }
                &&& calls_of(content)[k].id == id
                &&& calls_of(content)[k].name == name
                &&& calls_of(content)[k].input == input
            },
        forall|k: int, l: int|
            0 <= k < l < places.len() ==> #[trigger] places[k] < #[trigger] places[l],
        forall|i: int|
            0 <= i < content.len() && (#[trigger] content[i]) is ToolUse ==> places.contains(i),
    decreases content.len(),
{
    if content.len() == 0 {
        Seq::empty()
    } else {
        let front = content.drop_last();
        let last = content.len() - 1;
        let before = law_calls_are_the_tool_uses(front);
        assert forall|k: int| 0 <= k < before.len() implies content[#[trigger] before[k]]
            == front[before[k]] by {}
        let places = if content.last() is ToolUse {
            before.push(last)
        } else {
            before
        };
        assert forall|i: int|
            0 <= i < content.len() && (#[trigger] content[i]) is ToolUse implies places.contains(
            i,
        ) by {
            if i < last {
                assert(front[i] == content[i]);
                let k = choose|k: int| 0 <= k < before.len() && before[k] == i;
                assert(places[k] == i);
            } else {
                assert(places[before.len() as int] == i);
            }
        }
        places
    }
}

/// A user input is the last thing that the conversation says, and it is the
/// user who says it. All that was said before is still there as it was: a
/// message of the user that came last goes on with the input, any other
/// message is followed by one of the user that holds the input alone.
pub proof fn law_prompt_adds_the_input(messages: Seq<MessageModel>, input: Seq<char>)
    ensures
        ({
            let after = prompted(messages, input);
            let goes_on = messages.len() > 0 && messages.last().role == Role::User;
            &&& after.len() == messages.len() + if goes_on {
                0int
            } else {
                1int
            }
            &&& after.last().role == Role::User
            &&& after.last().content.last() == (BlockModel::Text { text: input })
            &&& after.last().content.drop_last() == if goes_on {
                messages.last().content
            } else {
                Seq::empty()
            }
            &&& forall|i: int|
                0 <= i < after.len() - 1 ==> i < messages.len() && #[trigger] after[i]
                    == messages[i]
        }),
{
    let after = prompted(messages, input);
    let goes_on = messages.len() > 0 && messages.last().role == Role::User;
    assert(after.last().content.drop_last() == if goes_on {
        messages.last().content
    } else {
        Seq::empty()
    });
}

/// A reply is added whole, as the assistant's, behind all that was said.
pub proof fn law_reply_is_added_whole(messages: Seq<MessageModel>, content: Seq<BlockModel>)
    ensures
        replied(messages, content).len() == messages.len() + 1,
        replied(messages, content).take(messages.len() as int) == messages,
        replied(messages, content).last().role == Role::Assistant,
        replied(messages, content).last().content == content,
{
}

/// A repair answers each tool call that the conversation ends in, by its id, as
/// an error that says the user interrupted it, and changes nothing that was
/// said. Where the conversation does not end in tool calls, it stays as it is.
pub proof fn law_repair_answers_each_call(messages: Seq<MessageModel>)
    ensures
        ({
            let after = repaired(messages);
            let last = messages.last();
            if messages.len() > 0 && last.role == Role::Assistant && exists|i: int|
                0 <= i < last.content.len() && (#[trigger] last.content[i]) is ToolUse {
                let calls = calls_of(last.content);
                &&& after.len() == messages.len() + 1
                &&& after.take(messages.len() as int) == messages
                &&& after.last().role == Role::User
                &&& after.last().content.len() == calls.len()
                &&& forall|k: int|
                    0 <= k < calls.len() ==> {
                        &&& #[trigger] after.last().content[k] matches BlockModel::ToolResult {
                            tool_use_id,
                            content,
                            is_error,
                        }
                        &&& tool_use_id == calls[k].id
                        &&& content == "interrupted by the user before execution"@
                        &&& is_error == Some(true)
                    }
            } else {
                after == messages
            }
        }),
{
    let last = messages.last();
    let places = law_calls_are_the_tool_uses(last.content);
    if places.len() > 0 {
        assert(last.content[places[0]] is ToolUse);
    }
}

} // verus!
