//! Keeping a conversation within the context budget.

use vstd::prelude::*;
use vstd::string::*;

use crate::agent::history::{
    alternating, answered_at, answered_ids, answered_with, calls_of, closed_history,
    law_reply_keeps_history_open, law_results_close_history, open_history, replied, result_block,
};
use crate::api::types::{
    block_models, message_models, BlockModel, ContentBlock, Message, MessageModel, Role,
};
use crate::json::text_of_document;
use crate::text::number::{add_up, saturated};
use crate::text::{byte_len, utf8_len};

verus! {

broadcast use {
    vstd::string::group_string_axioms,
    vstd::seq_lib::group_seq_properties,
};

/// Rough context budget in characters (~4 chars/token). Above this, old tool
/// results are cleared — they are the bulk of agent context and the cheapest
/// to drop, since the model has already acted on them.
pub const CONTEXT_CLEAR_CHARS: usize = 600_000;

/// Never clear tool results in the most recent messages.
pub const KEEP_RECENT_MESSAGES: usize = 8;

/// The text in place of a tool result that was cleared.
pub const CLEARED_MARKER: &'static str = "[old tool result cleared to save context]";

// ---------------------------------------------------------------------------
// Size
// ---------------------------------------------------------------------------

/// The size of a block: the bytes of its text.
pub open spec fn block_size(block: BlockModel) -> nat {
    match block {
        BlockModel::Text { text } => utf8_len(text),
        BlockModel::Thinking { thinking, .. } => utf8_len(thinking),
        BlockModel::RedactedThinking { data } => utf8_len(data),
        BlockModel::ToolUse { input, .. } => utf8_len(text_of_document(input)),
        BlockModel::ToolResult { content, .. } => utf8_len(content),
    }
}

/// The size of several blocks together.
pub open spec fn content_size(content: Seq<BlockModel>) -> nat
    decreases content.len(),
{
    if content.len() == 0 {
        0
    } else {
        content_size(content.drop_last()) + block_size(content.last())
    }
}

/// The size of a conversation.
pub open spec fn conversation_size(messages: Seq<MessageModel>) -> nat
    decreases messages.len(),
{
    if messages.len() == 0 {
        0
    } else {
        conversation_size(messages.drop_last()) + content_size(messages.last().content)
    }
}

fn size_of_block(block: &ContentBlock) -> (size: usize)
    ensures
        size == block_size(block@),
{
    match block {
        ContentBlock::Text { text } => byte_len(text.as_str()),
        ContentBlock::Thinking { thinking, .. } => byte_len(thinking.as_str()),
        ContentBlock::RedactedThinking { data } => byte_len(data.as_str()),
        ContentBlock::ToolUse { input, .. } => byte_len(input.to_text().as_str()),
        ContentBlock::ToolResult { content, .. } => byte_len(content.as_str()),
    }
}

/// Size estimate of the conversation: the bytes of the block texts.
pub fn approx_chars(messages: &[Message]) -> (size: usize)
    ensures
        size == saturated(conversation_size(message_models(messages@))),
{
    let ghost all = message_models(messages@);
    let mut total: usize = 0;
    let mut i: usize = 0;
    assert(all.take(0) == Seq::<MessageModel>::empty());
    while i < messages.len()
        invariant
            i <= messages@.len(),
            all == message_models(messages@),
            total == saturated(conversation_size(all.take(i as int))),
        decreases messages@.len() - i,
    {
        let content: &Vec<ContentBlock> = &messages[i].content;
        let ghost blocks = block_models(content@);
        let ghost earlier = conversation_size(all.take(i as int));
        let mut k: usize = 0;
        assert(blocks.take(0) == Seq::<BlockModel>::empty());
        while k < content.len()
            invariant
                k <= content@.len(),
                blocks == block_models(content@),
                total == saturated(earlier + content_size(blocks.take(k as int))),
            decreases content@.len() - k,
        {
            assert(blocks.take(k + 1).drop_last() == blocks.take(k as int));
            total = add_up(total, size_of_block(&content[k]));
            k += 1;
        }
        assert(blocks.take(k as int) == blocks);
        assert(all.take(i + 1).drop_last() == all.take(i as int));
        assert(all.take(i + 1).last().content == blocks);
        i += 1;
    }
    assert(all.take(i as int) == all);
    total
}

// ---------------------------------------------------------------------------
// Clearing tool results
// ---------------------------------------------------------------------------

/// Whether a block is a tool result that takes more room than the marker.
pub open spec fn clearable(block: BlockModel) -> bool {
    match block {
        BlockModel::ToolResult { content, .. } => utf8_len(content) > utf8_len(CLEARED_MARKER@),
        _ => false,
    }
}

/// A block after clearing.
pub open spec fn cleared_block(block: BlockModel) -> BlockModel {
    match block {
        BlockModel::ToolResult { tool_use_id, content, is_error } => if clearable(block) {
            BlockModel::ToolResult { tool_use_id, content: CLEARED_MARKER@, is_error }
        } else {
            block
        },
        _ => block,
    }
}

/// A message after clearing.
pub open spec fn cleared_message(message: MessageModel) -> MessageModel {
    MessageModel {
        role: message.role,
        content: message.content.map_values(|b: BlockModel| cleared_block(b)),
    }
}

/// How many blocks clearing changes.
pub open spec fn clearable_blocks(content: Seq<BlockModel>) -> nat
    decreases content.len(),
{
    if content.len() == 0 {
        0
    } else {
        clearable_blocks(content.drop_last()) + if clearable(content.last()) {
            1nat
        } else {
            0nat
        }
    }
}

/// A conversation whose first `n` messages are cleared.
pub open spec fn cleared_to(messages: Seq<MessageModel>, n: int) -> Seq<MessageModel> {
    Seq::new(
        messages.len(),
        |i: int|
            if i < n {
                cleared_message(messages[i])
            } else {
                messages[i]
            },
    )
}

/// How many blocks change when the first `n` messages are cleared.
pub open spec fn clear_count(messages: Seq<MessageModel>, n: int) -> nat
    decreases n,
{
    if n <= 0 || n > messages.len() {
        0
    } else {
        clear_count(messages, n - 1) + clearable_blocks(messages[n - 1].content)
    }
}

/// How many messages are old enough to be cleared.
pub open spec fn cutoff(messages: Seq<MessageModel>) -> int {
    if messages.len() > KEEP_RECENT_MESSAGES {
        messages.len() - KEEP_RECENT_MESSAGES
    } else {
        0
    }
}

/// The fewest messages, from `n` on, whose clearing brings the conversation
/// within the budget, or all that are old enough.
pub open spec fn trim_point_from(messages: Seq<MessageModel>, n: int) -> int
    decreases cutoff(messages) - n,
{
    if n >= cutoff(messages) {
        n
    } else if conversation_size(cleared_to(messages, n + 1)) <= CONTEXT_CLEAR_CHARS {
        n + 1
    } else {
        trim_point_from(messages, n + 1)
    }
}

/// How many messages are cleared: none where the conversation is within the
/// budget.
pub open spec fn trim_point(messages: Seq<MessageModel>) -> int {
    if conversation_size(messages) <= CONTEXT_CLEAR_CHARS {
        0
    } else {
        trim_point_from(messages, 0)
    }
}

/// The conversation after trimming.
pub open spec fn trimmed(messages: Seq<MessageModel>) -> Seq<MessageModel> {
    cleared_to(messages, trim_point(messages))
}

/// Clears the tool results of a message, and counts them.
fn clear_results(message: &mut Message) -> (cleared: usize)
    ensures
        final(message)@ == cleared_message(old(message)@),
        cleared == clearable_blocks(old(message)@.content),
{
    let ghost start = message@;
    let limit: usize = byte_len(CLEARED_MARKER);
    let mut cleared: usize = 0;
    let mut k: usize = 0;
    assert(start.content.take(0) == Seq::<BlockModel>::empty());
    while k < message.content.len()
        invariant
            k <= message.content@.len(),
            message.content@.len() == start.content.len(),
            message.role == start.role,
            limit == utf8_len(CLEARED_MARKER@),
            cleared <= k,
            cleared == clearable_blocks(start.content.take(k as int)),
            forall|j: int|
                0 <= j < start.content.len() ==> (#[trigger] message.content@[j])@ == if j < k {
                    cleared_block(start.content[j])
                } else {
                    start.content[j]
                },
        decreases message.content@.len() - k,
    {
        assert(start.content.take(k + 1).drop_last() == start.content.take(k as int));
        match &mut message.content[k] {
            ContentBlock::ToolResult { content, .. } => {
                if byte_len(content.as_str()) > limit {
                    *content = CLEARED_MARKER.to_owned();
                    cleared += 1;
                }
            },
            _ => {},
        }
        k += 1;
    }
    assert(start.content.take(k as int) == start.content);
    assert(message@.content == cleared_message(start).content);
    cleared
}

/// Clears old tool results, oldest first, until the conversation is within
/// the budget, and counts them.
pub fn trim(messages: &mut Vec<Message>) -> (cleared: u128)
    ensures
        message_models(final(messages)@) == trimmed(message_models(old(messages)@)),
        cleared == clear_count(
            message_models(old(messages)@),
            trim_point(message_models(old(messages)@)),
        ),
{
    let ghost start = message_models(messages@);
    assert(cleared_to(start, 0) == start);
    if approx_chars(messages.as_slice()) <= CONTEXT_CLEAR_CHARS {
        return 0;
    }
    let total: usize = messages.len();
    let oldest: usize = if total > KEEP_RECENT_MESSAGES {
        total - KEEP_RECENT_MESSAGES
    } else {
        0
    };
    let mut cleared: u128 = 0;
    let mut index: usize = 0;
    while index < oldest
        invariant
            index <= oldest <= total,
            total == messages@.len(),
            start == message_models(old(messages)@),
            start.len() == total,
            oldest == cutoff(start),
            conversation_size(start) > CONTEXT_CLEAR_CHARS,
            message_models(messages@) == cleared_to(start, index as int),
            cleared == clear_count(start, index as int),
            cleared <= index * 0xffff_ffff_ffff_ffff,
            trim_point(start) == trim_point_from(start, index as int),
        decreases oldest - index,
    {
        let ghost before = messages@;
        assert(message_models(before)[index as int] == start[index as int]);
        let changed: usize = clear_results(&mut messages[index]);
        assert forall|j: int| 0 <= j < total implies (#[trigger] messages@[j])@ == cleared_to(
            start,
            index + 1,
        )[j] by {
            assert(before[j]@ == message_models(before)[j]);
        }
        assert(message_models(messages@) == cleared_to(start, index + 1));
        cleared = cleared + changed as u128;
        index += 1;
        if approx_chars(messages.as_slice()) <= CONTEXT_CLEAR_CHARS {
            return cleared;
        }
    }
    cleared
}

// ---------------------------------------------------------------------------
// What trimming keeps
// ---------------------------------------------------------------------------

proof fn lemma_trim_point_from(messages: Seq<MessageModel>, n: int)
    requires
        0 <= n <= cutoff(messages),
    ensures
        n <= trim_point_from(messages, n) <= cutoff(messages),
        trim_point_from(messages, n) == cutoff(messages) || conversation_size(
            cleared_to(messages, trim_point_from(messages, n)),
        ) <= CONTEXT_CLEAR_CHARS,
    decreases cutoff(messages) - n,
{
    if n < cutoff(messages) && conversation_size(cleared_to(messages, n + 1))
        > CONTEXT_CLEAR_CHARS {
        lemma_trim_point_from(messages, n + 1);
    }
}

proof fn lemma_trim_point(messages: Seq<MessageModel>)
    ensures
        0 <= trim_point(messages) <= cutoff(messages),
        trim_point(messages) == cutoff(messages) || conversation_size(trimmed(messages))
            <= CONTEXT_CLEAR_CHARS,
{
    assert(cleared_to(messages, 0) == messages);
    lemma_trim_point_from(messages, 0);
}

proof fn lemma_content_size_cleared(content: Seq<BlockModel>)
    ensures
        content_size(content.map_values(|b: BlockModel| cleared_block(b))) <= content_size(content),
    decreases content.len(),
{
    if content.len() > 0 {
        lemma_content_size_cleared(content.drop_last());
        assert(content.map_values(|b: BlockModel| cleared_block(b)).drop_last()
            == content.drop_last().map_values(|b: BlockModel| cleared_block(b)));
    }
}

proof fn lemma_size_cleared(messages: Seq<MessageModel>, n: int)
    ensures
        conversation_size(cleared_to(messages, n)) <= conversation_size(messages),
    decreases messages.len(),
{
    if messages.len() > 0 {
        lemma_size_cleared(messages.drop_last(), n);
        assert(cleared_to(messages, n).drop_last() == cleared_to(messages.drop_last(), n));
        lemma_content_size_cleared(messages.last().content);
    }
}

/// Trimming leaves a conversation within the budget alone. It never makes one
/// larger, and stops at the budget unless every old message is cleared.
pub proof fn law_trim_works_towards_the_budget(messages: Seq<MessageModel>)
    ensures
        conversation_size(messages) <= CONTEXT_CLEAR_CHARS ==> trimmed(messages) == messages,
        conversation_size(trimmed(messages)) <= conversation_size(messages),
        conversation_size(trimmed(messages)) <= CONTEXT_CLEAR_CHARS || trimmed(messages)
            == cleared_to(messages, cutoff(messages)),
{
    lemma_trim_point(messages);
    assert(cleared_to(messages, 0) == messages);
    lemma_size_cleared(messages, trim_point(messages));
}

/// Trimming touches neither the most recent messages nor anything but the
/// content of tool results.
pub proof fn law_trim_keeps_recent_messages(messages: Seq<MessageModel>)
    ensures
        trimmed(messages).len() == messages.len(),
        forall|i: int|
            messages.len() - KEEP_RECENT_MESSAGES <= i < messages.len() && 0 <= i
                ==> #[trigger] trimmed(messages)[i] == messages[i],
        forall|i: int|
            0 <= i < messages.len() ==> {
                &&& (#[trigger] trimmed(messages)[i]).role == messages[i].role
                &&& trimmed(messages)[i].content.len() == messages[i].content.len()
            },
        forall|i: int, k: int|
            0 <= i < messages.len() && 0 <= k < messages[i].content.len() ==> {
                let now = #[trigger] trimmed(messages)[i].content[k];
                now == messages[i].content[k] || {
                    &&& clearable(messages[i].content[k])
                    &&& now == cleared_block(messages[i].content[k])
                }
            },
{
    lemma_trim_point(messages);
}

proof fn lemma_calls_cleared(content: Seq<BlockModel>)
    ensures
        calls_of(content.map_values(|b: BlockModel| cleared_block(b))) == calls_of(content),
        answered_ids(content.map_values(|b: BlockModel| cleared_block(b))) == answered_ids(content),
    decreases content.len(),
{
    let after = content.map_values(|b: BlockModel| cleared_block(b));
    if content.len() > 0 {
        lemma_calls_cleared(content.drop_last());
        assert(after.drop_last() == content.drop_last().map_values(
            |b: BlockModel| cleared_block(b),
        ));
    }
}

/// Trimming keeps a conversation acceptable to the API: the turns alternate
/// and the same tool calls are answered.
pub proof fn law_trim_keeps_history(messages: Seq<MessageModel>)
    ensures
        open_history(messages) ==> open_history(trimmed(messages)),
        closed_history(messages) ==> closed_history(trimmed(messages)),
{
    let after = trimmed(messages);
    assert forall|i: int| 0 <= i < messages.len() implies {
        &&& (#[trigger] after[i]).role == messages[i].role
        &&& calls_of(after[i].content) == calls_of(messages[i].content)
        &&& answered_ids(after[i].content) == answered_ids(messages[i].content)
    } by {
        lemma_calls_cleared(messages[i].content);
    }
    if alternating(messages) {
        assert(alternating(after)) by {
            assert forall|i: int| 0 <= i < after.len() implies (#[trigger] after[i]).role == if i
                % 2 == 0 {
                Role::User
            } else {
                Role::Assistant
            } by {
                assert(messages[i].role == after[i].role);
            }
        }
    }
    assert forall|i: int| 0 <= i < messages.len() && answered_at(messages, i) implies
        #[trigger] answered_at(after, i) by {
        assert(after[i].role == messages[i].role);
        if i + 1 < messages.len() {
            assert(after[i + 1].role == messages[i + 1].role);
        }
    }
    if open_history(messages) {
        assert forall|i: int| 0 <= i < after.len() - 1 implies #[trigger] answered_at(after, i) by {
            assert(answered_at(messages, i));
        }
    }
    if closed_history(messages) {
        assert forall|i: int| 0 <= i < after.len() implies #[trigger] answered_at(after, i) by {
            assert(answered_at(messages, i));
        }
    }
}

/// A round of a turn — trim, reply, a result for each call of the reply — goes
/// from a conversation that the API accepts and that waits for the assistant
/// to another one.
pub proof fn law_round_keeps_history(
    messages: Seq<MessageModel>,
    content: Seq<BlockModel>,
    outcomes: Seq<(Seq<char>, bool)>,
)
    requires
        closed_history(messages),
        messages.len() > 0,
        messages.last().role == Role::User,
        outcomes.len() == calls_of(content).len(),
    ensures
        ({
            let after = answered_with(
                replied(trimmed(messages), content),
                Seq::new(
                    outcomes.len(),
                    |i: int| result_block(calls_of(content)[i], outcomes[i]),
                ),
            );
            closed_history(after) && after.last().role == Role::User
        }),
{
    let kept = trimmed(messages);
    law_trim_keeps_history(messages);
    law_trim_keeps_recent_messages(messages);
    assert(kept[messages.len() - 1].role == Role::User);
    law_reply_keeps_history_open(kept, content);
    law_results_close_history(replied(kept, content), outcomes);
}

// ---------------------------------------------------------------------------
// What trimming takes away
// ---------------------------------------------------------------------------

/// The size of a conversation is that of all its blocks: parts add up, and a
/// message counts what its blocks count, each the bytes of its text.
pub proof fn law_sizes_add_up(
    first: Seq<MessageModel>,
    second: Seq<MessageModel>,
    left: Seq<BlockModel>,
    right: Seq<BlockModel>,
    role: Role,
)
    ensures
        conversation_size(first + second) == conversation_size(first) + conversation_size(second),
        content_size(left + right) == content_size(left) + content_size(right),
        conversation_size(seq![MessageModel { role, content: left }]) == content_size(left),
        conversation_size(Seq::empty()) == 0,
        content_size(Seq::empty()) == 0,
    decreases second.len() + right.len(),
{
    let message = MessageModel { role, content: left };
    assert(seq![message].drop_last() == Seq::<MessageModel>::empty());
    assert(conversation_size(Seq::<MessageModel>::empty()) == 0);
    if second.len() > 0 {
        assert((first + second).drop_last() == first + second.drop_last());
        law_sizes_add_up(first, second.drop_last(), left, right, role);
    } else {
        assert(first + second == first);
        if right.len() > 0 {
            law_sizes_add_up(first, second, left, right.drop_last(), role);
        }
    }
    if right.len() > 0 {
        assert((left + right).drop_last() == left + right.drop_last());
    } else {
        assert(left + right == left);
    }
}

/// A block counts the bytes of what it says, whatever its kind.
pub proof fn law_blocks_count_their_bytes(block: BlockModel)
    ensures
        content_size(seq![block]) == match block {
            BlockModel::Text { text } => utf8_len(text),
            BlockModel::Thinking { thinking, .. } => utf8_len(thinking),
            BlockModel::RedactedThinking { data } => utf8_len(data),
            BlockModel::ToolUse { input, .. } => utf8_len(text_of_document(input)),
            BlockModel::ToolResult { content, .. } => utf8_len(content),
        },
{
    assert(seq![block].drop_last() == Seq::<BlockModel>::empty());
    assert(content_size(Seq::<BlockModel>::empty()) == 0);
}

/// Whether no tool result of a message takes more room than the marker.
pub open spec fn all_cleared(message: MessageModel) -> bool {
    forall|k: int|
        0 <= k < message.content.len() ==> (
        #[trigger] message.content[k] matches BlockModel::ToolResult { content, .. } ==> utf8_len(
            content,
        ) <= utf8_len("[old tool result cleared to save context]"@))
}

proof fn lemma_cleared_message(message: MessageModel)
    ensures
        all_cleared(cleared_message(message)),
        all_cleared(message) ==> cleared_message(message) == message,
{
    let now = cleared_message(message);
    assert forall|k: int| 0 <= k < now.content.len() implies (
    #[trigger] now.content[k] matches BlockModel::ToolResult { content, .. } ==> utf8_len(content)
        <= utf8_len("[old tool result cleared to save context]"@)) by {
        assert(now.content[k] == cleared_block(message.content[k]));
    }
    if all_cleared(message) {
        assert forall|k: int| 0 <= k < now.content.len() implies now.content[k]
            == message.content[k] by {
            assert(message.content[k] matches BlockModel::ToolResult { content, .. } ==> utf8_len(
                content,
            ) <= utf8_len("[old tool result cleared to save context]"@));
        }
        assert(now.content == message.content);
    }
}

/// Trimming puts the marker in the place of tool results that take more room
/// than it, and of each keeps the call that it answers and whether it is an
/// error. It starts with the oldest: a message is changed only after no message
/// before it has a result left to clear. It goes no further than it must: with
/// the messages before a changed one trimmed and the rest as it was, the
/// conversation was over the budget still. And it goes on until the conversation
/// is within the budget or no message but the eight most recent has a result
/// left to clear.
pub proof fn law_trim_clears_the_oldest_results(messages: Seq<MessageModel>)
    ensures
        ({
            let now = trimmed(messages);
            &&& forall|i: int, k: int|
                0 <= i < messages.len() && 0 <= k < messages[i].content.len()
                    && now[i].content[k] != messages[i].content[k] ==> {
                    &&& messages[i].content[k] matches BlockModel::ToolResult {
                        tool_use_id,
                        content,
                        is_error,
                    }
                    &&& utf8_len(content) > utf8_len(
                        "[old tool result cleared to save context]"@,
                    )
                    &&& #[trigger] now[i].content[k] == (BlockModel::ToolResult {
                        tool_use_id,
                        content: "[old tool result cleared to save context]"@,
                        is_error,
                    })
                }
            &&& forall|i: int, j: int|
                0 <= j < i < messages.len() && #[trigger] now[i] != messages[i] ==> all_cleared(
                    #[trigger] now[j],
                )
            &&& forall|i: int|
                0 <= i < messages.len() && #[trigger] now[i] != messages[i] ==> conversation_size(
                    now.take(i) + messages.skip(i),
                ) > 600_000
            &&& conversation_size(now) <= 600_000 || forall|i: int|
                0 <= i < messages.len() - 8 ==> all_cleared(#[trigger] now[i])
        }),
{
    let now = trimmed(messages);
    let point = trim_point(messages);
    lemma_trim_point(messages);
    assert forall|i: int, j: int|
        0 <= j < i < messages.len() && #[trigger] now[i] != messages[i] implies all_cleared(
        #[trigger] now[j],
    ) by {
        assert(i < point);
        lemma_cleared_message(messages[j]);
    }
    assert forall|i: int|
        0 <= i < messages.len() && #[trigger] now[i] != messages[i] implies conversation_size(
        now.take(i) + messages.skip(i),
    ) > 600_000 by {
        assert(i < point);
        assert(now.take(i) + messages.skip(i) == cleared_to(messages, i));
        if i == 0 {
            assert(cleared_to(messages, 0) == messages);
        } else {
            lemma_over_before_the_point(messages, 0, i);
        }
    }
    if conversation_size(now) > 600_000 {
        assert forall|i: int| 0 <= i < messages.len() - 8 implies all_cleared(
            #[trigger] now[i],
        ) by {
            lemma_cleared_message(messages[i]);
        }
    }
}

proof fn lemma_over_before_the_point(messages: Seq<MessageModel>, n: int, i: int)
    requires
        0 <= n < i < trim_point_from(messages, n),
    ensures
        conversation_size(cleared_to(messages, i)) > CONTEXT_CLEAR_CHARS,
    decreases i - n,
{
    if n + 1 < i {
        lemma_over_before_the_point(messages, n + 1, i);
    }
}

/// As many results are counted as are cleared: of one message, those of its
/// blocks that clearing changes, and of several, those of each.
pub proof fn law_changed_results_are_counted(messages: Seq<MessageModel>, n: int)
    requires
        0 <= n < messages.len(),
    ensures
        clear_count(messages, 0) == 0,
        clear_count(messages, n + 1) == clear_count(messages, n) + messages[n].content.filter(
            |b: BlockModel| cleared_block(b) != b,
        ).len(),
{
    lemma_changed_blocks(messages[n].content);
}

proof fn lemma_changed_blocks(content: Seq<BlockModel>)
    ensures
        clearable_blocks(content) == content.filter(|b: BlockModel| cleared_block(b) != b).len(),
    decreases content.len(),
{
    reveal(Seq::filter);
    let changes = |b: BlockModel| cleared_block(b) != b;
    if content.len() > 0 {
        lemma_changed_blocks(content.drop_last());
        let last = content.last();
        assert(changes(last) <==> clearable(last));
    }
}

} // verus!
