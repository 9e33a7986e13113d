//! The agent loop: send the conversation, run the tools that the model asks
//! for, feed the results back, until the model ends its turn.

pub mod context;
pub mod history;
pub mod subagent;

use vstd::prelude::*;
use vstd::string::*;

use crate::agent::context::{clear_count, trim, trim_point, trimmed};
use crate::agent::history::{
    answered_with, calls_of, prompted, repaired, replied, result_block, tool_calls, CallModel,
    ToolCall,
};
use crate::api::client::{holds_prompt, Client};
use crate::api::types::{
    block_models, copy_blocks, definition_models, message_models, ApiRequest, ApiResponse,
    BlockModel, ContentBlock, Message, MessageModel, Role, ToolDefinition, Usage,
};
use crate::json::{Json, JsonModel};
use crate::text::number::{decimal, decimal_text};
use crate::text::same_text;
use crate::tools::{Registry, ToolModel};

verus! {

broadcast use {
    vstd::string::group_string_axioms,
    vstd::seq_lib::group_seq_properties,
};

/// How many requests one turn may take.
pub const MAX_ITERATIONS: usize = 50;

// ---------------------------------------------------------------------------
// Events
// ---------------------------------------------------------------------------

/// Progress notifications emitted while a turn runs, consumed by the TUI.
#[derive(Debug)]
pub enum AgentEvent {
    /// A streamed fragment of the assistant's reply, in arrival order.
    TextDelta(String),
    /// The complete text of one finished reply block (finalizes the deltas).
    AssistantText(String),
    ToolCall { name: String, input: Json },
    ToolResult { name: String, output: String, is_error: bool },
    /// Usage of one API round-trip; `input_tokens + output_tokens` of the
    /// latest one approximates the current context size.
    ApiUsage { usage: Usage },
    TurnComplete,
    /// The user cancelled the running turn.
    Interrupted,
    /// Background information for the UI (reindexing, context trimming...).
    Info(String),
    Error(String),
}

/// What an [`AgentEvent`] stands for.
pub ghost enum EventModel {
    TextDelta(Seq<char>),
    AssistantText(Seq<char>),
    ToolCall { name: Seq<char>, input: JsonModel },
    ToolResult { name: Seq<char>, output: Seq<char>, is_error: bool },
    ApiUsage { usage: Usage },
    TurnComplete,
    Interrupted,
    Info(Seq<char>),
    Error(Seq<char>),
}

impl View for AgentEvent {
    type V = EventModel;

    open spec fn view(&self) -> EventModel {
        match *self {
            AgentEvent::TextDelta(text) => EventModel::TextDelta(text@),
            AgentEvent::AssistantText(text) => EventModel::AssistantText(text@),
            AgentEvent::ToolCall { name, input } => EventModel::ToolCall {
                name: name@,
                input: input@,
            },
            AgentEvent::ToolResult { name, output, is_error } => EventModel::ToolResult {
                name: name@,
                output: output@,
                is_error,
            },
            AgentEvent::ApiUsage { usage } => EventModel::ApiUsage { usage },
            AgentEvent::TurnComplete => EventModel::TurnComplete,
            AgentEvent::Interrupted => EventModel::Interrupted,
            AgentEvent::Info(text) => EventModel::Info(text@),
            AgentEvent::Error(text) => EventModel::Error(text@),
        }
    }
}

/// What a list of events stands for.
pub open spec fn event_models(events: Seq<AgentEvent>) -> Seq<EventModel> {
    events.map_values(|e: AgentEvent| e@)
}

/// The event for a streamed fragment; an empty one is not worth an event.
pub fn fragment_event(fragment: &str) -> (event: Option<AgentEvent>)
    ensures
        match event {
            Some(e) => fragment@.len() > 0 && e@ == EventModel::TextDelta(fragment@),
            None => fragment@.len() == 0,
        },
{
    if fragment.is_empty() {
        None
    } else {
        Some(AgentEvent::TextDelta(fragment.to_owned()))
    }
}

// ---------------------------------------------------------------------------
// One turn
// ---------------------------------------------------------------------------

/// How far a turn has come.
#[derive(Debug)]
pub struct Turn {
    /// Requests made so far.
    pub requests: usize,
    /// The latest text of the assistant.
    pub final_text: String,
}

/// Why a turn fails after its request went through.
#[derive(Clone, Copy, Debug, PartialEq, Eq, Structural)]
pub enum TurnError {
    Refused,
    CutOff,
    TooManyIterations,
}

/// The words for a failed turn.
pub open spec fn turn_error_words(error: TurnError) -> Seq<char> {
    match error {
        TurnError::Refused => "the model declined this request (stop_reason: refusal)"@,
        TurnError::CutOff => "response was cut off by the max_tokens limit"@,
        TurnError::TooManyIterations => "agent stopped after "@ + decimal(MAX_ITERATIONS as nat)
            + " tool iterations without finishing"@,
    }
}

impl TurnError {
    /// The error in words.
    pub fn message(&self) -> (words: String)
        ensures
            words@ == turn_error_words(*self),
    {
        match self {
            TurnError::Refused => {
                "the model declined this request (stop_reason: refusal)".to_owned()
            },
            TurnError::CutOff => "response was cut off by the max_tokens limit".to_owned(),
            TurnError::TooManyIterations => {
                let limit: String = decimal_text(MAX_ITERATIONS as u128);
                "agent stopped after ".to_owned().concat(limit.as_str()).concat(
                    " tool iterations without finishing",
                )
            },
        }
    }
}

/// What to do after a reply.
#[derive(Debug)]
pub enum Progress {
    /// Run these tools and hand their results back.
    RunTools(Vec<ToolCall>),
    /// The turn is over; this is its final text.
    Done(String),
    /// The turn has failed.
    Failed(TurnError),
}

/// What a [`Progress`] stands for.
pub ghost enum ProgressModel {
    RunTools(Seq<CallModel>),
    Done(Seq<char>),
    Failed(TurnError),
}

impl View for Progress {
    type V = ProgressModel;

    open spec fn view(&self) -> ProgressModel {
        match *self {
            Progress::RunTools(calls) => ProgressModel::RunTools(
                calls@.map_values(|c: ToolCall| c@),
            ),
            Progress::Done(text) => ProgressModel::Done(text@),
            Progress::Failed(error) => ProgressModel::Failed(error),
        }
    }
}

/// The texts of a reply that are not empty, in order.
pub open spec fn spoken(content: Seq<BlockModel>) -> Seq<Seq<char>>
    decreases content.len(),
{
    if content.len() == 0 {
        Seq::empty()
    } else {
        match content.last() {
            BlockModel::Text { text } => if text.len() > 0 {
                spoken(content.drop_last()).push(text)
            } else {
                spoken(content.drop_last())
            },
            _ => spoken(content.drop_last()),
        }
    }
}

/// The latest text after a reply: the last that it speaks, or the one before
/// it.
pub open spec fn latest_text(before: Seq<char>, content: Seq<BlockModel>) -> Seq<char> {
    if spoken(content).len() > 0 {
        spoken(content).last()
    } else {
        before
    }
}

/// What a stop reason leads to.
pub open spec fn progress_of(
    stop_reason: Seq<char>,
    content: Seq<BlockModel>,
    final_text: Seq<char>,
) -> ProgressModel {
    if stop_reason == "tool_use"@ {
        ProgressModel::RunTools(calls_of(content))
    } else if stop_reason == "refusal"@ {
        ProgressModel::Failed(TurnError::Refused)
    } else if stop_reason == "max_tokens"@ {
        ProgressModel::Failed(TurnError::CutOff)
    } else {
        ProgressModel::Done(final_text)
    }
}

/// The events that a reply leads to: its usage, each text that it speaks, and
/// the end of the turn where it ends.
pub open spec fn reply_events(
    usage: Usage,
    content: Seq<BlockModel>,
    progress: ProgressModel,
) -> Seq<EventModel> {
    let texts = seq![EventModel::ApiUsage { usage }] + spoken(content).map_values(
        |t: Seq<char>| EventModel::AssistantText(t),
    );
    if progress is Done {
        texts.push(EventModel::TurnComplete)
    } else {
        texts
    }
}

/// A request that is ready to be sent, and the events that go before it.
#[derive(Debug)]
pub struct Prepared {
    pub request: ApiRequest,
    pub event: Option<AgentEvent>,
}

/// How a turn ended, as seen from outside.
#[derive(Debug)]
pub enum TurnEnd {
    /// It came to its end.
    Finished,
    /// It failed, for a reason in words.
    Failed(String),
    /// The user cancelled it mid-flight.
    Interrupted,
}

/// The event for the end of a turn. A turn that came to its end has told so
/// itself.
pub open spec fn end_event(end: TurnEnd) -> Option<EventModel> {
    match end {
        TurnEnd::Finished => None,
        TurnEnd::Failed(error) => Some(EventModel::Error(error@)),
        TurnEnd::Interrupted => Some(EventModel::Interrupted),
    }
}

/// The conversation after a turn ended. What an interrupted turn left open is
/// repaired.
pub open spec fn settled_history(messages: Seq<MessageModel>, end: TurnEnd) -> Seq<MessageModel> {
    if end is Interrupted {
        repaired(messages)
    } else {
        messages
    }
}

/// The words that tell how many tool results were cleared.
pub open spec fn trim_words(cleared: nat) -> Seq<char> {
    "context trimmed: cleared "@ + decimal(cleared) + " old tool result(s)"@
}

/// Whether an event tells how many tool results were cleared, and is there
/// just if any were.
pub open spec fn tells_of_trim(event: Option<AgentEvent>, cleared: nat) -> bool {
    match event {
        Some(e) => cleared > 0 && e@ == EventModel::Info(trim_words(cleared)),
        None => cleared == 0,
    }
}

/// Drives the model/tool loop: send messages, execute requested tools,
/// feed results back, and repeat until the model ends its turn.
#[derive(Debug)]
pub struct AgentLoop {
    pub client: Client,
    pub registry: Registry,
    pub system: String,
    pub messages: Vec<Message>,
}

impl AgentLoop {
    /// What the loop has of the conversation.
    pub open spec fn history(&self) -> Seq<MessageModel> {
        message_models(self.messages@)
    }

    /// Whether only the conversation differs between two loops.
    pub open spec fn same_setup(&self, other: &AgentLoop) -> bool {
        self.client == other.client && self.registry == other.registry && self.system
            == other.system
    }

    /// A loop without a conversation.
    pub fn new(client: Client, registry: Registry, system: String) -> (agent: AgentLoop)
        ensures
            agent.client == client,
            agent.registry == registry,
            agent.system == system,
            agent.history() == Seq::<MessageModel>::empty(),
    {
        let agent: AgentLoop = AgentLoop { client, registry, system, messages: Vec::new() };
        assert(agent.history() == Seq::<MessageModel>::empty());
        agent
    }

    /// Drop the conversation history, starting the next turn from scratch.
    pub fn clear(&mut self)
        ensures
            final(self).history() == Seq::<MessageModel>::empty(),
            final(self).same_setup(old(self)),
    {
        self.messages.clear();
        assert(self.history() == Seq::<MessageModel>::empty());
    }

    /// Restore API-valid history after a turn was cancelled mid-flight: any
    /// trailing assistant tool_use without a result gets an "interrupted"
    /// tool_result, since the API rejects unanswered tool calls.
    pub fn repair_interrupted(&mut self)
        ensures
            final(self).history() == repaired(old(self).history()),
            final(self).same_setup(old(self)),
    {
        history::repair(&mut self.messages);
    }

    /// Starts a turn. After an interrupted turn the history may already end in
    /// a user message; the input is merged into it instead of stacking two
    /// consecutive user turns.
    pub fn begin_turn(&mut self, user_input: String) -> (turn: Turn)
        ensures
            final(self).history() == prompted(old(self).history(), user_input@),
            final(self).same_setup(old(self)),
            turn.requests == 0,
            turn.final_text@ == Seq::<char>::empty(),
    {
        history::prompt(&mut self.messages, user_input);
        Turn { requests: 0, final_text: String::new() }
    }

    /// Takes note of the end of a turn, and gives the event for it. A cancelled
    /// turn may leave a history that the API would reject, so it is repaired.
    pub fn end_turn(&mut self, end: TurnEnd) -> (event: Option<AgentEvent>)
        ensures
            final(self).same_setup(old(self)),
            final(self).history() == settled_history(old(self).history(), end),
            match event {
                Some(e) => end_event(end) == Some(e@),
                None => end_event(end) is None,
            },
    {
        match end {
            TurnEnd::Finished => None,
            TurnEnd::Failed(error) => Some(AgentEvent::Error(error)),
            TurnEnd::Interrupted => {
                self.repair_interrupted();
                Some(AgentEvent::Interrupted)
            },
        }
    }

    /// Keep the conversation within the context budget by clearing old tool
    /// results (oldest first, recent messages untouched). Trades a prompt
    /// cache miss for a bounded context, so it only fires past the budget.
    pub fn trim_context(&mut self) -> (event: Option<AgentEvent>)
        ensures
            final(self).history() == trimmed(old(self).history()),
            final(self).same_setup(old(self)),
            tells_of_trim(
                event,
                clear_count(old(self).history(), trim_point(old(self).history())),
            ),
    {
        let cleared: u128 = trim(&mut self.messages);
        if cleared > 0 {
            let count: String = decimal_text(cleared);
            Some(
                AgentEvent::Info(
                    "context trimmed: cleared ".to_owned().concat(count.as_str()).concat(
                        " old tool result(s)",
                    ),
                ),
            )
        } else {
            None
        }
    }

    /// The next request of a turn, unless it has used up its requests.
    pub fn next_request(&mut self, turn: &mut Turn) -> (res: Result<Prepared, TurnError>)
        ensures
            final(self).same_setup(old(self)),
            final(turn).final_text == old(turn).final_text,
            match res {
                Ok(prepared) => {
                    &&& old(turn).requests < MAX_ITERATIONS
                    &&& final(turn).requests == old(turn).requests + 1
                    &&& final(self).history() == trimmed(old(self).history())
                    &&& tells_of_trim(
                        prepared.event,
                        clear_count(old(self).history(), trim_point(old(self).history())),
                    )
                    &&& prepared.request.model@ == old(self).client.model@
                    &&& prepared.request.max_tokens == old(self).client.max_tokens
                    &&& prepared.request.stream
                    &&& holds_prompt(prepared.request.system, Some(old(self).system))
                    &&& message_models(prepared.request.messages@) == final(self).history()
                    &&& definition_models(prepared.request.tools@) == old(
                        self,
                    ).registry@.map_values(|t: ToolModel| t.definition)
                },
                Err(error) => {
                    &&& old(turn).requests >= MAX_ITERATIONS
                    &&& error == TurnError::TooManyIterations
                    &&& final(turn).requests == old(turn).requests
                    &&& final(self).history() == old(self).history()
                },
            },
    {
        if turn.requests >= MAX_ITERATIONS {
            return Err(TurnError::TooManyIterations);
        }
        turn.requests = turn.requests + 1;
        let event: Option<AgentEvent> = self.trim_context();
        let tools: Vec<ToolDefinition> = self.registry.definitions();
        let messages: Vec<Message> = history::copy_messages(self.messages.as_slice());
        let system: String = self.system.clone();
        let request: ApiRequest = self.client.request(Some(system), messages, tools);
        Ok(Prepared { request, event })
    }

    /// Takes in the reply to a request: what to do next, and the events that
    /// it leads to.
    pub fn on_response(&mut self, turn: &mut Turn, response: ApiResponse) -> (res: (
        Progress,
        Vec<AgentEvent>,
    ))
        ensures
            final(self).same_setup(old(self)),
            final(self).history() == replied(
                old(self).history(),
                block_models(response.content@),
            ),
            final(turn).requests == old(turn).requests,
            final(turn).final_text@ == latest_text(
                old(turn).final_text@,
                block_models(response.content@),
            ),
            res.0@ == progress_of(
                response.stop_reason@,
                block_models(response.content@),
                final(turn).final_text@,
            ),
            event_models(res.1@) == reply_events(
                response.usage,
                block_models(response.content@),
                res.0@,
            ),
    {
        let ghost content = block_models(response.content@);
        let ghost earlier = turn.final_text@;
        let mut events: Vec<AgentEvent> = Vec::new();
        events.push(AgentEvent::ApiUsage { usage: response.usage });
        let copies: Vec<ContentBlock> = copy_blocks(response.content.as_slice());
        history::push_reply(&mut self.messages, copies);

        let mut i: usize = 0;
        assert(content.take(0) == Seq::<BlockModel>::empty());
        assert(event_models(events@) == reply_events(
            response.usage,
            content.take(0),
            ProgressModel::Failed(TurnError::Refused),
        ));
        while i < response.content.len()
            invariant
                i <= response.content@.len(),
                content == block_models(response.content@),
                turn.requests == old(turn).requests,
                turn.final_text@ == latest_text(earlier, content.take(i as int)),
                event_models(events@) == reply_events(
                    response.usage,
                    content.take(i as int),
                    ProgressModel::Failed(TurnError::Refused),
                ),
            decreases response.content@.len() - i,
        {
            let ghost before = events@;
            assert(content.take(i + 1).drop_last() == content.take(i as int));
            if let ContentBlock::Text { text } = &response.content[i] {
                if !text.as_str().is_empty() {
                    turn.final_text = text.clone();
                    let event: AgentEvent = AgentEvent::AssistantText(text.clone());
                    events.push(event);
                    assert(event_models(events@) == event_models(before).push(event@));
                    assert(event_models(events@) == reply_events(
                        response.usage,
                        content.take(i + 1),
                        ProgressModel::Failed(TurnError::Refused),
                    ));
                }
            }
            i += 1;
        }
        assert(content.take(i as int) == content);

        let reason: &str = response.stop_reason.as_str();
        let progress: Progress = if same_text(reason, "tool_use") {
            Progress::RunTools(tool_calls(response.content.as_slice()))
        } else if same_text(reason, "refusal") {
            Progress::Failed(TurnError::Refused)
        } else if same_text(reason, "max_tokens") {
            Progress::Failed(TurnError::CutOff)
        } else {
            let ghost before = events@;
            events.push(AgentEvent::TurnComplete);
            assert(event_models(events@) == event_models(before).push(EventModel::TurnComplete));
            Progress::Done(turn.final_text.clone())
        };
        (progress, events)
    }

    /// Hands the results of the requested tools back to the model, all of them
    /// in a single user message.
    pub fn on_tool_results(&mut self, calls: &[ToolCall], outcomes: Vec<Result<String, String>>)
        requires
            calls@.len() == outcomes@.len(),
        ensures
            final(self).same_setup(old(self)),
            final(self).history() == handed_back(old(self).history(), calls@, outcomes@),
    {
        let mut results: Vec<ContentBlock> = Vec::new();
        let mut i: usize = 0;
        while i < calls.len()
            invariant
                i <= calls@.len(),
                calls@.len() == outcomes@.len(),
                results@.len() == i,
                forall|k: int|
                    0 <= k < i ==> (#[trigger] results@[k])@ == result_block(
                        calls@[k]@,
                        outcome_of(outcomes@[k]),
                    ),
            decreases calls@.len() - i,
        {
            let result: ContentBlock = calls[i].result(&outcomes[i]);
            results.push(result);
            i += 1;
        }
        assert(block_models(results@) == Seq::new(
            calls@.len(),
            |i: int| result_block(calls@[i]@, outcome_of(outcomes@[i])),
        ));
        history::push_results(&mut self.messages, results);
    }
}

/// The conversation after the outcomes of calls are handed back.
pub open spec fn handed_back(
    messages: Seq<MessageModel>,
    calls: Seq<ToolCall>,
    outcomes: Seq<Result<String, String>>,
) -> Seq<MessageModel> {
    answered_with(
        messages,
        Seq::new(calls.len(), |i: int| result_block(calls[i]@, outcome_of(outcomes[i]))),
    )
}

/// The text of an outcome, and whether it is an error.
pub open spec fn outcome_of(outcome: Result<String, String>) -> (Seq<char>, bool) {
    match outcome {
        Ok(output) => (output@, false),
        Err(error) => (error@, true),
    }
}

impl ToolCall {
    /// The event that announces the call.
    pub fn started(&self) -> (event: AgentEvent)
        ensures
            event@ == (EventModel::ToolCall { name: self@.name, input: self@.input }),
    {
        AgentEvent::ToolCall { name: self.name.clone(), input: self.input.clone() }
    }

    /// The event that tells how the call went.
    pub fn finished(&self, outcome: &Result<String, String>) -> (event: AgentEvent)
        ensures
            event@ == (EventModel::ToolResult {
                name: self@.name,
                output: outcome_of(*outcome).0,
                is_error: outcome_of(*outcome).1,
            }),
    {
        match outcome {
            Ok(output) => AgentEvent::ToolResult {
                name: self.name.clone(),
                output: output.clone(),
                is_error: false,
            },
            Err(error) => AgentEvent::ToolResult {
                name: self.name.clone(),
                output: error.clone(),
                is_error: true,
            },
        }
    }

    /// The block that hands the outcome back to the model.
    pub fn result(&self, outcome: &Result<String, String>) -> (block: ContentBlock)
        ensures
            block@ == result_block(self@, outcome_of(*outcome)),
            block matches ContentBlock::ToolResult { tool_use_id, content, is_error } && {
                &&& tool_use_id@ == self.id@
                &&& outcome matches Ok(output) ==> content@ == output@ && is_error is None
                &&& outcome matches Err(error) ==> content@ == error@ && is_error == Some(true)
            },
    {
        match outcome {
            Ok(output) => ContentBlock::ToolResult {
                tool_use_id: self.id.clone(),
                content: output.clone(),
                is_error: None,
            },
            Err(error) => ContentBlock::ToolResult {
                tool_use_id: self.id.clone(),
                content: error.clone(),
                is_error: Some(true),
            },
        }
    }
}

// ---------------------------------------------------------------------------
// What a turn hears and says
// ---------------------------------------------------------------------------

/// Handing back the outcomes of calls adds one message of the user's and leaves
/// all others as they are. The block at each place of it answers the call at
/// that place, by its id, with the text of the outcome there, of a success as
/// of a failure; just a failure is marked as an error.
pub proof fn law_results_carry_the_outcomes(
    messages: Seq<MessageModel>,
    calls: Seq<ToolCall>,
    outcomes: Seq<Result<String, String>>,
)
    requires
        calls.len() == outcomes.len(),
    ensures
        ({
            let after = handed_back(messages, calls, outcomes);
            &&& after.len() == messages.len() + 1
            &&& after.take(messages.len() as int) == messages
            &&& after.last().role == Role::User
            &&& after.last().content.len() == calls.len()
            &&& forall|i: int|
                0 <= i < calls.len() ==> {
                    &&& #[trigger] after.last().content[i] matches BlockModel::ToolResult {
                        tool_use_id,
                        content,
                        is_error,
                    }
                    &&& tool_use_id == calls[i].id@
                    &&& outcomes[i] matches Ok(output) ==> content == output@ && is_error is None
                    &&& outcomes[i] matches Err(error) ==> content == error@ && is_error == Some(
                        true,
                    )
                }
        }),
{
}

/// What a reply speaks are its texts that are not empty, in their order and
/// none left out. The places of their blocks are returned.
pub proof fn law_spoken_are_the_texts(content: Seq<BlockModel>) -> (places: Seq<int>)
    ensures
        spoken(content).len() == places.len(),
        forall|k: int|
            0 <= k < places.len() ==> {
                &&& 0 <= #[trigger] places[k] < content.len()
                &&& content[places[k]] matches BlockModel::Text { text }
                &&& text.len() > 0
                &&& spoken(content)[k] == text
            },
        forall|k: int, l: int|
            0 <= k < l < places.len() ==> #[trigger] places[k] < #[trigger] places[l],
        forall|i: int|
            0 <= i < content.len() && (#[trigger] content[i] matches BlockModel::Text { text }
                && text.len() > 0) ==> places.contains(i),
    decreases content.len(),
{
    if content.len() == 0 {
        Seq::empty()
    } else {
        let front = content.drop_last();
        let last = content.len() - 1;
        let before = law_spoken_are_the_texts(front);
        assert forall|k: int| 0 <= k < before.len() implies content[#[trigger] before[k]]
            == front[before[k]] by {}
        let places = if spoken(content).len() > spoken(front).len() {
            before.push(last)
        } else {
            before
        };
        assert forall|i: int|
            0 <= i < content.len() && (#[trigger] content[i] matches BlockModel::Text { text }
                && text.len() > 0) implies places.contains(i) by {
            if i < last {
                assert(front[i] == content[i]);
                let k = choose|k: int| 0 <= k < before.len() && before[k] == i;
                assert(places[k] == i);
            } else {
                assert(places[before.len() as int] == i);
            }
        }
        places
    }
}

/// The latest text after a reply is that of its last block that speaks; a reply
/// that does not speak leaves the latest text as it was.
pub proof fn law_last_text_is_the_latest(before: Seq<char>, content: Seq<BlockModel>)
    ensures
        forall|i: int|
            0 <= i < content.len() && (#[trigger] content[i] matches BlockModel::Text { text }
                && text.len() > 0) && (forall|j: int|
                i < j < content.len() ==> !(#[trigger] content[j] matches BlockModel::Text { text }
                    && text.len() > 0)) ==> content[i] == (BlockModel::Text {
                text: latest_text(before, content),
            }),
        (forall|j: int|
            0 <= j < content.len() ==> !(#[trigger] content[j] matches BlockModel::Text { text }
                && text.len() > 0)) ==> latest_text(before, content) == before,
{
    let places = law_spoken_are_the_texts(content);
    if places.len() > 0 {
        let k = places.len() - 1;
        assert(content[places[k]] is Text);
        assert forall|i: int|
            0 <= i < content.len() && (#[trigger] content[i] matches BlockModel::Text { text }
                && text.len() > 0) && (forall|j: int|
                i < j < content.len() ==> !(#[trigger] content[j] matches BlockModel::Text { text }
                    && text.len() > 0)) implies content[i] == (BlockModel::Text {
            text: latest_text(before, content),
        }) by {
            assert(places.contains(i));
            let l = choose|l: int| 0 <= l < places.len() && places[l] == i;
            if l < k {
                assert(places[l] < places[k]);
                assert(content[places[k]] is Text);
            }
        }
    }
}

/// Just three stop reasons do not end a turn well: the one that asks for tools,
/// which runs every call of the reply, in order, and two that fail the turn,
/// each as its own. With any other the turn is done, and its text is the latest
/// one.
pub proof fn law_stop_reason_decides(
    stop_reason: Seq<char>,
    content: Seq<BlockModel>,
    final_text: Seq<char>,
)
    ensures
        ({
            let progress = progress_of(stop_reason, content, final_text);
            &&& progress is RunTools <==> stop_reason == "tool_use"@
            &&& progress == ProgressModel::Failed(TurnError::Refused) <==> stop_reason
                == "refusal"@
            &&& progress == ProgressModel::Failed(TurnError::CutOff) <==> stop_reason
                == "max_tokens"@
            &&& progress != ProgressModel::Failed(TurnError::TooManyIterations)
            &&& progress matches ProgressModel::RunTools(calls) ==> calls == calls_of(content)
            &&& progress matches ProgressModel::Done(text) ==> text == final_text
        }),
{
    reveal_strlit("tool_use");
    reveal_strlit("refusal");
    reveal_strlit("max_tokens");
    assert("tool_use"@.len() == 8 && "refusal"@.len() == 7 && "max_tokens"@.len() == 10);
}

/// A reply is told in events: first its usage, then each text that it speaks,
/// in order, and last, just where the turn is done, its end.
pub proof fn law_reply_is_told_in_order(
    usage: Usage,
    content: Seq<BlockModel>,
    progress: ProgressModel,
)
    ensures
        ({
            let events = reply_events(usage, content, progress);
            let told = spoken(content);
            &&& events.len() == 1 + told.len() + if progress is Done {
                1int
            } else {
                0int
            }
            &&& events[0] == (EventModel::ApiUsage { usage })
            &&& forall|k: int|
                0 <= k < told.len() ==> events[1 + k] == EventModel::AssistantText(
                    #[trigger] told[k],
                )
            &&& progress is Done ==> events.last() == EventModel::TurnComplete
        }),
{
}

// ---------------------------------------------------------------------------
// The system prompt
// ---------------------------------------------------------------------------

/// The system prompt, up to the place of the repository.
pub const PROMPT_HEAD: &'static str =
    "You are claus, a terminal coding agent. You help with software engineering tasks in the repository at ";

/// The system prompt, after the place of the repository.
pub const PROMPT_TAIL: &'static str =
    ".\n\nUse the available tools to explore, edit and verify code. Prefer rag_search to find relevant code by meaning, search_text for exact strings, and the LSP tools for precise navigation and diagnostics. Verify changes by running builds or tests with the shell tool when possible. For broad subtasks that would flood your context (wide exploration, independent workstreams), delegate to dispatch_agent when it is available.\n\nBe concise. When you finish, summarize what you did.";

/// The system prompt of an agent that works in a directory.
pub open spec fn system_prompt(cwd: Seq<char>) -> Seq<char> {
    PROMPT_HEAD@ + cwd + PROMPT_TAIL@
}

/// The system prompt of an agent that works in a directory.
pub fn default_system_prompt(cwd: &str) -> (prompt: String)
    ensures
        prompt@ == system_prompt(cwd@),
{
    PROMPT_HEAD.to_owned().concat(cwd).concat(PROMPT_TAIL)
}

/// A tool call is announced with its name and input, and told with its name and
/// the text of its outcome, of a success as of a failure.
pub proof fn law_calls_are_told_as_they_went(
    call: ToolCall,
    outcome: Result<String, String>,
    before: AgentEvent,
    after: AgentEvent,
    block: ContentBlock,
)
    requires
        call_ensures(ToolCall::started, (&call,), before),
        call_ensures(ToolCall::finished, (&call, &outcome), after),
        call_ensures(ToolCall::result, (&call, &outcome), block),
    ensures
        before@ matches EventModel::ToolCall { name, input } && name == call.name@ && input
            == call.input@,
        after@ matches EventModel::ToolResult { name, output, is_error } && {
            &&& name == call.name@
            &&& outcome matches Ok(text) ==> output == text@ && !is_error
            &&& outcome matches Err(text) ==> output == text@ && is_error
        },
        block@ matches BlockModel::ToolResult { tool_use_id, content, is_error } && {
            &&& tool_use_id == call.id@
            &&& outcome matches Ok(text) ==> content == text@ && is_error is None
            &&& outcome matches Err(text) ==> content == text@ && is_error == Some(true)
        },
{
}

/// The end of a turn is told just if the turn did not tell of it itself: a
/// failure by its words, an interruption as one.
pub proof fn law_ends_are_told_once(end: TurnEnd)
    ensures
        end is Finished ==> end_event(end) is None,
        end is Interrupted ==> end_event(end) == Some(EventModel::Interrupted),
        end matches TurnEnd::Failed(words) ==> end_event(end) == Some(EventModel::Error(words@)),
{
}

/// Clearing is told just if something was cleared, with how much.
pub proof fn law_clearing_is_told(event: Option<AgentEvent>, cleared: nat)
    requires
        tells_of_trim(event, cleared),
    ensures
        event is None <==> cleared == 0,
        event matches Some(e) ==> e@ == EventModel::Info(
            "context trimmed: cleared "@ + decimal(cleared) + " old tool result(s)"@,
        ),
{
}

/// A failed turn says why.
pub proof fn law_failed_turns_say_why(error: TurnError)
    ensures
        error == TurnError::Refused ==> turn_error_words(error)
            == "the model declined this request (stop_reason: refusal)"@,
        error == TurnError::CutOff ==> turn_error_words(error)
            == "response was cut off by the max_tokens limit"@,
        error == TurnError::TooManyIterations ==> turn_error_words(error)
            == "agent stopped after "@ + decimal(50) + " tool iterations without finishing"@,
{
}

/// The prompt of an agent names the directory that it works in, as it is.
pub proof fn law_prompt_names_the_directory(cwd: Seq<char>)
    ensures
        system_prompt(cwd).subrange(
            PROMPT_HEAD@.len() as int,
            (PROMPT_HEAD@.len() + cwd.len()) as int,
        ) == cwd,
        system_prompt(cwd).take(PROMPT_HEAD@.len() as int) == PROMPT_HEAD@,
        system_prompt(cwd).skip((PROMPT_HEAD@.len() + cwd.len()) as int) == PROMPT_TAIL@,
{
}

/// Every fragment that says something is told as it is, and only those are.
pub proof fn law_fragments_are_told(fragment: &str, event: Option<AgentEvent>)
    requires
        call_ensures(fragment_event, (fragment,), event),
    ensures
        event is Some <==> fragment@.len() > 0,
        event matches Some(e) ==> e@ == EventModel::TextDelta(fragment@),
{
}

/// Only an interruption changes the conversation at the end of a turn: the calls
/// that were left open are answered then.
pub proof fn law_only_interruptions_are_repaired(messages: Seq<MessageModel>, end: TurnEnd)
    ensures
        end is Interrupted ==> settled_history(messages, end) == repaired(messages),
        !(end is Interrupted) ==> settled_history(messages, end) == messages,
{
}

} // verus!
