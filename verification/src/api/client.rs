//! Requests to the Messages API: what is sent, and what is done when it fails.

use vstd::arithmetic::power::*;
use vstd::prelude::*;
use vstd::string::*;

use crate::api::types::{ApiErrorBody, ApiRequest, Message, SystemBlock, ToolDefinition};
use crate::json::{at, Json, JsonModel};

verus! {

broadcast use {
    vstd::string::group_string_axioms,
    vstd::seq_lib::group_seq_properties,
};

/// Where requests go.
pub const API_URL: &'static str = "https://api.anthropic.com/v1/messages";

/// The version of the API that is spoken.
pub const API_VERSION: &'static str = "2023-06-01";

/// How often a request that did not start is sent again.
pub const MAX_RETRIES: u32 = 3;

/// What a client of the Messages API sends with every request.
#[derive(Debug)]
pub struct Client {
    pub api_key: String,
    pub model: String,
    pub max_tokens: u32,
}

impl Clone for Client {
    fn clone(&self) -> (res: Self)
        ensures
            res.api_key@ == self.api_key@,
            res.model@ == self.model@,
            res.max_tokens == self.max_tokens,
    {
        Client {
            api_key: self.api_key.clone(),
            model: self.model.clone(),
            max_tokens: self.max_tokens,
        }
    }
}

/// The mark of a cache breakpoint.
pub open spec fn ephemeral() -> JsonModel {
    JsonModel::Object(seq![("type"@, JsonModel::Text("ephemeral"@))])
}

/// Whether the system blocks of a request hold a prompt, with one cache
/// breakpoint: the cached prefix covers the tool definitions and the prompt,
/// which are sent again with every request.
pub open spec fn holds_prompt(blocks: Option<Vec<SystemBlock>>, prompt: Option<String>) -> bool {
    match prompt {
        Some(text) => blocks matches Some(list) && {
            &&& list@.len() == 1
            &&& list@[0].kind@ == "text"@
            &&& list@[0].text@ == text@
            &&& list@[0].cache_control matches Some(mark) && mark@ == ephemeral()
        },
        None => blocks is None,
    }
}

impl Client {
    /// A client for a model.
    pub fn new(api_key: String, model: String, max_tokens: u32) -> (client: Client)
        ensures
            client == (Client { api_key, model, max_tokens }),
    {
        Client { api_key, model, max_tokens }
    }

    /// The request for one turn. Replies are always streamed.
    pub fn request(
        &self,
        system: Option<String>,
        messages: Vec<Message>,
        tools: Vec<ToolDefinition>,
    ) -> (request: ApiRequest)
        ensures
            request.model@ == self.model@,
            request.max_tokens == self.max_tokens,
            holds_prompt(request.system, system),
            request.messages == messages,
            request.tools == tools,
            request.stream,
    {
        let blocks: Option<Vec<SystemBlock>> = match system {
            Some(text) => {
                let mark: Json = Json::object().with("type", Json::text("ephemeral"));
                assert(mark@ == ephemeral());
                Some(
                    vec![
                        SystemBlock { kind: "text".to_owned(), text, cache_control: Some(mark) },
                    ],
                )
            },
            None => None,
        };
        ApiRequest {
            model: self.model.clone(),
            max_tokens: self.max_tokens,
            system: blocks,
            messages,
            tools,
            stream: true,
        }
    }
}

/// Why a request did not start.
#[derive(Clone, Copy, Debug, PartialEq, Eq, Structural)]
pub enum Failure {
    /// A reply with a status other than success.
    Status(u16),
    /// No reply in time.
    Timeout,
    /// No connection.
    Connect,
    /// Anything else.
    Other,
}

/// Whether a status is one that may pass: too many requests, or a server error.
pub open spec fn transient_status(status: u16) -> bool {
    status == 429 || 500 <= status <= 599
}

/// Whether a failure is one that may pass.
pub open spec fn transient(failure: Failure) -> bool {
    match failure {
        Failure::Status(status) => transient_status(status),
        Failure::Timeout => true,
        Failure::Connect => true,
        Failure::Other => false,
    }
}

/// Whether a status is worth another attempt.
pub fn is_retryable_status(status: u16) -> (retry: bool)
    ensures
        retry == transient_status(status),
{
    status == 429 || (500 <= status && status <= 599)
}

/// Whether a failure is worth another attempt.
pub fn is_retryable(failure: Failure) -> (retry: bool)
    ensures
        retry == transient(failure),
{
    match failure {
        Failure::Status(status) => is_retryable_status(status),
        Failure::Timeout => true,
        Failure::Connect => true,
        Failure::Other => false,
    }
}

/// The words for a failed request: its status, and the kind and message of the
/// error that its body describes, or else the body as it came.
pub open spec fn failure_words(
    status: Seq<char>,
    body: Seq<char>,
    described: Option<(Seq<char>, Seq<char>)>,
) -> Seq<char> {
    "API error "@ + status + ": "@ + match described {
        Some((kind, message)) => kind + ": "@ + message,
        None => body,
    }
}

/// The kind and message of a described error.
pub open spec fn description_of(body: Option<&ApiErrorBody>) -> Option<(Seq<char>, Seq<char>)> {
    match body {
        Some(b) => Some((b.error.kind@, b.error.message@)),
        None => None,
    }
}

/// The words for a failed request.
pub fn status_message(status: &str, body: &str, described: Option<&ApiErrorBody>) -> (words: String)
    ensures
        words@ == failure_words(status@, body@, description_of(described)),
{
    let detail: String = match described {
        Some(b) => b.error.kind.clone().concat(": ").concat(b.error.message.as_str()),
        None => body.to_owned(),
    };
    "API error ".to_owned().concat(status).concat(": ").concat(detail.as_str())
}

/// The attempts that one request has seen so far.
#[derive(Clone, Copy, Debug, PartialEq, Eq, Structural)]
pub struct Attempts {
    pub failed: u32,
}

/// How long to wait before a request that failed is sent again: nothing where
/// it is given up.
pub open spec fn retry_wait(failed: nat, failure: Failure) -> Option<nat> {
    if failed < MAX_RETRIES && transient(failure) {
        Some(pow(2, (failed + 1) as nat) as nat)
    } else {
        None
    }
}

/// The waits that a run of failures leads to, up to the first that is final.
pub open spec fn waits(failed: nat, failures: Seq<Failure>) -> Seq<nat>
    decreases failures.len(),
{
    if failures.len() == 0 {
        Seq::empty()
    } else {
        match retry_wait(failed, failures[0]) {
            Some(wait) => seq![wait] + waits(failed + 1, failures.drop_first()),
            None => Seq::empty(),
        }
    }
}

/// Whatever goes wrong, a request is sent again no more than three times, after
/// 2, 4 and 8 seconds.
pub proof fn law_retries_are_bounded(failures: Seq<Failure>)
    ensures
        waits(0, failures).is_prefix_of(seq![2nat, 4nat, 8nat]),
{
    lemma_waits(0, failures);
    let all = waits(0, failures);
    lemma_small_powers();
    assert(all.len() <= 3);
    assert forall|i: int| 0 <= i < all.len() implies all[i] == seq![2nat, 4nat, 8nat][i] by {
        assert(all[i] == pow(2, (0 + i + 1) as nat));
    }
    assert(all == seq![2nat, 4nat, 8nat].take(all.len() as int));
}

proof fn lemma_small_powers()
    ensures
        pow(2, 1) == 2,
        pow(2, 2) == 4,
        pow(2, 3) == 8,
{
    reveal_with_fuel(pow, 4);
}

proof fn lemma_waits(failed: nat, failures: Seq<Failure>)
    requires
        failed <= MAX_RETRIES,
    ensures
        waits(failed, failures).len() <= MAX_RETRIES - failed,
        forall|i: int|
            0 <= i < waits(failed, failures).len() ==> #[trigger] waits(failed, failures)[i] == pow(
                2,
                (failed + i + 1) as nat,
            ),
    decreases failures.len(),
{
    if failures.len() > 0 && retry_wait(failed, failures[0]) is Some {
        let rest = failures.drop_first();
        lemma_waits(failed + 1, rest);
        lemma_pow_positive(2, (failed + 1) as nat);
        assert forall|i: int| 0 <= i < waits(failed, failures).len() implies #[trigger] waits(
            failed,
            failures,
        )[i] == pow(2, (failed + i + 1) as nat) by {
            if i > 0 {
                assert(waits(failed, failures)[i] == waits(failed + 1, rest)[i - 1]);
            }
        }
    }
}

impl Attempts {
    /// No attempt has failed yet.
    pub fn new() -> (attempts: Attempts)
        ensures
            attempts.failed == 0,
    {
        Attempts { failed: 0 }
    }

    /// Takes note of an attempt that failed before the reply started: the
    /// seconds to wait before the next one, or nothing where the failure is
    /// final. Once a reply has started this is not asked, so that no text
    /// fragment is delivered twice.
    pub fn after_failure(&mut self, failure: Failure) -> (wait: Option<u64>)
        ensures
            match wait {
                Some(seconds) => {
                    &&& retry_wait(old(self).failed as nat, failure) == Some(seconds as nat)
                    &&& final(self).failed == old(self).failed + 1
                },
                None => {
                    &&& retry_wait(old(self).failed as nat, failure) is None
                    &&& final(self).failed == old(self).failed
                },
            },
    {
        if self.failed < MAX_RETRIES && is_retryable(failure) {
            proof {
                lemma_small_powers();
            }
            self.failed = self.failed + 1;
            let mut seconds: u64 = 1;
            let mut i: u32 = 0;
            assert(pow(2, 0) == 1) by {
                reveal(pow);
            }
            while i < self.failed
                invariant
                    i <= self.failed <= 3,
                    seconds == pow(2, i as nat),
                    seconds <= 8,
                    i == 0 ==> seconds <= 1,
                    i == 1 ==> seconds <= 2,
                    i == 2 ==> seconds <= 4,
                decreases self.failed - i,
            {
                assert(pow(2, (i + 1) as nat) == 2 * pow(2, i as nat)) by {
                    reveal(pow);
                }
                seconds = seconds * 2;
                i += 1;
            }
            Some(seconds)
        } else {
            None
        }
    }
}

/// What may pass is worth another attempt: too many requests, anything that is
/// wrong on the other side, no reply in time and no connection. Nothing else
/// is.
pub proof fn law_what_may_pass(status: u16)
    ensures
        transient(Failure::Status(status)) <==> status == 429 || status / 100 == 5,
        transient(Failure::Timeout),
        transient(Failure::Connect),
        !transient(Failure::Other),
{
}

/// Every failure that may pass is followed by another attempt until three were
/// made: of a run of them, each of the first three leads to a wait. A failure
/// that does not pass leads to none, and ends the run.
pub proof fn law_passing_failures_are_retried(failures: Seq<Failure>, passing: nat)
    requires
        passing <= failures.len(),
        forall|i: int| 0 <= i < passing ==> transient(#[trigger] failures[i]),
        passing < failures.len() ==> !transient(failures[passing as int]),
    ensures
        waits(0, failures).len() == if passing < 3 {
            passing
        } else {
            3
        },
{
    lemma_waits_of_passing(0, failures, passing);
}

proof fn lemma_waits_of_passing(failed: nat, failures: Seq<Failure>, passing: nat)
    requires
        failed <= MAX_RETRIES,
        passing <= failures.len(),
        forall|i: int| 0 <= i < passing ==> transient(#[trigger] failures[i]),
        passing < failures.len() ==> !transient(failures[passing as int]),
    ensures
        waits(failed, failures).len() == if passing < MAX_RETRIES - failed {
            passing as int
        } else {
            MAX_RETRIES - failed
        },
    decreases failures.len(),
{
    if failures.len() > 0 && passing > 0 {
        assert(transient(failures[0]));
        if failed < MAX_RETRIES {
            let rest = failures.drop_first();
            assert forall|i: int| 0 <= i < passing - 1 implies transient(#[trigger] rest[i]) by {
                assert(rest[i] == failures[i + 1]);
            }
            lemma_waits_of_passing(failed + 1, rest, (passing - 1) as nat);
        }
    }
}

/// A request carries the conversation and the tools as they are, the system
/// prompt in one block with a mark to cache it, and asks for a stream.
pub proof fn law_request_carries_the_conversation(
    client: Client,
    system: Option<String>,
    messages: Vec<Message>,
    tools: Vec<ToolDefinition>,
    request: ApiRequest,
)
    requires
        call_ensures(Client::request, (&client, system, messages, tools), request),
    ensures
        request.messages == messages,
        request.tools == tools,
        request.model@ == client.model@,
        request.max_tokens == client.max_tokens,
        request.stream,
        system is None ==> request.system is None,
        system matches Some(prompt) ==> (request.system matches Some(blocks) && {
            &&& blocks@.len() == 1
            &&& blocks@[0].kind@ == "text"@
            &&& blocks@[0].text@ == prompt@
            &&& blocks@[0].cache_control matches Some(mark) && at(mark@, "type"@)
                == JsonModel::Text("ephemeral"@)
        }),
{
    let mark = seq![("type"@, JsonModel::Text("ephemeral"@))];
    assert(mark[0].0 == "type"@);
}

/// A failed request is told with its status, and with the error that its body
/// describes, or the whole body where it describes none.
pub proof fn law_failures_are_told_with_their_cause(
    status: Seq<char>,
    body: Seq<char>,
    kind: Seq<char>,
    message: Seq<char>,
)
    ensures
        failure_words(status, body, Some((kind, message))) == "API error "@ + status + ": "@ + kind
            + ": "@ + message,
        failure_words(status, body, None) == "API error "@ + status + ": "@ + body,
{
    assert("API error "@ + status + ": "@ + (kind + ": "@ + message) == "API error "@ + status
        + ": "@ + kind + ": "@ + message);
}

} // verus!
