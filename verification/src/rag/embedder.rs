//! Embedding requests: how texts are batched, what is done about rate limits,
//! and the order of what comes back.

use vstd::prelude::*;
use vstd::string::*;

use crate::json::{at, entry_of, models, Json, JsonModel};
use crate::order::{
    comes_before, key_models, law_stable_order, order_by_key, position_models, stable_order,
};
use crate::text::number::{decimal, decimal_text};
use crate::text::{byte_len, texts, utf8_len};

verus! {

broadcast use {
    vstd::string::group_string_axioms,
    vstd::seq_lib::group_seq_properties,
};

/// Where embedding requests go.
pub const VOYAGE_URL: &'static str = "https://api.voyageai.com/v1/embeddings";

/// The embedding model.
pub const MODEL: &'static str = "voyage-code-3";

/// Output dimension of voyage-code-3 with default settings.
pub const EMBEDDING_DIM: u64 = 1024;

/// How many texts go into one request.
pub const BATCH_SIZE: usize = 128;

/// Keep each request comfortably under free-tier token-per-minute limits.
pub const MAX_BATCH_CHARS: usize = 30_000;

/// How often a rate-limited request is tried.
pub const MAX_RATE_LIMIT_RETRIES: u32 = 8;

/// How long a rate-limited request waits.
pub const RATE_LIMIT_BACKOFF_SECS: u64 = 21;

/// The status of a response to one request too many.
pub const RATE_LIMITED: u16 = 429;

/// What the texts are used for; Voyage tunes the embedding accordingly.
#[derive(Clone, Copy, Debug, PartialEq, Eq, Structural)]
pub enum InputType {
    Document,
    Query,
}

impl InputType {
    /// The word for it in a request.
    pub open spec fn word(self) -> Seq<char> {
        match self {
            InputType::Document => "document"@,
            InputType::Query => "query"@,
        }
    }

    /// The word for it in a request.
    pub fn as_str(self) -> (word: &'static str)
        ensures
            word@ == self.word(),
    {
        match self {
            InputType::Document => "document",
            InputType::Query => "query",
        }
    }
}

// ---------------------------------------------------------------------------
// Batches
// ---------------------------------------------------------------------------

/// The bytes of several texts together.
pub open spec fn bytes_of(list: Seq<Seq<char>>) -> nat
    decreases list.len(),
{
    if list.len() == 0 {
        0
    } else {
        bytes_of(list.drop_last()) + utf8_len(list.last())
    }
}

/// Whether a batch takes in another text: an empty one always does, another
/// one as long as it stays within the number of texts and bytes.
pub open spec fn takes(batch: Seq<Seq<char>>, text: Seq<char>) -> bool {
    batch.len() == 0 || (batch.len() < BATCH_SIZE && bytes_of(batch) + utf8_len(text)
        <= MAX_BATCH_CHARS)
}

/// The batches of texts, in order: each text goes into the last batch as long
/// as that takes it.
pub open spec fn batches_of(list: Seq<Seq<char>>) -> Seq<Seq<Seq<char>>>
    decreases list.len(),
{
    if list.len() == 0 {
        Seq::empty()
    } else {
        let before = batches_of(list.drop_last());
        let text = list.last();
        if before.len() > 0 && takes(before.last(), text) {
            before.drop_last().push(before.last().push(text))
        } else {
            before.push(seq![text])
        }
    }
}

/// The batches, one after the other, are the texts: each is embedded once, and
/// in its place. A batch is never empty, holds no more texts than a request
/// takes, and no more bytes unless it is a single text.
pub proof fn law_batches_keep_order_and_bounds(list: Seq<Seq<char>>)
    ensures
        batches_of(list).flatten() == list,
        forall|i: int|
            0 <= i < batches_of(list).len() ==> {
                let batch = #[trigger] batches_of(list)[i];
                &&& 1 <= batch.len() <= BATCH_SIZE
                &&& batch.len() > 1 ==> bytes_of(batch) <= MAX_BATCH_CHARS
            },
    decreases list.len(),
{
    let all = batches_of(list);
    if list.len() == 0 {
        assert(all.flatten() == Seq::<Seq<char>>::empty());
    } else {
        let front = list.drop_last();
        law_batches_keep_order_and_bounds(front);
        let before = batches_of(front);
        let text = list.last();
        assert(front.push(text) == list);
        if before.len() > 0 && takes(before.last(), text) {
            let grown = before.last().push(text);
            assert(all == before.drop_last().push(grown));
            before.lemma_flatten_and_flatten_alt_are_equivalent();
            all.lemma_flatten_and_flatten_alt_are_equivalent();
            assert(all.drop_last() == before.drop_last());
            assert(all.flatten_alt() == all.drop_last().flatten_alt() + grown);
            assert(before.flatten_alt() == before.drop_last().flatten_alt() + before.last());
            assert(all.flatten() == list);
            assert(grown.drop_last() == before.last());
            assert(before[before.len() - 1] == before.last());
            assert forall|i: int| 0 <= i < all.len() implies {
                let batch = #[trigger] all[i];
                &&& 1 <= batch.len() <= BATCH_SIZE
                &&& batch.len() > 1 ==> bytes_of(batch) <= MAX_BATCH_CHARS
            } by {
                if i < before.len() - 1 {
                    assert(all[i] == before[i]);
                }
            }
        } else {
            let one = seq![text];
            assert(all == before.push(one));
            before.lemma_flatten_and_flatten_alt_are_equivalent();
            all.lemma_flatten_and_flatten_alt_are_equivalent();
            assert(all.drop_last() == before);
            assert(all.flatten_alt() == before.flatten_alt() + one);
            assert(all.flatten() == list);
            assert forall|i: int| 0 <= i < all.len() implies {
                let batch = #[trigger] all[i];
                &&& 1 <= batch.len() <= BATCH_SIZE
                &&& batch.len() > 1 ==> bytes_of(batch) <= MAX_BATCH_CHARS
            } by {
                if i < before.len() {
                    assert(all[i] == before[i]);
                }
            }
        }
    }
}

/// What a list of batches stands for.
pub open spec fn batch_models(batches: Seq<Vec<String>>) -> Seq<Seq<Seq<char>>> {
    batches.map_values(|b: Vec<String>| texts(b@))
}

/// Cuts texts into the batches that are sent together. Batches are bounded by
/// item count and total size to respect rate limits.
pub fn plan_batches(list: &[String]) -> (batches: Vec<Vec<String>>)
    ensures
        batch_models(batches@) == batches_of(texts(list@)),
{
    let ghost all = texts(list@);
    let mut batches: Vec<Vec<String>> = Vec::new();
    let mut batch: Vec<String> = Vec::new();
    let mut batch_chars: usize = 0;
    let mut i: usize = 0;
    assert(batch_models(batches@) == Seq::<Seq<Seq<char>>>::empty());
    assert(texts(batch@) == Seq::<Seq<char>>::empty());
    while i < list.len()
        invariant
            i <= list@.len(),
            all == texts(list@),
            batch_chars == bytes_of(texts(batch@)),
            i == 0 ==> batch@.len() == 0 && batches@.len() == 0,
            i > 0 ==> batch@.len() > 0,
            batch@.len() > 0 ==> batch_models(batches@).push(texts(batch@)) == batches_of(
                all.take(i as int),
            ),
        decreases list@.len() - i,
    {
        let ghost before = batch_models(batches@);
        let ghost current = texts(batch@);
        let ghost text = list@[i as int]@;
        assert(all.take(i + 1).drop_last() == all.take(i as int));
        assert(all.take(i + 1).last() == text);
        if i == 0 {
            assert(all.take(0) == Seq::<Seq<char>>::empty());
        }
        let size: usize = byte_len(list[i].as_str());
        let room: bool = batch.len() == 0 || (batch.len() < BATCH_SIZE && batch_chars
            <= MAX_BATCH_CHARS && size <= MAX_BATCH_CHARS - batch_chars);
        assert(room == takes(current, text));
        if !room {
            let ghost listed = batches@;
            batches.push(batch);
            assert(batch_models(batches@) == batch_models(listed).push(current));
            batch = Vec::new();
            batch_chars = 0;
            assert(texts(batch@) == Seq::<Seq<char>>::empty());
        }
        let ghost open = texts(batch@);
        let copy: String = list[i].clone();
        batch.push(copy);
        batch_chars = batch_chars + size;
        assert(texts(batch@) == open.push(text));
        assert(open.push(text).drop_last() == open);
        assert(bytes_of(open.push(text)) == bytes_of(open) + utf8_len(text));
        proof {
            let done = batches_of(all.take(i as int));
            if i > 0 {
                assert(done == before.push(current));
                assert(done.drop_last() == before);
                assert(done.last() == current);
                if !room {
                    assert(open.push(text) == seq![text]);
                }
            } else {
                assert(open.push(text) == seq![text]);
                assert(before == Seq::<Seq<Seq<char>>>::empty());
            }
        }
        i += 1;
    }
    assert(all.take(i as int) == all);
    if batch.len() > 0 {
        let ghost listed = batches@;
        let ghost current = texts(batch@);
        batches.push(batch);
        assert(batch_models(batches@) == batch_models(listed).push(current));
    } else {
        assert(all == Seq::<Seq<char>>::empty());
    }
    batches
}

// ---------------------------------------------------------------------------
// Requests and replies
// ---------------------------------------------------------------------------

/// The body of a request for the embeddings of texts.
pub open spec fn request_model(list: Seq<Seq<char>>, input_type: InputType) -> JsonModel {
    JsonModel::Object(
        seq![
            ("input"@, JsonModel::Array(list.map_values(|t: Seq<char>| JsonModel::Text(t)))),
            ("model"@, JsonModel::Text(MODEL@)),
            ("input_type"@, JsonModel::Text(input_type.word())),
        ],
    )
}

/// The body of a request for the embeddings of texts.
pub fn request_body(list: &[String], input_type: InputType) -> (body: Json)
    ensures
        body@ == request_model(texts(list@), input_type),
{
    let mut items: Vec<Json> = Vec::new();
    let mut i: usize = 0;
    while i < list.len()
        invariant
            i <= list@.len(),
            items@.len() == i,
            forall|k: int|
                0 <= k < i ==> (#[trigger] items@[k])@ == JsonModel::Text(list@[k]@),
        decreases list@.len() - i,
    {
        items.push(Json::text(list[i].as_str()));
        i += 1;
    }
    assert(models(items@) == texts(list@).map_values(|t: Seq<char>| JsonModel::Text(t)));
    let body: Json = Json::object().with("input", Json::array(items)).with(
        "model",
        Json::text(MODEL),
    ).with("input_type", Json::text(input_type.as_str()));
    assert(body@->Object_0 == request_model(texts(list@), input_type)->Object_0);
    body
}

/// The words for a failed request.
pub fn error_message(status: &str, body: &str) -> (words: String)
    ensures
        words@ == "voyage API error "@ + status@ + ": "@ + body@,
{
    "voyage API error ".to_owned().concat(status).concat(": ").concat(body)
}

/// The order in which the items of a reply are handed out: by the index that
/// each carries, items with the same index in the order of the reply.
pub fn reply_order(indexes: &[usize]) -> (order: Vec<usize>)
    ensures
        position_models(order@) == stable_order(indexes@.map_values(|i: usize| i as int)),
{
    let mut keys: Vec<i128> = Vec::new();
    let mut i: usize = 0;
    while i < indexes.len()
        invariant
            i <= indexes@.len(),
            keys@.len() == i,
            forall|k: int| 0 <= k < i ==> #[trigger] keys@[k] == indexes@[k],
        decreases indexes@.len() - i,
    {
        keys.push(indexes[i] as i128);
        i += 1;
    }
    assert(key_models(keys@) == indexes@.map_values(|i: usize| i as int));
    order_by_key(keys.as_slice())
}

proof fn lemma_ascending_fills(values: Seq<int>, k: int)
    requires
        forall|i: int| 0 <= i < values.len() ==> 0 <= #[trigger] values[i] < values.len(),
        forall|i: int, j: int|
            0 <= i < j < values.len() ==> #[trigger] values[i] < #[trigger] values[j],
        0 <= k < values.len(),
    ensures
        values[k] >= k,
    decreases k,
{
    if k > 0 {
        lemma_ascending_fills(values, k - 1);
    }
}

proof fn lemma_ascending_fits(values: Seq<int>, k: int)
    requires
        forall|i: int| 0 <= i < values.len() ==> 0 <= #[trigger] values[i] < values.len(),
        forall|i: int, j: int|
            0 <= i < j < values.len() ==> #[trigger] values[i] < #[trigger] values[j],
        0 <= k < values.len(),
    ensures
        values[k] <= k,
    decreases values.len() - k,
{
    if k < values.len() - 1 {
        lemma_ascending_fits(values, k + 1);
    }
}

/// Result order matches input order: where the items of a reply carry each
/// index of the request once, in whatever order they come, the item that is
/// handed out in a place is the one with the index of that place.
pub proof fn law_replies_follow_the_request(indexes: Seq<usize>)
    requires
        forall|i: int| 0 <= i < indexes.len() ==> #[trigger] indexes[i] < indexes.len(),
        forall|i: int, j: int|
            0 <= i < j < indexes.len() ==> #[trigger] indexes[i] != #[trigger] indexes[j],
    ensures
        ({
            let order = stable_order(indexes.map_values(|i: usize| i as int));
            &&& order.len() == indexes.len()
            &&& forall|k: int|
                0 <= k < order.len() ==> 0 <= #[trigger] order[k] < indexes.len()
                    && indexes[order[k]] == k
        }),
{
    let keys = indexes.map_values(|i: usize| i as int);
    let order = stable_order(keys);
    law_stable_order(keys);
    let values = Seq::new(order.len(), |k: int| keys[order[k]]);
    assert forall|i: int| 0 <= i < values.len() implies 0 <= #[trigger] values[i]
        < values.len() by {
        assert(0 <= order[i] < keys.len());
        assert(keys[order[i]] == indexes[order[i]]);
    }
    assert forall|i: int, j: int| 0 <= i < j < values.len() implies #[trigger] values[i]
        < #[trigger] values[j] by {
        assert(comes_before(keys, order[i], order[j]));
        assert(0 <= order[i] < keys.len() && 0 <= order[j] < keys.len());
        assert(keys[order[i]] == indexes[order[i]] && keys[order[j]] == indexes[order[j]]);
    }
    assert forall|k: int| 0 <= k < order.len() implies 0 <= #[trigger] order[k] < indexes.len()
        && indexes[order[k]] == k by {
        lemma_ascending_fills(values, k);
        lemma_ascending_fits(values, k);
        assert(values[k] == keys[order[k]]);
    }
}

/// The tries that one batch has seen so far.
#[derive(Clone, Copy, Debug, PartialEq, Eq, Structural)]
pub struct RateLimit {
    pub limited: u32,
}

/// What to do about a request that failed.
#[derive(Clone, Copy, Debug, PartialEq, Eq, Structural)]
pub enum Limited {
    /// Wait for these seconds; then ask whether to go on.
    Wait(u64),
    /// The failure has another cause and is final.
    Fail,
}

/// The words for a batch that stayed rate-limited.
pub open spec fn still_limited_words() -> Seq<char> {
    "voyage API still rate-limited after "@ + decimal(MAX_RATE_LIMIT_RETRIES as nat)
        + " retries"@
}

/// How often a batch was rate-limited after a failed try, and what to do about
/// it.
pub open spec fn after_status(limited: nat, status: Option<u16>) -> (nat, Limited) {
    if status == Some(RATE_LIMITED) {
        (limited + 1, Limited::Wait(RATE_LIMIT_BACKOFF_SECS))
    } else {
        (limited, Limited::Fail)
    }
}

impl RateLimit {
    /// No try has been rate-limited yet.
    pub fn new() -> (limit: RateLimit)
        ensures
            limit.limited == 0,
    {
        RateLimit { limited: 0 }
    }

    /// Whether another try is left, or the words for there being none.
    pub fn try_again(&self) -> (res: Result<(), String>)
        ensures
            match res {
                Ok(_) => self.limited < MAX_RATE_LIMIT_RETRIES,
                Err(words) => {
                    &&& self.limited >= MAX_RATE_LIMIT_RETRIES
                    &&& words@ == still_limited_words()
                },
            },
    {
        if self.limited < MAX_RATE_LIMIT_RETRIES {
            Ok(())
        } else {
            let count: String = decimal_text(MAX_RATE_LIMIT_RETRIES as u128);
            Err(
                "voyage API still rate-limited after ".to_owned().concat(count.as_str()).concat(
                    " retries",
                ),
            )
        }
    }

    /// Takes note of a failed try, given the status of the response where one
    /// came: a 429 is waited out, anything else is final.
    pub fn on_status(&mut self, status: Option<u16>) -> (step: Limited)
        requires
            old(self).limited < MAX_RATE_LIMIT_RETRIES,
        ensures
            (final(self).limited as nat, step) == after_status(old(self).limited as nat, status),
    {
        match status {
            Some(RATE_LIMITED) => {
                self.limited = self.limited + 1;
                Limited::Wait(RATE_LIMIT_BACKOFF_SECS)
            },
            _ => Limited::Fail,
        }
    }
}

/// How often a batch waits, given how often it did and the status of each
/// outcome that follows, where it has one: for each 429, up to the first
/// outcome of another kind, as long as a try is left.
pub open spec fn waits(limited: nat, statuses: Seq<Option<u16>>) -> nat
    decreases statuses.len(),
{
    if statuses.len() > 0 && limited < MAX_RATE_LIMIT_RETRIES && statuses[0] == Some(
        RATE_LIMITED,
    ) {
        1 + waits(limited + 1, statuses.drop_first())
    } else {
        0
    }
}

/// Whether the first `n` outcomes of several are rate-limited.
pub open spec fn limited_for(statuses: Seq<Option<u16>>, n: int) -> bool {
    &&& 0 <= n <= statuses.len()
    &&& forall|i: int| 0 <= i < n ==> #[trigger] statuses[i] == Some(RATE_LIMITED)
}

/// A batch is tried until an outcome comes that is not rate-limited, and waits
/// once for each that is before it; where none comes in time it has waited as
/// often as it has tries, and no more.
pub proof fn law_rate_limit_is_waited_out(limited: nat, statuses: Seq<Option<u16>>)
    requires
        limited <= MAX_RATE_LIMIT_RETRIES,
    ensures
        waits(limited, statuses) <= MAX_RATE_LIMIT_RETRIES - limited,
        forall|n: int| #[trigger]
            limited_for(statuses, n) && n < statuses.len() && statuses[n] != Some(RATE_LIMITED)
                && n < MAX_RATE_LIMIT_RETRIES - limited ==> waits(limited, statuses) == n,
        limited_for(statuses, MAX_RATE_LIMIT_RETRIES - limited) ==> waits(limited, statuses)
            == MAX_RATE_LIMIT_RETRIES - limited,
    decreases statuses.len(),
{
    if statuses.len() > 0 && limited < MAX_RATE_LIMIT_RETRIES {
        let rest = statuses.drop_first();
        law_rate_limit_is_waited_out(limited + 1, rest);
        assert forall|n: int| n > 0 && #[trigger] limited_for(statuses, n) implies limited_for(
            rest,
            n - 1,
        ) && statuses[0] == Some(RATE_LIMITED) by {
            assert forall|i: int| 0 <= i < n - 1 implies #[trigger] rest[i] == Some(
                RATE_LIMITED,
            ) by {
                assert(rest[i] == statuses[i + 1]);
            }
        }
        assert forall|n: int| #[trigger]
            limited_for(statuses, n) && n < statuses.len() && statuses[n] != Some(RATE_LIMITED)
                && n < MAX_RATE_LIMIT_RETRIES - limited implies waits(limited, statuses) == n by {
            if n > 0 {
                assert(limited_for(rest, n - 1));
                assert(rest[n - 1] == statuses[n]);
            }
        }
    }
}

// ---------------------------------------------------------------------------
// What is sent
// ---------------------------------------------------------------------------

/// The bytes of texts add up.
pub proof fn law_bytes_add_up(
    first: Seq<Seq<char>>,
    second: Seq<Seq<char>>,
    text: Seq<char>,
)
    ensures
        bytes_of(first + second) == bytes_of(first) + bytes_of(second),
        bytes_of(seq![text]) == utf8_len(text),
        bytes_of(Seq::empty()) == 0,
    decreases second.len(),
{
    assert(seq![text].drop_last() == Seq::<Seq<char>>::empty());
    assert(bytes_of(Seq::<Seq<char>>::empty()) == 0);
    if second.len() == 0 {
        assert(first + second == first);
    } else {
        assert((first + second).drop_last() == first + second.drop_last());
        law_bytes_add_up(first, second.drop_last(), text);
    }
}

/// No batch is cut short: where another follows it, it holds all the texts that
/// a request takes, or the first text of the other would have been too much.
pub proof fn law_batches_are_filled(list: Seq<Seq<char>>)
    ensures
        forall|i: int|
            0 <= i < batches_of(list).len() - 1 ==> {
                let batch = #[trigger] batches_of(list)[i];
                let next = batches_of(list)[i + 1];
                batch.len() == 128 || bytes_of(batch) + utf8_len(next[0]) > 30_000
            },
    decreases list.len(),
{
    law_batches_keep_order_and_bounds(list);
    if list.len() > 0 {
        let before = batches_of(list.drop_last());
        let all = batches_of(list);
        let text = list.last();
        law_batches_are_filled(list.drop_last());
        law_batches_keep_order_and_bounds(list.drop_last());
        assert forall|i: int| 0 <= i < all.len() - 1 implies {
            let batch = #[trigger] all[i];
            let next = all[i + 1];
            batch.len() == 128 || bytes_of(batch) + utf8_len(next[0]) > 30_000
        } by {
            assert(all[i] == before[i]);
            if i + 1 < before.len() {
                let old_next = before[i + 1];
                assert(1 <= old_next.len());
                assert(all[i + 1][0] == old_next[0]);
            } else {
                assert(before[before.len() - 1] == before.last());
                assert(1 <= before[before.len() - 1].len() <= BATCH_SIZE);
                assert(!takes(before.last(), text));
                assert(all[i + 1] == seq![text]);
            }
        }
    }
}

/// A request holds the texts as they are and in order, and says with which
/// model and for what they are embedded.
pub proof fn law_request_holds_its_texts(list: Seq<Seq<char>>, input_type: InputType)
    ensures
        ({
            let body = request_model(list, input_type);
            &&& at(body, "input"@) matches JsonModel::Array(items) && items.len() == list.len()
                && forall|i: int|
                0 <= i < list.len() ==> #[trigger] items[i] == JsonModel::Text(list[i])
            &&& at(body, "model"@) == JsonModel::Text("voyage-code-3"@)
            &&& at(body, "input_type"@) == JsonModel::Text(
                if input_type == InputType::Query {
                    "query"@
                } else {
                    "document"@
                },
            )
        }),
{
    reveal_strlit("input");
    reveal_strlit("model");
    reveal_strlit("input_type");
    assert("input"@.len() == 5 && "model"@.len() == 5 && "input_type"@.len() == 10);
    assert("input"@[0] != "model"@[0]);
    reveal_with_fuel(entry_of, 4);
}

/// Just a response to one request too many is waited out, twenty-one seconds
/// each time, and counted; any other failure is final. Eight tries are made.
pub proof fn law_too_many_requests_are_waited_out(limit: RateLimit, status: Option<u16>)
    ensures
        status == Some(429u16) ==> after_status(limit.limited as nat, status) == (
            (limit.limited + 1) as nat,
            Limited::Wait(21),
        ),
        status != Some(429u16) ==> after_status(limit.limited as nat, status) == (
            limit.limited as nat,
            Limited::Fail,
        ),
        MAX_RATE_LIMIT_RETRIES == 8,
{
}

/// Every text is sent once, in its place: the batches, one after the other, are
/// the texts.
pub proof fn law_every_text_is_sent_once(list: &[String], batches: Vec<Vec<String>>)
    requires
        call_ensures(plan_batches, (list,), batches),
    ensures
        batch_models(batches@).flatten() == texts(list@),
        forall|i: int|
            0 <= i < batches@.len() ==> 1 <= (#[trigger] batches@[i])@.len() <= 128,
{
    law_batches_keep_order_and_bounds(texts(list@));
    assert forall|i: int| 0 <= i < batches@.len() implies 1 <= (#[trigger] batches@[i])@.len()
        <= 128 by {
        assert(batch_models(batches@)[i] == texts(batches@[i]@));
        assert(batches_of(texts(list@))[i].len() <= BATCH_SIZE);
    }
}

/// Embeddings are handed out in the order of the texts: where the items of a
/// reply carry each index once, the item that is handed out in a place carries
/// the index of that place.
pub proof fn law_items_are_handed_out_in_order(indexes: &[usize], order: Vec<usize>)
    requires
        call_ensures(reply_order, (indexes,), order),
        forall|i: int| 0 <= i < indexes@.len() ==> #[trigger] indexes@[i] < indexes@.len(),
        forall|i: int, j: int|
            0 <= i < j < indexes@.len() ==> #[trigger] indexes@[i] != #[trigger] indexes@[j],
    ensures
        order@.len() == indexes@.len(),
        forall|k: int|
            0 <= k < order@.len() ==> #[trigger] order@[k] < indexes@.len()
                && indexes@[order@[k] as int] == k,
{
    law_replies_follow_the_request(indexes@);
    let places = position_models(order@);
    assert(places.len() == order@.len());
    assert forall|k: int| 0 <= k < order@.len() implies #[trigger] order@[k] < indexes@.len()
        && indexes@[order@[k] as int] == k by {
        assert(places[k] == order@[k]);
    }
}

} // verus!
