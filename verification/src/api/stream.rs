//! Reading a streamed reply: bytes arrive in chunks of any size, complete
//! events are cut out of them, and the data of each event goes to the
//! assembler.

use vstd::prelude::*;
use vstd::slice::*;
use vstd::string::*;
use vstd::utf8::*;

use crate::api::assembler::{
    after, effect, empty_assembly, Assembly, Fault, MessageAssembler, StreamError,
};
use crate::api::types::{block_models, ApiResponse};
use crate::json::{document_of_text, JsonModel};
use crate::text::layout::{
    law_lines_follow_each_other, lines, lines_of, trim_start, trimmed_start,
};
use crate::text::search::{begins_with, strip_prefix};
use crate::text::{from_lossy, lossy_text, texts};

verus! {

broadcast use {
    vstd::string::group_string_axioms,
    vstd::seq_lib::group_seq_properties,
};

// ---------------------------------------------------------------------------
// Cutting events out of bytes
// ---------------------------------------------------------------------------

/// Whether two line feeds stand at a place.
pub open spec fn is_break(bytes: Seq<u8>, at: int) -> bool {
    0 <= at && at + 1 < bytes.len() && bytes[at] == 10 && bytes[at + 1] == 10
}

/// The place of the first two line feeds in a row.
pub open spec fn first_break(bytes: Seq<u8>) -> Option<int>
    decreases bytes.len(),
{
    if bytes.len() == 0 {
        None
    } else if is_break(bytes, 0) {
        Some(0)
    } else {
        match first_break(bytes.drop_first()) {
            Some(at) => Some(at + 1),
            None => None,
        }
    }
}

/// The first break is a break, and none comes before it.
pub proof fn lemma_first_break(bytes: Seq<u8>)
    ensures
        match first_break(bytes) {
            Some(at) => is_break(bytes, at) && forall|j: int| j < at ==> !is_break(bytes, j),
            None => forall|j: int| !is_break(bytes, j),
        },
    decreases bytes.len(),
{
    if bytes.len() > 0 && !is_break(bytes, 0) {
        let rest = bytes.drop_first();
        lemma_first_break(rest);
        assert forall|j: int| #[trigger] is_break(bytes, j) implies is_break(rest, j - 1) by {}
        assert forall|j: int| #[trigger] is_break(rest, j) implies is_break(bytes, j + 1) by {}
    }
}

/// The place of the first break is the only one that is a break and has none
/// before it.
proof fn lemma_first_break_unique(bytes: Seq<u8>, at: int)
    requires
        is_break(bytes, at),
        forall|j: int| j < at ==> !is_break(bytes, j),
    ensures
        first_break(bytes) == Some(at),
{
    lemma_first_break(bytes);
}

/// The complete events in bytes, each with the break that ends it.
pub open spec fn events_of(bytes: Seq<u8>) -> Seq<Seq<u8>>
    decreases bytes.len(),
{
    match first_break(bytes) {
        Some(at) => {
            proof {
                lemma_first_break(bytes);
            }
            seq![bytes.take(at + 2)] + events_of(bytes.skip(at + 2))
        },
        None => Seq::empty(),
    }
}

/// What follows the last complete event in bytes.
pub open spec fn rest_of(bytes: Seq<u8>) -> Seq<u8>
    decreases bytes.len(),
{
    match first_break(bytes) {
        Some(at) => {
            proof {
                lemma_first_break(bytes);
            }
            rest_of(bytes.skip(at + 2))
        },
        None => bytes,
    }
}

/// Cutting is independent of how the bytes arrive: events that are complete in
/// the first part are cut there, and the rest of the cut carries over.
pub proof fn law_events_across_chunks(first: Seq<u8>, second: Seq<u8>)
    ensures
        events_of(first + second) == events_of(first) + events_of(rest_of(first) + second),
        rest_of(first + second) == rest_of(rest_of(first) + second),
    decreases first.len(),
{
    lemma_first_break(first);
    match first_break(first) {
        Some(at) => {
            let all = first + second;
            assert forall|j: int| j < at implies !is_break(all, j) by {
                assert(!is_break(first, j));
            }
            lemma_first_break_unique(all, at);
            assert(all.take(at + 2) == first.take(at + 2));
            assert(all.skip(at + 2) == first.skip(at + 2) + second);
            law_events_across_chunks(first.skip(at + 2), second);
        },
        None => {},
    }
}

/// Nothing is lost or added by cutting: the events and the rest are the bytes.
pub proof fn law_events_keep_bytes(bytes: Seq<u8>)
    ensures
        events_of(bytes).flatten() + rest_of(bytes) == bytes,
        first_break(rest_of(bytes)) is None,
    decreases bytes.len(),
{
    lemma_first_break(bytes);
    match first_break(bytes) {
        Some(at) => {
            let tail = bytes.skip(at + 2);
            law_events_keep_bytes(tail);
            let head = bytes.take(at + 2);
            let events = events_of(bytes);
            assert(events.drop_first() == events_of(tail));
            assert(events.first() == head);
            assert(events.flatten() == head + events_of(tail).flatten());
            assert(head + events_of(tail).flatten() + rest_of(tail) == head + (events_of(
                tail,
            ).flatten() + rest_of(tail)));
            assert(head + tail == bytes);
        },
        None => {
            assert(events_of(bytes).flatten() == Seq::<u8>::empty());
            assert(Seq::<u8>::empty() + bytes == bytes);
        },
    }
}

/// The place of the first blank line, where an event ends.
pub fn find_double_newline(buffer: &[u8]) -> (place: Option<usize>)
    ensures
        match place {
            Some(at) => first_break(buffer@) == Some(at as int),
            None => first_break(buffer@) is None,
        },
{
    let total: usize = buffer.len();
    let mut i: usize = 0;
    while i < total
        invariant
            i <= total,
            total == buffer@.len(),
            forall|j: int| j < i ==> !is_break(buffer@, j),
        decreases total - i,
    {
        if buffer[i] == 10 && i < total - 1 && buffer[i + 1] == 10 {
            proof {
                lemma_first_break_unique(buffer@, i as int);
            }
            return Some(i);
        }
        i += 1;
    }
    proof {
        lemma_first_break(buffer@);
    }
    None
}

/// The byte strings that a list of vectors holds.
pub open spec fn byte_views(list: Seq<Vec<u8>>) -> Seq<Seq<u8>> {
    list.map_values(|v: Vec<u8>| v@)
}

/// Cuts the complete events out of bytes: the events, and the rest.
fn cut_events(bytes: &[u8]) -> (res: (Vec<Vec<u8>>, Vec<u8>))
    ensures
        byte_views(res.0@) == events_of(bytes@),
        res.1@ == rest_of(bytes@),
{
    let total: usize = bytes.len();
    let mut events: Vec<Vec<u8>> = Vec::new();
    let mut start: usize = 0;
    assert(bytes@.skip(0) == bytes@);
    assert(byte_views(events@) + events_of(bytes@) == events_of(bytes@));
    loop
        invariant
            start <= total,
            total == bytes@.len(),
            byte_views(events@) + events_of(bytes@.skip(start as int)) == events_of(bytes@),
            rest_of(bytes@.skip(start as int)) == rest_of(bytes@),
        decreases total - start,
    {
        let remaining: &[u8] = slice_subrange(bytes, start, total);
        assert(remaining@ == bytes@.skip(start as int));
        match find_double_newline(remaining) {
            Some(at) => {
                let ghost before = events@;
                proof {
                    lemma_first_break(remaining@);
                }
                let event: Vec<u8> = slice_to_vec(slice_subrange(remaining, 0, at + 2));
                assert(event@ == remaining@.take(at + 2));
                events.push(event);
                start = start + at + 2;
                assert(byte_views(events@) == byte_views(before).push(event@));
                assert(remaining@.skip(at + 2) == bytes@.skip(start as int));
                assert(byte_views(before) + (seq![event@] + events_of(bytes@.skip(start as int)))
                    == byte_views(before).push(event@) + events_of(bytes@.skip(start as int)));
            },
            None => {
                assert(byte_views(events@) + Seq::<Seq<u8>>::empty() == byte_views(events@));
                return (events, slice_to_vec(remaining));
            },
        }
    }
}

// ---------------------------------------------------------------------------
// The data of an event
// ---------------------------------------------------------------------------

/// The data that a line of an event carries, if it is a data line.
pub open spec fn line_data(line: Seq<char>) -> Option<Seq<char>> {
    if begins_with(line, "data:"@) {
        Some(trimmed_start(line.skip("data:"@.len() as int)))
    } else {
        None
    }
}

/// The data of the data lines among several.
pub open spec fn data_of_lines(list: Seq<Seq<char>>) -> Seq<Seq<char>>
    decreases list.len(),
{
    if list.len() == 0 {
        Seq::empty()
    } else {
        match line_data(list.last()) {
            Some(data) => data_of_lines(list.drop_last()).push(data),
            None => data_of_lines(list.drop_last()),
        }
    }
}

/// The data lines of an event's text.
pub open spec fn data_in(text: Seq<char>) -> Seq<Seq<char>> {
    data_of_lines(lines_of(text))
}

/// The data lines of several events, in order.
pub open spec fn data_of_events(events: Seq<Seq<u8>>) -> Seq<Seq<char>>
    decreases events.len(),
{
    if events.len() == 0 {
        Seq::empty()
    } else {
        data_of_events(events.drop_last()) + data_in(lossy_text(events.last()))
    }
}

proof fn lemma_data_of_events_concat(a: Seq<Seq<u8>>, b: Seq<Seq<u8>>)
    ensures
        data_of_events(a + b) == data_of_events(a) + data_of_events(b),
    decreases b.len(),
{
    if b.len() == 0 {
        assert(a + b == a);
    } else {
        assert((a + b).drop_last() == a + b.drop_last());
        lemma_data_of_events_concat(a, b.drop_last());
    }
}

/// The data lines of an event's text.
pub fn data_lines(text: &str) -> (data: Vec<String>)
    ensures
        texts(data@) == data_in(text@),
{
    let list: Vec<String> = lines(text);
    let ghost all = texts(list@);
    let mut data: Vec<String> = Vec::new();
    let mut i: usize = 0;
    assert(texts(data@) == data_of_lines(all.take(0)));
    while i < list.len()
        invariant
            i <= list@.len(),
            all == texts(list@),
            texts(data@) == data_of_lines(all.take(i as int)),
        decreases list@.len() - i,
    {
        let ghost before = data@;
        assert(all.take(i + 1).drop_last() == all.take(i as int));
        match strip_prefix(list[i].as_str(), "data:") {
            Some(rest) => {
                let payload: String = trim_start(rest.as_str());
                data.push(payload);
                assert(texts(data@) == texts(before).push(payload@));
            },
            None => {},
        }
        i += 1;
    }
    assert(all.take(i as int) == all);
    data
}

/// The data lines of an event. One that is UTF-8 is read as it is.
pub fn event_data(event: &[u8]) -> (data: Vec<String>)
    ensures
        texts(data@) == data_in(lossy_text(event@)),
        valid_utf8(event@) ==> lossy_text(event@) == decode_utf8(event@),
        valid_utf8(event@) ==> texts(data@) == data_in(decode_utf8(event@)),
{
    let text: String = from_lossy(event);
    data_lines(text.as_str())
}

// ---------------------------------------------------------------------------
// Feeding the assembler
// ---------------------------------------------------------------------------

/// What the assembler does with the data of several events: the reply after
/// them, the text fragments that they brought, and the fault at which it
/// stopped.
pub ghost struct Absorbed {
    pub next: Assembly,
    pub fragments: Seq<Seq<char>>,
    pub fault: Option<Fault>,
}

/// The outcome of one event, given what its data reads as.
pub open spec fn absorbed_one(a: Assembly, data: Seq<char>) -> Absorbed {
    match document_of_text(data) {
        Some(event) => {
            let done = effect(a, event);
            Absorbed {
                next: done.next,
                fragments: match done.outcome {
                    Ok(Some(fragment)) => seq![fragment],
                    _ => Seq::empty(),
                },
                fault: match done.outcome {
                    Ok(_) => None,
                    Err(fault) => Some(fault),
                },
            }
        },
        None => Absorbed {
            next: a,
            fragments: Seq::empty(),
            fault: Some(Fault::InvalidPayload { data }),
        },
    }
}

/// The outcome of several events, up to the first fault.
pub open spec fn absorbed(a: Assembly, data: Seq<Seq<char>>) -> Absorbed
    decreases data.len(),
{
    if data.len() == 0 {
        Absorbed { next: a, fragments: Seq::empty(), fault: None }
    } else {
        let front = absorbed(a, data.drop_last());
        if front.fault is Some {
            front
        } else {
            let last = absorbed_one(front.next, data.last());
            Absorbed { fragments: front.fragments + last.fragments, ..last }
        }
    }
}

/// Data that comes in two parts has the effect of the whole, as long as the
/// first part shows no fault; if it does, the second part changes nothing.
pub proof fn law_absorbed_in_parts(a: Assembly, first: Seq<Seq<char>>, second: Seq<Seq<char>>)
    ensures
        absorbed(a, first + second) == if absorbed(a, first).fault is Some {
            absorbed(a, first)
        } else {
            let rest = absorbed(absorbed(a, first).next, second);
            Absorbed { fragments: absorbed(a, first).fragments + rest.fragments, ..rest }
        },
    decreases second.len(),
{
    if second.len() == 0 {
        assert(first + second == first);
        assert(absorbed(a, first).fragments + Seq::<Seq<char>>::empty() == absorbed(
            a,
            first,
        ).fragments);
    } else {
        assert((first + second).drop_last() == first + second.drop_last());
        law_absorbed_in_parts(a, first, second.drop_last());
        let head = absorbed(a, first);
        let middle = absorbed(head.next, second.drop_last());
        let last = absorbed_one(middle.next, second.last());
        assert((head.fragments + middle.fragments) + last.fragments == head.fragments + (
        middle.fragments + last.fragments));
    }
}

/// A reader of one streamed reply.
pub struct StreamReader {
    pub buffer: Vec<u8>,
    pub assembler: MessageAssembler,
}

/// What a [`StreamReader`] holds.
pub ghost struct Reading {
    pub buffer: Seq<u8>,
    pub assembly: Assembly,
}

impl View for StreamReader {
    type V = Reading;

    open spec fn view(&self) -> Reading {
        Reading { buffer: self.buffer@, assembly: self.assembler@ }
    }
}

/// What a chunk of bytes does to a reader.
pub open spec fn fed(reading: Reading, chunk: Seq<u8>) -> (Reading, Absorbed) {
    let bytes = reading.buffer + chunk;
    let done = absorbed(reading.assembly, data_of_events(events_of(bytes)));
    (Reading { buffer: rest_of(bytes), assembly: done.next }, done)
}

/// A reply does not depend on how its bytes are cut into chunks: two chunks
/// have the effect of the one that they make together, with the same text
/// fragments in the same order. Where the first chunk shows a fault, so does
/// the whole, after the same fragments.
pub proof fn law_chunks_do_not_matter(reading: Reading, first: Seq<u8>, second: Seq<u8>)
    ensures
        ({
            let one = fed(reading, first);
            let two = fed(one.0, second);
            let whole = fed(reading, first + second);
            if one.1.fault is Some {
                whole.1 == one.1
            } else {
                &&& whole.0 == two.0
                &&& whole.1.fragments == one.1.fragments + two.1.fragments
                &&& whole.1.fault == two.1.fault
            }
        }),
{
    let bytes = reading.buffer + first;
    assert(reading.buffer + (first + second) == bytes + second);
    law_events_across_chunks(bytes, second);
    lemma_data_of_events_concat(events_of(bytes), events_of(rest_of(bytes) + second));
    law_absorbed_in_parts(
        reading.assembly,
        data_of_events(events_of(bytes)),
        data_of_events(events_of(rest_of(bytes) + second)),
    );
}

/// What feeding a reader returns: the fragments to forward, in order, and the
/// error that ends the turn.
pub struct Fed {
    pub fragments: Vec<String>,
    pub error: Option<StreamError>,
}

/// The fault of an optional error.
pub open spec fn fault_of(error: Option<StreamError>) -> Option<Fault> {
    match error {
        Some(e) => Some(e@),
        None => None,
    }
}

/// Whether events that are UTF-8 are read as they are.
pub open spec fn read_as_they_are(events: Seq<Seq<u8>>) -> bool {
    forall|i: int|
        0 <= i < events.len() && valid_utf8(#[trigger] events[i]) ==> lossy_text(events[i])
            == decode_utf8(events[i])
}

impl StreamReader {
    /// A reader that has seen nothing.
    pub fn new() -> (reader: StreamReader)
        ensures
            reader@ == (Reading { buffer: Seq::empty(), assembly: empty_assembly() }),
    {
        StreamReader { buffer: Vec::new(), assembler: MessageAssembler::new() }
    }

    /// Takes in the next chunk of the body. Only complete events are decoded,
    /// so a character is never cut in half; those that are UTF-8 are read as
    /// they are.
    pub fn feed(&mut self, chunk: &[u8]) -> (fed_chunk: Fed)
        ensures
            final(self)@ == fed(old(self)@, chunk@).0,
            texts(fed_chunk.fragments@) == fed(old(self)@, chunk@).1.fragments,
            fault_of(fed_chunk.error) == fed(old(self)@, chunk@).1.fault,
            fed_chunk.error is None ==> read_as_they_are(events_of(old(self)@.buffer + chunk@)),
    {
        let ghost start = self@;
        self.buffer.extend_from_slice(chunk);
        assert(self.buffer@ == start.buffer + chunk@);
        let ghost bytes = self.buffer@;
        let (events, rest): (Vec<Vec<u8>>, Vec<u8>) = cut_events(self.buffer.as_slice());
        self.buffer = rest;
        let ghost all = events_of(bytes);
        let mut fragments: Vec<String> = Vec::new();
        let mut i: usize = 0;
        assert(all.take(0) == Seq::<Seq<u8>>::empty());
        assert(texts(fragments@) == Seq::<Seq<char>>::empty());
        while i < events.len()
            invariant
                i <= events@.len(),
                all == byte_views(events@),
                all == events_of(bytes),
                bytes == start.buffer + chunk@,
                self.buffer@ == rest_of(bytes),
                read_as_they_are(all.take(i as int)),
                ({
                    let so_far = absorbed(start.assembly, data_of_events(all.take(i as int)));
                    &&& so_far.fault is None
                    &&& so_far.next == self.assembler@
                    &&& so_far.fragments == texts(fragments@)
                }),
                start == old(self)@,
            decreases events@.len() - i,
        {
            let data: Vec<String> = event_data(events[i].as_slice());
            let ghost earlier = data_of_events(all.take(i as int));
            let ghost own = texts(data@);
            assert(all.take(i + 1).drop_last() == all.take(i as int));
            assert(data_of_events(all.take(i + 1)) == earlier + own);
            assert(read_as_they_are(all.take(i + 1))) by {
                let now = all.take(i + 1);
                assert forall|j: int| 0 <= j < now.len() && valid_utf8(#[trigger] now[j]) implies
                    lossy_text(now[j]) == decode_utf8(now[j]) by {
                    if j < i {
                        assert(all.take(i as int)[j] == now[j]);
                    }
                }
            }
            let mut k: usize = 0;
            assert(earlier + own.take(0) == earlier);
            while k < data.len()
                invariant
                    i < events@.len(),
                    k <= data@.len(),
                    own == texts(data@),
                    all == byte_views(events@),
                    all == events_of(bytes),
                    bytes == start.buffer + chunk@,
                    self.buffer@ == rest_of(bytes),
                    data_of_events(all.take(i + 1)) == earlier + own,
                    read_as_they_are(all.take(i + 1)),
                    ({
                        let so_far = absorbed(start.assembly, earlier + own.take(k as int));
                        &&& so_far.fault is None
                        &&& so_far.next == self.assembler@
                        &&& so_far.fragments == texts(fragments@)
                    }),
                    start == old(self)@,
                decreases data@.len() - k,
            {
                let ghost before = fragments@;
                let ghost fed_so_far = earlier + own.take(k + 1);
                assert(fed_so_far.drop_last() == earlier + own.take(k as int));
                assert(fed_so_far.last() == data@[k as int]@);
                match self.assembler.handle(data[k].as_str()) {
                    Ok(Some(fragment)) => {
                        fragments.push(fragment);
                        assert(texts(fragments@) == texts(before) + seq![fragment@]);
                    },
                    Ok(None) => {
                        assert(texts(before) + Seq::<Seq<char>>::empty() == texts(before));
                    },
                    Err(error) => {
                        proof {
                            assert(texts(before) + Seq::<Seq<char>>::empty() == texts(before));
                            let left = own.skip(k + 1);
                            let later = data_of_events(all.skip(i + 1));
                            assert(own.take(k + 1) + left == own);
                            assert(all.take(i + 1) + all.skip(i + 1) == all);
                            lemma_data_of_events_concat(all.take(i + 1), all.skip(i + 1));
                            assert(fed_so_far + (left + later) == data_of_events(all));
                            law_absorbed_in_parts(start.assembly, fed_so_far, left + later);
                        }
                        return Fed { fragments, error: Some(error) };
                    },
                }
                k += 1;
            }
            assert(own.take(k as int) == own);
            i += 1;
        }
        assert(all.take(i as int) == all);
        Fed { fragments, error: None }
    }

    /// The reply, once the body has ended.
    pub fn finish(self) -> (res: Result<ApiResponse, StreamError>)
        ensures
            match res {
                Ok(response) => {
                    &&& self@.assembly.stop_reason == Some(response.stop_reason@)
                    &&& block_models(response.content@) == self@.assembly.blocks
                    &&& response.usage == self@.assembly.usage
                },
                Err(error) => {
                    &&& self@.assembly.stop_reason is None
                    &&& error@ == Fault::NoStopReason
                },
            },
    {
        self.assembler.finish()
    }
}

// ---------------------------------------------------------------------------
// What reaches the assembler
// ---------------------------------------------------------------------------

/// Each complete event ends with a blank line and holds none before it.
pub proof fn law_events_end_with_a_blank_line(bytes: Seq<u8>)
    ensures
        forall|i: int|
            0 <= i < events_of(bytes).len() ==> {
                let event = #[trigger] events_of(bytes)[i];
                &&& event.len() >= 2
                &&& event[event.len() - 2] == 10 && event[event.len() - 1] == 10
                &&& forall|j: int|
                    0 <= j < event.len() - 2 ==> !(#[trigger] event[j] == 10 && event[j + 1] == 10)
            },
        forall|j: int|
            0 <= j < rest_of(bytes).len() - 1 ==> !(#[trigger] rest_of(bytes)[j] == 10 && rest_of(
                bytes,
            )[j + 1] == 10),
    decreases bytes.len(),
{
    lemma_first_break(bytes);
    match first_break(bytes) {
        Some(at) => {
            let event = bytes.take(at + 2);
            let more = bytes.skip(at + 2);
            law_events_end_with_a_blank_line(more);
            assert forall|j: int| 0 <= j < event.len() - 2 implies !(#[trigger] event[j] == 10
                && event[j + 1] == 10) by {
                assert(!is_break(bytes, j));
            }
            assert(events_of(bytes) == seq![event] + events_of(more));
            assert(rest_of(bytes) == rest_of(more));
            assert forall|i: int| 0 <= i < events_of(bytes).len() implies {
                let event = #[trigger] events_of(bytes)[i];
                &&& event.len() >= 2
                &&& event[event.len() - 2] == 10 && event[event.len() - 1] == 10
                &&& forall|j: int|
                    0 <= j < event.len() - 2 ==> !(#[trigger] event[j] == 10 && event[j + 1] == 10)
            } by {
                if i > 0 {
                    assert(events_of(bytes)[i] == events_of(more)[i - 1]);
                }
            }
        },
        None => {
            assert forall|j: int| 0 <= j < rest_of(bytes).len() - 1 implies !(#[trigger] rest_of(
                bytes,
            )[j] == 10 && rest_of(bytes)[j + 1] == 10) by {
                assert(!is_break(bytes, j));
            }
        },
    }
}

/// The data of an event is what its lines with data carry, one after the other
/// and nothing else: a line that begins with the word for data carries what
/// follows it, without the white space in front, any other line nothing.
pub proof fn law_data_lines_are_taken(line: Seq<char>, rest: Seq<char>, value: Seq<char>)
    requires
        !line.contains('\n'),
        line.len() == 0 || line.last() != '\r',
    ensures
        line == "data:"@ + value ==> data_in(line.push('\n') + rest) == seq![trimmed_start(value)]
            + data_in(rest),
        !("data:"@.is_prefix_of(line)) ==> data_in(line.push('\n') + rest) == data_in(rest),
        data_in(Seq::empty()) == Seq::<Seq<char>>::empty(),
{
    law_lines_follow_each_other(line, rest);
    lemma_data_of_lines_concat(seq![line], lines_of(rest));
    let word = "data:"@;
    assert(seq![line].drop_last() == Seq::<Seq<char>>::empty());
    assert(data_of_lines(Seq::<Seq<char>>::empty()) == Seq::<Seq<char>>::empty());
    if line == word + value {
        assert(line.subrange(0, word.len() as int) == word);
        assert(line.skip(word.len() as int) == value);
        assert(data_of_lines(seq![line]) == seq![trimmed_start(value)]);
    }
    if !word.is_prefix_of(line) {
        if begins_with(line, word) {
            assert(line.subrange(0, word.len() as int) == word);
            assert(word.is_prefix_of(line));
        }
        assert(data_of_lines(seq![line]) == Seq::<Seq<char>>::empty());
        assert(Seq::<Seq<char>>::empty() + data_in(rest) == data_in(rest));
    }
}

proof fn lemma_data_of_lines_concat(a: Seq<Seq<char>>, b: Seq<Seq<char>>)
    ensures
        data_of_lines(a + b) == data_of_lines(a) + data_of_lines(b),
    decreases b.len(),
{
    if b.len() == 0 {
        assert(a + b == a);
        assert(data_of_lines(a) + data_of_lines(b) == data_of_lines(a));
    } else {
        assert((a + b).drop_last() == a + b.drop_last());
        lemma_data_of_lines_concat(a, b.drop_last());
        if let Some(data) = line_data(b.last()) {
            assert(data_of_lines(a) + data_of_lines(b.drop_last()).push(data) == (data_of_lines(a)
                + data_of_lines(b.drop_last())).push(data));
        }
    }
}

/// The data of several events is that of each of them, in order.
pub proof fn law_events_give_their_data_in_order(first: Seq<Seq<u8>>, second: Seq<Seq<u8>>)
    ensures
        data_of_events(first + second) == data_of_events(first) + data_of_events(second),
        second.len() == 1 ==> data_of_events(second) == data_in(lossy_text(second[0])),
{
    lemma_data_of_events_concat(first, second);
    if second.len() == 1 {
        assert(data_of_events(second.drop_last()) == Seq::<Seq<char>>::empty());
        assert(Seq::<Seq<char>>::empty() + data_in(lossy_text(second[0])) == data_in(
            lossy_text(second[0]),
        ));
    }
}

/// What the event at a place of a stream shows, after those before it.
#[verifier::opaque]
pub open spec fn shown_at(a: Assembly, events: Seq<JsonModel>, i: int) -> Result<
    Option<Seq<char>>,
    Fault,
> {
    effect(after(a, events.take(i)), events[i]).outcome
}

proof fn lemma_shown_before_the_last(a: Assembly, events: Seq<JsonModel>)
    requires
        events.len() > 0,
    ensures
        forall|i: int|
            0 <= i < events.len() - 1 ==> shown_at(a, events.drop_last(), i) == #[trigger] shown_at(
                a,
                events,
                i,
            ),
{
    reveal(shown_at);
    assert forall|i: int| 0 <= i < events.len() - 1 implies shown_at(a, events.drop_last(), i)
        == #[trigger] shown_at(a, events, i) by {
        assert(events.drop_last().take(i) == events.take(i));
    }
}

proof fn lemma_absorbed_last(a: Assembly, data: Seq<Seq<char>>, events: Seq<JsonModel>)
    requires
        data.len() == events.len() > 0,
        document_of_text(data.last()) == Some(events.last()),
        absorbed(a, data.drop_last()).fault is None,
        absorbed(a, data.drop_last()).next == after(a, events.drop_last()),
        shown_at(a, events, events.len() - 1) is Ok,
    ensures
        absorbed(a, data).next == after(a, events),
        absorbed(a, data).fault is None,
        absorbed(a, data).fragments == match shown_at(a, events, events.len() - 1) {
            Ok(Some(fragment)) => absorbed(a, data.drop_last()).fragments.push(fragment),
            _ => absorbed(a, data.drop_last()).fragments,
        },
{
    reveal(shown_at);
    assert(events.take(events.len() - 1) == events.drop_last());
    let front = absorbed(a, data.drop_last()).fragments;
    assert(front + Seq::<Seq<char>>::empty() == front);
}

/// Data that reads as events has the effect of these events, each once and in
/// order, as long as none is a fault, and every text that an event brings is
/// forwarded once, in order, with nothing in between. The places of the events
/// that bring text are returned.
pub proof fn law_data_has_the_effect_of_its_events(
    a: Assembly,
    data: Seq<Seq<char>>,
    events: Seq<JsonModel>,
) -> (places: Seq<int>)
    requires
        data.len() == events.len(),
        forall|i: int|
            0 <= i < data.len() ==> document_of_text(#[trigger] data[i]) == Some(events[i]),
        forall|i: int| 0 <= i < data.len() ==> #[trigger] shown_at(a, events, i) is Ok,
    ensures
        absorbed(a, data).next == after(a, events),
        absorbed(a, data).fault is None,
        absorbed(a, data).fragments.len() == places.len(),
        forall|k: int|
            0 <= k < places.len() ==> {
                &&& 0 <= #[trigger] places[k] < events.len()
                &&& shown_at(a, events, places[k]) == Ok::<Option<Seq<char>>, Fault>(
                    Some(absorbed(a, data).fragments[k]),
                )
            },
        forall|k: int, l: int|
            0 <= k < l < places.len() ==> #[trigger] places[k] < #[trigger] places[l],
        forall|i: int|
            0 <= i < events.len() && (#[trigger] shown_at(a, events, i) matches Ok(Some(_)))
                ==> places.contains(i),
    decreases data.len(),
{
    if data.len() == 0 {
        Seq::empty()
    } else {
        let front = data.drop_last();
        let fewer = events.drop_last();
        let last = events.len() - 1;
        lemma_shown_before_the_last(a, events);
        assert forall|i: int| 0 <= i < front.len() implies document_of_text(#[trigger] front[i])
            == Some(fewer[i]) by {
            assert(front[i] == data[i]);
        }
        assert forall|i: int| 0 <= i < front.len() implies #[trigger] shown_at(
            a,
            fewer,
            i,
        ) is Ok by {
            assert(shown_at(a, events, i) is Ok);
        }
        let before = law_data_has_the_effect_of_its_events(a, front, fewer);
        assert(document_of_text(data[last]) == Some(events[last]));
        lemma_absorbed_last(a, data, events);
        let places = if shown_at(a, events, last) matches Ok(Some(_)) {
            before.push(last)
        } else {
            before
        };
        assert forall|k: int| 0 <= k < places.len() implies {
            &&& 0 <= #[trigger] places[k] < events.len()
            &&& shown_at(a, events, places[k]) == Ok::<Option<Seq<char>>, Fault>(
                Some(absorbed(a, data).fragments[k]),
            )
        } by {
            if k < before.len() {
                assert(places[k] == before[k]);
                assert(shown_at(a, fewer, before[k]) == shown_at(a, events, before[k]));
            }
        }
        assert forall|i: int|
            0 <= i < events.len() && (#[trigger] shown_at(a, events, i) matches Ok(
                Some(_),
            )) implies places.contains(i) by {
            if i < last {
                assert(shown_at(a, fewer, i) == shown_at(a, events, i));
                let k = choose|k: int| 0 <= k < before.len() && before[k] == i;
                assert(places[k] == i);
            } else {
                assert(places[before.len() as int] == i);
            }
        }
        places
    }
}

/// Reading stops at the first fault: data that is no JSON is one that names it,
/// and changes nothing.
pub proof fn law_data_that_is_no_json_is_a_fault(
    a: Assembly,
    data: Seq<Seq<char>>,
    bad: Seq<char>,
    more: Seq<Seq<char>>,
)
    requires
        absorbed(a, data).fault is None,
        document_of_text(bad) is None,
    ensures
        ({
            let done = absorbed(a, data.push(bad) + more);
            &&& done.next == absorbed(a, data).next
            &&& done.fragments == absorbed(a, data).fragments
            &&& done.fault == Some(Fault::InvalidPayload { data: bad })
        }),
{
    assert(data.push(bad).drop_last() == data);
    law_absorbed_in_parts(a, data.push(bad), more);
    assert(absorbed(a, data).fragments + Seq::<Seq<char>>::empty() == absorbed(a, data).fragments);
}

} // verus!
