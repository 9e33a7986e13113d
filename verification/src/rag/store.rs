//! What is kept of a chunk in the vector store, and what is read back.

use vstd::prelude::*;
use vstd::string::*;
use vstd::utf8::*;

use crate::json::{as_integer, as_text, at, count_model, entry_of, Json, JsonModel};
use crate::rag::chunker::Chunk;
use crate::text::number::{decimal, decimal_of, law_decimal_is_plain};

verus! {

broadcast use {
    vstd::string::group_string_axioms,
    vstd::seq_lib::group_seq_properties,
};

/// The digest that `blake3::hash` gives of bytes.
pub uninterp spec fn digest(bytes: Seq<u8>) -> Seq<u8>;

/// `blake3::hash`: the 32 bytes of the digest, which depend on the input
/// alone. Nothing is claimed of collisions.
#[verifier::external_body]
pub(crate) fn hash_bytes(bytes: &[u8]) -> (hash: [u8; 32])
    ensures
        hash@ == digest(bytes@),
{
    *blake3::hash(bytes).as_bytes()
}

/// Where a chunk is: its path and its first line.
pub open spec fn location_key(path: Seq<char>, start_line: nat) -> Seq<char> {
    path + ":"@ + decimal(start_line)
}

/// Where a chunk is: its path and its first line.
pub fn location(path: &str, start_line: usize) -> (key: String)
    ensures
        key@ == location_key(path@, start_line as nat),
{
    let line: String = decimal_of(start_line);
    path.to_owned().concat(":").concat(line.as_str())
}

/// The number that eight bytes make, the least significant first.
pub open spec fn little_endian(b: Seq<u8>) -> int {
    b[0] + b[1] * 0x100 + b[2] * 0x1_0000 + b[3] * 0x100_0000 + b[4] * 0x1_0000_0000 + b[5]
        * 0x100_0000_0000 + b[6] * 0x1_0000_0000_0000 + b[7] * 0x100_0000_0000_0000
}

/// The id of a point: the number that the first eight bytes of the digest of
/// its location make.
pub open spec fn point_number(path: Seq<char>, start_line: nat) -> int {
    little_endian(digest(encode_utf8(location_key(path, start_line))))
}

/// Stable point id derived from the chunk location; re-upserts overwrite.
pub fn point_id(path: &str, chunk: &Chunk) -> (id: u64)
    ensures
        id == point_number(path@, chunk.start_line as nat),
{
    let key: String = location(path, chunk.start_line);
    let hash: [u8; 32] = hash_bytes(key.as_str().as_bytes());
    let b: &[u8] = hash.as_slice();
    b[0] as u64 + b[1] as u64 * 0x100 + b[2] as u64 * 0x1_0000 + b[3] as u64 * 0x100_0000
        + b[4] as u64 * 0x1_0000_0000 + b[5] as u64 * 0x100_0000_0000 + b[6] as u64
        * 0x1_0000_0000_0000 + b[7] as u64 * 0x100_0000_0000_0000
}

/// What is kept of a chunk of a file.
pub open spec fn payload_model(path: Seq<char>, chunk: Chunk) -> JsonModel {
    JsonModel::Object(
        seq![
            ("path"@, JsonModel::Text(path)),
            ("start_line"@, count_model(chunk.start_line as u64)),
            ("end_line"@, count_model(chunk.end_line as u64)),
            ("text"@, JsonModel::Text(chunk.text@)),
        ],
    )
}

/// What is kept of a chunk of a file.
pub fn payload(path: &str, chunk: &Chunk) -> (document: Json)
    ensures
        document@ == payload_model(path@, *chunk),
{
    let document: Json = Json::object().with("path", Json::text(path)).with(
        "start_line",
        Json::count(chunk.start_line as u64),
    ).with("end_line", Json::count(chunk.end_line as u64)).with(
        "text",
        Json::text(chunk.text.as_str()),
    );
    assert(document@->Object_0 == payload_model(path@, *chunk)->Object_0);
    document
}

/// One retrieved chunk. The score is kept as the bits of the number that the
/// store reports.
#[derive(Debug)]
pub struct SearchHit {
    pub path: String,
    pub start_line: usize,
    pub end_line: usize,
    pub text: String,
    pub score_bits: u32,
}

/// An integer of a payload as a line number; zero where it is missing.
pub open spec fn line_number(value: Option<i64>) -> usize {
    match value {
        Some(n) => n as usize,
        None => 0,
    }
}

/// A text of a payload; empty where it is missing.
pub open spec fn text_of(value: Option<String>) -> Seq<char> {
    match value {
        Some(t) => t@,
        None => Seq::empty(),
    }
}

fn line_or_zero(value: Option<i64>) -> (n: usize)
    ensures
        n == line_number(value),
{
    match value {
        Some(n) => n as usize,
        None => 0,
    }
}

fn text_or_none(value: Option<String>) -> (text: String)
    ensures
        text@ == text_of(value),
{
    match value {
        Some(t) => t,
        None => String::new(),
    }
}

impl SearchHit {
    /// The hit for a point, from the fields of its payload that have the type
    /// that was stored.
    pub fn from_fields(
        path: Option<String>,
        start_line: Option<i64>,
        end_line: Option<i64>,
        text: Option<String>,
        score_bits: u32,
    ) -> (hit: SearchHit)
        ensures
            hit.path@ == text_of(path),
            hit.start_line == line_number(start_line),
            hit.end_line == line_number(end_line),
            hit.text@ == text_of(text),
            hit.score_bits == score_bits,
    {
        SearchHit {
            path: text_or_none(path),
            start_line: line_or_zero(start_line),
            end_line: line_or_zero(end_line),
            text: text_or_none(text),
            score_bits,
        }
    }
}

/// A chunk reads back as it was stored: its path, its text, and its lines as
/// long as they fit in the store's integers.
pub proof fn law_payload_reads_back(path: Seq<char>, chunk: Chunk)
    requires
        chunk.start_line <= i64::MAX,
        chunk.end_line <= i64::MAX,
    ensures
        as_text(at(payload_model(path, chunk), "path"@)) == Some(path),
        line_number(as_integer(at(payload_model(path, chunk), "start_line"@)))
            == chunk.start_line,
        line_number(as_integer(at(payload_model(path, chunk), "end_line"@))) == chunk.end_line,
        as_text(at(payload_model(path, chunk), "text"@)) == Some(chunk.text@),
{
    reveal_strlit("path");
    reveal_strlit("start_line");
    reveal_strlit("end_line");
    reveal_strlit("text");
    assert("path"@[0] != "text"@[0]);
    assert("path"@.len() != "start_line"@.len());
    assert("path"@.len() != "end_line"@.len());
    assert("start_line"@.len() != "end_line"@.len());
    assert("start_line"@.len() != "text"@.len());
    assert("end_line"@.len() != "text"@.len());
    reveal_with_fuel(entry_of, 5);
    let entries = payload_model(path, chunk)->Object_0;
    assert(entries.drop_first()[0] == entries[1]);
    assert(entries.drop_first().drop_first()[0] == entries[2]);
    assert(entries.drop_first().drop_first().drop_first()[0] == entries[3]);
}

/// No two places have the same key: the path and the first line can both be
/// told from it.
pub proof fn law_locations_tell_apart(
    path: Seq<char>,
    start_line: nat,
    other_path: Seq<char>,
    other_line: nat,
)
    ensures
        location_key(path, start_line) == location_key(other_path, other_line) ==> path
            == other_path && start_line == other_line,
{
    let one = location_key(path, start_line);
    let other = location_key(other_path, other_line);
    reveal_strlit(":");
    law_decimal_is_plain(start_line, other_line);
    law_decimal_is_plain(other_line, start_line);
    if one == other {
        let a = path.len() as int;
        let b = other_path.len() as int;
        assert(one[a] == ':' && other[b] == ':');
        assert(one.len() == a + 1 + decimal(start_line).len());
        assert(other.len() == b + 1 + decimal(other_line).len());
        if a < b {
            assert(one[b] == decimal(start_line)[b - a - 1]);
        }
        if b < a {
            assert(other[a] == decimal(other_line)[a - b - 1]);
        }
        assert(one.take(a) == path && other.take(b) == other_path);
        assert(one.skip(a + 1) == decimal(start_line) && other.skip(b + 1) == decimal(
            other_line,
        ));
    }
}

/// The number of eight bytes holds each of them, the first as its least part:
/// no two lists of eight bytes make the same number.
pub proof fn law_bytes_can_be_told_from_their_number(b: Seq<u8>, c: Seq<u8>)
    ensures
        0 <= little_endian(b) < 0x1_0000_0000_0000_0000,
        little_endian(b) % 0x100 == b[0],
        little_endian(b) == little_endian(c) ==> forall|i: int| 0 <= i < 8 ==> b[i] == c[i],
{
    if little_endian(b) == little_endian(c) {
        let b7 = b[7] as int;
        let c7 = c[7] as int;
        let b6 = b[6] + 0x100 * b7;
        let c6 = c[6] + 0x100 * c7;
        let b5 = b[5] + 0x100 * b6;
        let c5 = c[5] + 0x100 * c6;
        let b4 = b[4] + 0x100 * b5;
        let c4 = c[4] + 0x100 * c5;
        let b3 = b[3] + 0x100 * b4;
        let c3 = c[3] + 0x100 * c4;
        let b2 = b[2] + 0x100 * b3;
        let c2 = c[2] + 0x100 * c3;
        let b1 = b[1] + 0x100 * b2;
        let c1 = c[1] + 0x100 * c2;
        assert(little_endian(b) == b[0] + 0x100 * b1);
        assert(little_endian(c) == c[0] + 0x100 * c1);
        lemma_low_byte(b[0], b1, c[0], c1);
        lemma_low_byte(b[1], b2, c[1], c2);
        lemma_low_byte(b[2], b3, c[2], c3);
        lemma_low_byte(b[3], b4, c[3], c4);
        lemma_low_byte(b[4], b5, c[4], c5);
        lemma_low_byte(b[5], b6, c[5], c6);
        lemma_low_byte(b[6], b7, c[6], c7);
        assert forall|i: int| 0 <= i < 8 implies b[i] == c[i] by {
            assert(i == 0 || i == 1 || i == 2 || i == 3 || i == 4 || i == 5 || i == 6 || i == 7);
        }
    }
}

proof fn lemma_low_byte(low: u8, high: int, other_low: u8, other_high: int)
    requires
        low + 0x100 * high == other_low + 0x100 * other_high,
    ensures
        low == other_low,
        high == other_high,
{
}

/// A hit holds the fields of its point as they are; a line that is missing is
/// zero, and a text that is missing is empty.
pub proof fn law_hits_hold_their_fields(
    path: Option<String>,
    start_line: Option<i64>,
    end_line: Option<i64>,
    text: Option<String>,
    score_bits: u32,
    hit: SearchHit,
)
    requires
        call_ensures(SearchHit::from_fields, (path, start_line, end_line, text, score_bits), hit),
    ensures
        path matches Some(p) ==> hit.path@ == p@,
        path is None ==> hit.path@.len() == 0,
        text matches Some(t) ==> hit.text@ == t@,
        text is None ==> hit.text@.len() == 0,
        start_line matches Some(n) ==> (0 <= n <= usize::MAX ==> hit.start_line == n),
        start_line is None ==> hit.start_line == 0,
        end_line matches Some(n) ==> (0 <= n <= usize::MAX ==> hit.end_line == n),
        end_line is None ==> hit.end_line == 0,
        hit.score_bits == score_bits,
{
}

/// The id of a chunk depends on where it is, and on nothing else.
pub proof fn law_points_are_known_by_place(
    path: &str,
    one: Chunk,
    other: Chunk,
    id: u64,
    other_id: u64,
)
    requires
        call_ensures(point_id, (path, &one), id),
        call_ensures(point_id, (path, &other), other_id),
        one.start_line == other.start_line,
    ensures
        id == other_id,
        id == little_endian(
            digest(encode_utf8(path@ + ":"@ + decimal(one.start_line as nat))),
        ),
{
}

} // verus!
