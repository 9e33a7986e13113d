//! Minimal BM25 ranking over the chunk corpus, used as the lexical half of
//! hybrid search (fused with vector results via reciprocal rank fusion).
//!
//! The counts that a score is made of and the ranking by score are computed
//! here; the score itself is the caller's function of the counts.

use vstd::prelude::*;
use vstd::string::*;
use vstd::utf8::*;

use crate::order::{
    comes_before, key_models, law_stable_order, order_by_key, position_models, stable_order,
};
use crate::text::layout::{
    law_pieces_split_at_delimiters, law_text_without_delimiters_is_one_piece,
    lemma_pieces_nonempty, pieces,
};
use crate::text::{byte_len, chars_of, same_text, texts, utf8_len};

verus! {

broadcast use {
    vstd::string::group_string_axioms,
    vstd::seq_lib::group_seq_properties,
};

// ---------------------------------------------------------------------------
// Terms
// ---------------------------------------------------------------------------

/// Whether a character is alphabetic or numeric, as `char::is_alphanumeric`
/// has it.
pub uninterp spec fn alphanumeric(c: char) -> bool;

/// A text in lower case, as `str::to_lowercase` has it.
pub uninterp spec fn lowercased(s: Seq<char>) -> Seq<char>;

/// A letter or digit of ASCII.
pub open spec fn ascii_alphanumeric(c: char) -> bool {
    ||| '0' <= c <= '9'
    ||| 'A' <= c <= 'Z'
    ||| 'a' <= c <= 'z'
}

/// An ASCII character in lower case.
pub open spec fn ascii_lowercased(c: char) -> char {
    if 'A' <= c <= 'Z' {
        (c as u32 + 32) as char
    } else {
        c
    }
}

/// `char::is_alphanumeric`. Of ASCII, just the letters and digits are
/// alphanumeric; what else is, is left to the name.
#[verifier::external_body]
fn is_alphanumeric(c: char) -> (res: bool)
    ensures
        res == alphanumeric(c),
        (c as u32) < 128 ==> res == ascii_alphanumeric(c),
{
    c.is_alphanumeric()
}

/// `str::to_lowercase`. ASCII text changes letter by letter; what becomes of
/// other text is left to the name.
#[verifier::external_body]
fn to_lowercase(s: &str) -> (res: String)
    ensures
        res@ == lowercased(s@),
        is_ascii_chars(s@) ==> res@ == s@.map_values(|c: char| ascii_lowercased(c)),
{
    s.to_lowercase()
}

/// The terms of a text: the runs of alphanumeric characters that take more
/// than one byte, in lower case.
pub open spec fn terms_of(s: Seq<char>) -> Seq<Seq<char>> {
    pieces(s, |c: char| !alphanumeric(c)).filter(|t: Seq<char>| utf8_len(t) > 1).map_values(
        |t: Seq<char>| lowercased(t),
    )
}

proof fn lemma_pieces_at_delimiter(
    s: Seq<char>,
    c: char,
    t: Seq<char>,
    delimiter: spec_fn(char) -> bool,
)
    requires
        delimiter(c),
    ensures
        pieces(s.push(c) + t, delimiter) == pieces(s, delimiter) + pieces(t, delimiter),
{
    law_pieces_split_at_delimiters(s, c, t, delimiter);
}

/// A character that is not alphanumeric, such as the underscore of an
/// identifier, separates: what stands before it and what stands after it have
/// their terms to themselves.
pub proof fn law_terms_split_at_separators(s: Seq<char>, c: char, t: Seq<char>)
    requires
        !alphanumeric(c),
    ensures
        terms_of(s.push(c) + t) == terms_of(s) + terms_of(t),
{
    let other = |c: char| !alphanumeric(c);
    let long = |t: Seq<char>| utf8_len(t) > 1;
    let lower = |t: Seq<char>| lowercased(t);
    lemma_pieces_at_delimiter(s, c, t, other);
    Seq::filter_distributes_over_add(pieces(s, other), pieces(t, other), long);
    assert((pieces(s, other).filter(long) + pieces(t, other).filter(long)).map_values(lower)
        == pieces(s, other).filter(long).map_values(lower) + pieces(t, other).filter(
        long,
    ).map_values(lower));
}

/// The terms of an ASCII text: its runs of at least two letters and digits, in
/// lower case.
pub open spec fn ascii_terms_of(s: Seq<char>) -> Seq<Seq<char>> {
    pieces(s, |c: char| !ascii_alphanumeric(c)).filter(|t: Seq<char>| t.len() > 1).map_values(
        |t: Seq<char>| t.map_values(|c: char| ascii_lowercased(c)),
    )
}

proof fn lemma_pieces_agree(
    s: Seq<char>,
    one: spec_fn(char) -> bool,
    other: spec_fn(char) -> bool,
)
    requires
        forall|i: int| 0 <= i < s.len() ==> one(#[trigger] s[i]) == other(s[i]),
    ensures
        pieces(s, one) == pieces(s, other),
    decreases s.len(),
{
    if s.len() > 0 {
        let front = s.drop_last();
        assert forall|i: int| 0 <= i < front.len() implies one(#[trigger] front[i]) == other(
            front[i],
        ) by {
            assert(front[i] == s[i]);
        }
        lemma_pieces_agree(front, one, other);
        assert(s[s.len() - 1] == s.last());
    }
}

proof fn lemma_pieces_ascii(s: Seq<char>, delimiter: spec_fn(char) -> bool)
    requires
        is_ascii_chars(s),
    ensures
        forall|k: int|
            0 <= k < pieces(s, delimiter).len() ==> is_ascii_chars(
                #[trigger] pieces(s, delimiter)[k],
            ),
    decreases s.len(),
{
    if s.len() > 0 {
        let front = s.drop_last();
        assert(is_ascii_chars(front)) by {
            assert forall|i: int| 0 <= i < front.len() implies '\0' <= #[trigger] front[i]
                <= '\u{7f}' by {
                assert(front[i] == s[i]);
            }
        }
        lemma_pieces_ascii(front, delimiter);
        lemma_pieces_nonempty(front, delimiter);
        let before = pieces(front, delimiter);
        let last = before[before.len() - 1];
        assert('\0' <= s[s.len() - 1] <= '\u{7f}');
        assert(is_ascii_chars(last.push(s.last())));
    }
}

/// Whether the pieces of ASCII text that are terms change letter by letter.
spec fn lowered(list: Seq<Seq<char>>) -> bool {
    forall|k: int|
        0 <= k < list.len() && is_ascii_chars(#[trigger] list[k]) && utf8_len(list[k]) > 1
            ==> lowercased(list[k]) == list[k].map_values(|c: char| ascii_lowercased(c))
}

proof fn lemma_lowered_more(list: Seq<Seq<char>>)
    requires
        list.len() > 0,
        lowered(list.drop_last()),
        is_ascii_chars(list.last()) && utf8_len(list.last()) > 1 ==> lowercased(list.last())
            == list.last().map_values(|c: char| ascii_lowercased(c)),
    ensures
        lowered(list),
{
    let front = list.drop_last();
    assert forall|k: int|
        0 <= k < list.len() && is_ascii_chars(#[trigger] list[k]) && utf8_len(list[k]) > 1 implies
        lowercased(list[k]) == list[k].map_values(|c: char| ascii_lowercased(c)) by {
        if k < front.len() {
            assert(front[k] == list[k]);
        }
    }
}

proof fn lemma_ascii_pieces(list: Seq<Seq<char>>)
    requires
        forall|k: int| 0 <= k < list.len() ==> is_ascii_chars(#[trigger] list[k]),
        lowered(list),
    ensures
        list.filter(|t: Seq<char>| utf8_len(t) > 1).map_values(|t: Seq<char>| lowercased(t))
            == list.filter(|t: Seq<char>| t.len() > 1).map_values(
            |t: Seq<char>| t.map_values(|c: char| ascii_lowercased(c)),
        ),
    decreases list.len(),
{
    let long = |t: Seq<char>| utf8_len(t) > 1;
    let several = |t: Seq<char>| t.len() > 1;
    let lower = |t: Seq<char>| lowercased(t);
    let ascii_lower = |t: Seq<char>| t.map_values(|c: char| ascii_lowercased(c));
    reveal(Seq::filter);
    if list.len() > 0 {
        let front = list.drop_last();
        let last = list.last();
        assert forall|k: int| 0 <= k < front.len() implies is_ascii_chars(#[trigger] front[k]) by {
            assert(front[k] == list[k]);
        }
        assert(lowered(front)) by {
            assert forall|k: int|
                0 <= k < front.len() && is_ascii_chars(#[trigger] front[k]) && utf8_len(front[k])
                    > 1 implies lowercased(front[k]) == front[k].map_values(
                |c: char| ascii_lowercased(c),
            ) by {
                assert(front[k] == list[k]);
            }
        }
        lemma_ascii_pieces(front);
        assert(last == list[list.len() - 1]);
        is_ascii_chars_encode_utf8(last);
        if long(last) {
            assert(list.filter(long) == front.filter(long).push(last));
            assert(list.filter(several) == front.filter(several).push(last));
            assert(list.filter(long).map_values(lower) == front.filter(long).map_values(
                lower,
            ).push(lower(last)));
            assert(list.filter(several).map_values(ascii_lower) == front.filter(
                several,
            ).map_values(ascii_lower).push(ascii_lower(last)));
        } else {
            assert(list.filter(long) == front.filter(long));
            assert(list.filter(several) == front.filter(several));
        }
    } else {
        assert(list.filter(long).map_values(lower) == list.filter(several).map_values(
            ascii_lower,
        ));
    }
}

proof fn lemma_ascii_terms(s: Seq<char>)
    requires
        is_ascii_chars(s),
        forall|i: int|
            0 <= i < s.len() ==> alphanumeric(#[trigger] s[i]) == ascii_alphanumeric(s[i]),
        lowered(pieces(s, |c: char| !alphanumeric(c))),
    ensures
        terms_of(s) == ascii_terms_of(s),
{
    let one = |c: char| !alphanumeric(c);
    let other = |c: char| !ascii_alphanumeric(c);
    lemma_pieces_agree(s, one, other);
    lemma_pieces_ascii(s, one);
    lemma_ascii_pieces(pieces(s, one));
}

/// Lowercased alphanumeric terms; identifiers split on `_` and
/// non-alphanumerics. Of ASCII text, the terms are its runs of letters and
/// digits.
pub fn tokenize(text: &str) -> (terms: Vec<String>)
    ensures
        texts(terms@) == terms_of(text@),
        is_ascii_chars(text@) ==> texts(terms@) == ascii_terms_of(text@),
{
    let chars: Vec<char> = chars_of(text);
    let ghost other = |c: char| !alphanumeric(c);
    let ghost long = |t: Seq<char>| utf8_len(t) > 1;
    let ghost lower = |t: Seq<char>| lowercased(t);
    let mut terms: Vec<String> = Vec::new();
    let mut current: String = String::new();
    let mut i: usize = 0;
    proof {
        reveal_with_fuel(pieces, 2);
        reveal(Seq::filter);
        assert(chars@.take(0) == Seq::<char>::empty());
        assert(pieces(chars@.take(0), other).drop_last() == Seq::<Seq<char>>::empty());
        assert(texts(terms@) == Seq::<Seq<char>>::empty());
    }
    while i < chars.len()
        invariant
            i <= chars@.len(),
            chars@ == text@,
            other == (|c: char| !alphanumeric(c)),
            long == (|t: Seq<char>| utf8_len(t) > 1),
            lower == (|t: Seq<char>| lowercased(t)),
            pieces(chars@.take(i as int), other).len() >= 1,
            current@ == pieces(chars@.take(i as int), other).last(),
            texts(terms@) == pieces(chars@.take(i as int), other).drop_last().filter(
                long,
            ).map_values(lower),
            forall|k: int|
                0 <= k < i && (chars@[k] as u32) < 128 ==> alphanumeric(#[trigger] chars@[k])
                    == ascii_alphanumeric(chars@[k]),
            lowered(pieces(chars@.take(i as int), other).drop_last()),
        decreases chars@.len() - i,
    {
        let c: char = chars[i];
        let ghost before = pieces(chars@.take(i as int), other);
        let ghost listed = terms@;
        assert(chars@.take(i + 1).drop_last() == chars@.take(i as int));
        if is_alphanumeric(c) {
            current.push(c);
            assert(before.drop_last().push(before.last().push(c)).drop_last() == before.drop_last());
        } else {
            proof {
                reveal(Seq::filter);
                assert(before.push(Seq::empty()).drop_last() == before);
                assert(before == before.drop_last().push(before.last()));
            }
            if byte_len(current.as_str()) > 1 {
                let term: String = to_lowercase(current.as_str());
                terms.push(term);
                assert(texts(terms@) == texts(listed).push(term@));
                assert(before.filter(long).map_values(lower) == before.drop_last().filter(
                    long,
                ).map_values(lower).push(term@));
            }
            proof {
                lemma_lowered_more(before);
            }
            current = String::new();
        }
        i += 1;
    }
    proof {
        let all = pieces(chars@, other);
        assert(chars@.take(i as int) == chars@);
        assert(all == all.drop_last().push(all.last()));
        reveal(Seq::filter);
    }
    if byte_len(current.as_str()) > 1 {
        let ghost listed = terms@;
        let term: String = to_lowercase(current.as_str());
        terms.push(term);
        proof {
            let all = pieces(chars@, other);
            assert(texts(terms@) == texts(listed).push(term@));
            assert(all.filter(long).map_values(lower) == all.drop_last().filter(long).map_values(
                lower,
            ).push(term@));
        }
    }
    proof {
        lemma_lowered_more(pieces(chars@, other));
        if is_ascii_chars(text@) {
            lemma_ascii_terms(text@);
        }
    }
    terms
}

// ---------------------------------------------------------------------------
// Counts
// ---------------------------------------------------------------------------

/// How often a term occurs in a list.
pub open spec fn times(list: Seq<Seq<char>>, term: Seq<char>) -> nat
    decreases list.len(),
{
    if list.len() == 0 {
        0
    } else {
        times(list.drop_last(), term) + if list.last() == term {
            1nat
        } else {
            0nat
        }
    }
}

/// How many lists hold a term.
pub open spec fn lists_with(lists: Seq<Seq<Seq<char>>>, term: Seq<char>) -> nat
    decreases lists.len(),
{
    if lists.len() == 0 {
        0
    } else {
        lists_with(lists.drop_last(), term) + if times(lists.last(), term) > 0 {
            1nat
        } else {
            0nat
        }
    }
}

/// How many terms lists hold together.
pub open spec fn terms_in(lists: Seq<Seq<Seq<char>>>) -> nat
    decreases lists.len(),
{
    if lists.len() == 0 {
        0
    } else {
        terms_in(lists.drop_last()) + lists.last().len()
    }
}

/// What a score knows of one query term.
#[derive(Clone, Copy, Debug, PartialEq, Eq, Structural)]
pub struct TermCounts {
    /// Documents that hold the term.
    pub documents: usize,
    /// Times the term occurs in the scored document.
    pub occurrences: usize,
}

/// What a score knows of one document.
#[derive(Debug)]
pub struct DocumentCounts {
    /// Documents in the corpus.
    pub documents: usize,
    /// Terms in the corpus.
    pub corpus_terms: u128,
    /// Terms in the document.
    pub document_terms: usize,
    /// One entry for each query term.
    pub query_terms: Vec<TermCounts>,
}

/// The counts for one document of a corpus, given its terms.
pub open spec fn counted(
    counts: DocumentCounts,
    lists: Seq<Seq<Seq<char>>>,
    query: Seq<Seq<char>>,
    index: int,
) -> bool {
    &&& counts.documents == lists.len()
    &&& counts.corpus_terms == terms_in(lists)
    &&& counts.document_terms == lists[index].len()
    &&& counts.query_terms@.len() == query.len()
    &&& forall|k: int|
        0 <= k < query.len() ==> (#[trigger] counts.query_terms@[k]).documents == lists_with(
            lists,
            query[k],
        ) && counts.query_terms@[k].occurrences == times(lists[index], query[k])
}

/// The lists that vectors of strings hold.
pub open spec fn list_models(lists: Seq<Vec<String>>) -> Seq<Seq<Seq<char>>> {
    lists.map_values(|l: Vec<String>| texts(l@))
}

/// The terms of each document.
pub open spec fn corpus_terms_of(documents: Seq<Seq<char>>) -> Seq<Seq<Seq<char>>> {
    documents.map_values(|d: Seq<char>| terms_of(d))
}

fn count_term(list: &[String], term: &str) -> (n: usize)
    ensures
        n == times(texts(list@), term@),
        n <= list@.len(),
{
    let ghost all = texts(list@);
    let mut n: usize = 0;
    let mut i: usize = 0;
    assert(all.take(0) == Seq::<Seq<char>>::empty());
    while i < list.len()
        invariant
            i <= list@.len(),
            all == texts(list@),
            n == times(all.take(i as int), term@),
            n <= i,
        decreases list@.len() - i,
    {
        assert(all.take(i + 1).drop_last() == all.take(i as int));
        if same_text(list[i].as_str(), term) {
            n += 1;
        }
        i += 1;
    }
    assert(all.take(i as int) == all);
    n
}

fn count_lists_with(lists: &[Vec<String>], term: &str) -> (n: usize)
    ensures
        n == lists_with(list_models(lists@), term@),
{
    let ghost all = list_models(lists@);
    let mut n: usize = 0;
    let mut i: usize = 0;
    assert(all.take(0) == Seq::<Seq<Seq<char>>>::empty());
    while i < lists.len()
        invariant
            i <= lists@.len(),
            all == list_models(lists@),
            n == lists_with(all.take(i as int), term@),
            n <= i,
        decreases lists@.len() - i,
    {
        assert(all.take(i + 1).drop_last() == all.take(i as int));
        if count_term(lists[i].as_slice(), term) > 0 {
            n += 1;
        }
        i += 1;
    }
    assert(all.take(i as int) == all);
    n
}

fn count_corpus(lists: &[Vec<String>]) -> (n: u128)
    ensures
        n == terms_in(list_models(lists@)),
{
    let ghost all = list_models(lists@);
    let mut n: u128 = 0;
    let mut i: usize = 0;
    assert(all.take(0) == Seq::<Seq<Seq<char>>>::empty());
    while i < lists.len()
        invariant
            i <= lists@.len(),
            all == list_models(lists@),
            n == terms_in(all.take(i as int)),
            n <= i * 0xffff_ffff_ffff_ffff,
        decreases lists@.len() - i,
    {
        assert(all.take(i + 1).drop_last() == all.take(i as int));
        assert(all.take(i + 1).last() == texts(lists@[i as int]@));
        let size: usize = lists[i].len();
        n = n + size as u128;
        i += 1;
    }
    assert(all.take(i as int) == all);
    n
}

fn tokenize_all(documents: &[String]) -> (lists: Vec<Vec<String>>)
    ensures
        list_models(lists@) == corpus_terms_of(texts(documents@)),
{
    let mut lists: Vec<Vec<String>> = Vec::new();
    let mut i: usize = 0;
    while i < documents.len()
        invariant
            i <= documents@.len(),
            lists@.len() == i,
            forall|k: int|
                0 <= k < i ==> texts((#[trigger] lists@[k])@) == terms_of(documents@[k]@),
        decreases documents@.len() - i,
    {
        lists.push(tokenize(documents[i].as_str()));
        i += 1;
    }
    assert(list_models(lists@) == corpus_terms_of(texts(documents@)));
    lists
}

// ---------------------------------------------------------------------------
// Ranking
// ---------------------------------------------------------------------------

/// The documents with a score above nothing, with their scores.
pub open spec fn matching(scores: Seq<u32>) -> Seq<(usize, u32)>
    decreases scores.len(),
{
    if scores.len() == 0 {
        Seq::empty()
    } else if scores.last() > 0 {
        matching(scores.drop_last()).push(((scores.len() - 1) as usize, scores.last()))
    } else {
        matching(scores.drop_last())
    }
}

/// The keys that put the best score first.
pub open spec fn rank_keys(matches: Seq<(usize, u32)>) -> Seq<int> {
    matches.map_values(|m: (usize, u32)| -(m.1 as int))
}

/// The matching documents with their scores, best first, equal scores in the
/// order of the documents, at most `top_n`.
pub open spec fn best(scores: Seq<u32>, top_n: nat) -> Seq<(usize, u32)> {
    let matches = matching(scores);
    let order = stable_order(rank_keys(matches));
    Seq::new(
        if matches.len() <= top_n {
            matches.len()
        } else {
            top_n
        },
        |i: int| matches[order[i]],
    )
}

proof fn lemma_matching(scores: Seq<u32>)
    requires
        scores.len() <= usize::MAX,
    ensures
        forall|i: int|
            0 <= i < matching(scores).len() ==> {
                let m = #[trigger] matching(scores)[i];
                m.0 < scores.len() && m.1 > 0 && scores[m.0 as int] == m.1
            },
        forall|i: int, j: int|
            0 <= i < j < matching(scores).len() ==> (#[trigger] matching(scores)[i]).0 < (
            #[trigger] matching(scores)[j]).0,
        forall|d: int|
            0 <= d < scores.len() && scores[d] > 0 ==> matching(scores).contains(
                (d as usize, #[trigger] scores[d]),
            ),
    decreases scores.len(),
{
    if scores.len() > 0 {
        let front = scores.drop_last();
        lemma_matching(front);
        let all = matching(scores);
        let few = matching(front);
        assert forall|d: int| 0 <= d < scores.len() && scores[d] > 0 implies all.contains(
            (d as usize, #[trigger] scores[d]),
        ) by {
            if d < front.len() {
                assert(front[d] == scores[d]);
                assert(few.contains((d as usize, front[d])));
                let k = choose|k: int| 0 <= k < few.len() && few[k] == (d as usize, front[d]);
                assert(all[k] == (d as usize, scores[d]));
            } else {
                assert(all[few.len() as int] == (d as usize, scores[d]));
            }
        }
    }
}

/// The ranking lists matching documents only, best first, each at most once,
/// equal scores in the order of the documents; it leaves a match out only
/// where `top_n` others are ranked, none of them with a smaller score.
pub proof fn law_ranking_is_best_first(scores: Seq<u32>, top_n: nat)
    requires
        scores.len() <= usize::MAX,
    ensures
        best(scores, top_n).len() <= top_n,
        forall|i: int|
            0 <= i < best(scores, top_n).len() ==> {
                let m = #[trigger] best(scores, top_n)[i];
                m.0 < scores.len() && m.1 > 0 && scores[m.0 as int] == m.1
            },
        forall|i: int, j: int|
            0 <= i < j < best(scores, top_n).len() ==> {
                let a = #[trigger] best(scores, top_n)[i];
                let b = #[trigger] best(scores, top_n)[j];
                a.1 > b.1 || (a.1 == b.1 && a.0 < b.0)
            },
        forall|d: int|
            0 <= d < scores.len() && scores[d] > 0 && !best(scores, top_n).contains(
                (d as usize, #[trigger] scores[d]),
            ) ==> best(scores, top_n).len() == top_n && forall|i: int|
                0 <= i < top_n ==> (#[trigger] best(scores, top_n)[i]).1 >= scores[d],
{
    let matches = matching(scores);
    let keys = rank_keys(matches);
    let order = stable_order(keys);
    let ranking = best(scores, top_n);
    lemma_matching(scores);
    law_stable_order(keys);
    assert forall|i: int, j: int| 0 <= i < j < ranking.len() implies {
        let a = #[trigger] ranking[i];
        let b = #[trigger] ranking[j];
        a.1 > b.1 || (a.1 == b.1 && a.0 < b.0)
    } by {
        assert(comes_before(keys, order[i], order[j]));
    }
    assert forall|i: int| 0 <= i < ranking.len() implies {
        let m = #[trigger] ranking[i];
        m.0 < scores.len() && m.1 > 0 && scores[m.0 as int] == m.1
    } by {
        assert(0 <= order[i] < matches.len());
        assert(ranking[i] == matches[order[i]]);
    }
    assert forall|d: int|
        0 <= d < scores.len() && scores[d] > 0 && !ranking.contains(
            (d as usize, #[trigger] scores[d]),
        ) implies ranking.len() == top_n && forall|i: int|
        0 <= i < top_n ==> (#[trigger] ranking[i]).1 >= scores[d] by {
        let item = (d as usize, scores[d]);
        assert(matches.contains(item));
        let k = choose|k: int| 0 <= k < matches.len() && matches[k] == item;
        assert(order.contains(k));
        let at = choose|at: int| 0 <= at < order.len() && order[at] == k;
        if at < ranking.len() {
            assert(ranking[at] == item);
        }
        assert forall|i: int| 0 <= i < top_n implies (#[trigger] ranking[i]).1 >= scores[d] by {
            assert(comes_before(keys, order[i], order[at]));
            assert(0 <= order[i] < matches.len());
        }
    }
}

/// The matching documents with their scores, best first, at most `top_n`.
pub fn best_of(scores: &[u32], top_n: usize) -> (ranking: Vec<(usize, u32)>)
    ensures
        ranking@ == best(scores@, top_n as nat),
{
    let mut matches: Vec<(usize, u32)> = Vec::new();
    let mut keys: Vec<i128> = Vec::new();
    let mut i: usize = 0;
    assert(scores@.take(0) == Seq::<u32>::empty());
    while i < scores.len()
        invariant
            i <= scores@.len(),
            matches@ == matching(scores@.take(i as int)),
            key_models(keys@) == rank_keys(matches@),
        decreases scores@.len() - i,
    {
        let ghost before = matches@;
        let ghost listed = keys@;
        assert(scores@.take(i + 1).drop_last() == scores@.take(i as int));
        if scores[i] > 0 {
            matches.push((i, scores[i]));
            let key: i128 = -(scores[i] as i128);
            keys.push(key);
            assert(key_models(keys@) == key_models(listed).push(key as int));
            assert(rank_keys(matches@) == rank_keys(before).push(key as int));
        }
        i += 1;
    }
    assert(scores@.take(i as int) == scores@);
    let order: Vec<usize> = order_by_key(keys.as_slice());
    let ghost positions = stable_order(rank_keys(matches@));
    proof {
        law_stable_order(rank_keys(matches@));
    }
    let mut ranking: Vec<(usize, u32)> = Vec::new();
    let mut k: usize = 0;
    while k < order.len() && k < top_n
        invariant
            k <= order@.len(),
            k <= top_n,
            positions == position_models(order@),
            positions.len() == matches@.len(),
            forall|p: int| 0 <= p < positions.len() ==> 0 <= #[trigger] positions[p] < matches@.len(),
            ranking@.len() == k,
            forall|p: int| 0 <= p < k ==> #[trigger] ranking@[p] == matches@[positions[p]],
        decreases order@.len() - k,
    {
        assert(0 <= positions[k as int] < matches@.len());
        ranking.push(matches[order[k]]);
        k += 1;
    }
    assert(ranking@ == best(scores@, top_n as nat));
    ranking
}

/// Whether a number is what a scoring function gives for the counts of a
/// document.
pub open spec fn scored_at<F: Fn(&DocumentCounts) -> u32>(
    score: F,
    lists: Seq<Seq<Seq<char>>>,
    query: Seq<Seq<char>>,
    index: int,
    value: u32,
) -> bool {
    exists|counts: DocumentCounts|
        #[trigger] counted(counts, lists, query, index) && call_ensures(score, (&counts,), value)
}

/// Whether scores are what a scoring function gives for the counts of each
/// document.
pub open spec fn scored_by<F: Fn(&DocumentCounts) -> u32>(
    score: F,
    lists: Seq<Seq<Seq<char>>>,
    query: Seq<Seq<char>>,
    scores: Seq<u32>,
) -> bool {
    &&& scores.len() == lists.len()
    &&& forall|i: int|
        0 <= i < scores.len() ==> scored_at(score, lists, query, i, #[trigger] scores[i])
}

/// Whether a list is the ranking of documents for a query: nothing for a query
/// without terms, else the best of the scores that a function gives.
pub open spec fn is_ranking<F: Fn(&DocumentCounts) -> u32>(
    score: F,
    documents: Seq<Seq<char>>,
    query: Seq<char>,
    top_n: nat,
    ranking: Seq<(usize, u32)>,
) -> bool {
    if terms_of(query).len() == 0 {
        ranking.len() == 0
    } else {
        exists|scores: Seq<u32>| #[trigger]
            scored_by(score, corpus_terms_of(documents), terms_of(query), scores) && ranking
                == best(scores, top_n)
    }
}

/// Score every document against the query; returns the matching documents
/// with their scores, best first, at most `top_n`. A query without terms
/// matches nothing. The scoring function gives zero for no match, and a larger
/// number for a better one.
pub fn rank<F: Fn(&DocumentCounts) -> u32>(
    documents: &[String],
    query: &str,
    top_n: usize,
    score: F,
) -> (ranking: Vec<(usize, u32)>)
    requires
        forall|counts: DocumentCounts| call_requires(score, (&counts,)),
    ensures
        is_ranking(score, texts(documents@), query@, top_n as nat, ranking@),
        documents@.len() == 0 ==> ranking@.len() == 0,
        forall|i: int| 0 <= i < ranking@.len() ==> (#[trigger] ranking@[i]).0 < documents@.len(),
{
    let query_terms: Vec<String> = tokenize(query);
    let ghost terms = terms_of(query@);
    let ghost lists = corpus_terms_of(texts(documents@));
    assert(terms.len() == query_terms@.len());
    if query_terms.len() == 0 || documents.len() == 0 {
        proof {
            let none = Seq::<u32>::empty();
            if terms.len() > 0 {
                assert(scored_by(score, lists, terms, none));
                assert(best(none, top_n as nat) == Seq::<(usize, u32)>::empty());
            }
        }
        return Vec::new();
    }
    let tokenized: Vec<Vec<String>> = tokenize_all(documents);
    let total: u128 = count_corpus(tokenized.as_slice());
    assert(lists.len() == tokenized@.len());

    let mut frequencies: Vec<usize> = Vec::new();
    let mut t: usize = 0;
    while t < query_terms.len()
        invariant
            t <= query_terms@.len(),
            terms == texts(query_terms@),
            lists == list_models(tokenized@),
            frequencies@.len() == t,
            forall|k: int| 0 <= k < t ==> #[trigger] frequencies@[k] == lists_with(lists, terms[k]),
        decreases query_terms@.len() - t,
    {
        frequencies.push(count_lists_with(tokenized.as_slice(), query_terms[t].as_str()));
        t += 1;
    }

    let mut scores: Vec<u32> = Vec::new();
    let mut i: usize = 0;
    while i < tokenized.len()
        invariant
            i <= tokenized@.len(),
            terms == texts(query_terms@),
            lists == list_models(tokenized@),
            total == terms_in(lists),
            frequencies@.len() == query_terms@.len(),
            forall|k: int|
                0 <= k < terms.len() ==> #[trigger] frequencies@[k] == lists_with(lists, terms[k]),
            forall|counts: DocumentCounts| call_requires(score, (&counts,)),
            scores@.len() == i,
            forall|d: int|
                0 <= d < i ==> scored_at(score, lists, terms, d, #[trigger] scores@[d]),
        decreases tokenized@.len() - i,
    {
        let mut matches: Vec<TermCounts> = Vec::new();
        let mut k: usize = 0;
        while k < query_terms.len()
            invariant
                k <= query_terms@.len(),
                i < tokenized@.len(),
                terms == texts(query_terms@),
                lists == list_models(tokenized@),
                frequencies@.len() == query_terms@.len(),
                forall|q: int|
                    0 <= q < terms.len() ==> #[trigger] frequencies@[q] == lists_with(
                        lists,
                        terms[q],
                    ),
                matches@.len() == k,
                forall|q: int|
                    0 <= q < k ==> (#[trigger] matches@[q]).documents == lists_with(lists, terms[q])
                        && matches@[q].occurrences == times(lists[i as int], terms[q]),
            decreases query_terms@.len() - k,
        {
            assert(frequencies@[k as int] == lists_with(lists, terms[k as int]));
            let occurrences: usize = count_term(tokenized[i].as_slice(), query_terms[k].as_str());
            matches.push(TermCounts { documents: frequencies[k], occurrences });
            k += 1;
        }
        let counts: DocumentCounts = DocumentCounts {
            documents: tokenized.len(),
            corpus_terms: total,
            document_terms: tokenized[i].len(),
            query_terms: matches,
        };
        assert(lists[i as int] == texts(tokenized@[i as int]@));
        assert(counted(counts, lists, terms, i as int));
        let value: u32 = score(&counts);
        assert(scored_at(score, lists, terms, i as int, value));
        scores.push(value);
        i += 1;
    }
    assert(scored_by(score, lists, terms, scores@));
    proof {
        law_ranking_is_best_first(scores@, top_n as nat);
    }
    best_of(scores.as_slice(), top_n)
}

// ---------------------------------------------------------------------------
// What is counted
// ---------------------------------------------------------------------------

/// A run of alphanumeric characters is one term, in lower case, unless it takes
/// no more than one byte; then it is none.
pub proof fn law_run_is_one_term(run: Seq<char>)
    requires
        forall|i: int| 0 <= i < run.len() ==> alphanumeric(#[trigger] run[i]),
    ensures
        utf8_len(run) > 1 ==> terms_of(run) == seq![lowercased(run)],
        utf8_len(run) <= 1 ==> terms_of(run) == Seq::<Seq<char>>::empty(),
{
    let other = |c: char| !alphanumeric(c);
    let long = |t: Seq<char>| utf8_len(t) > 1;
    law_text_without_delimiters_is_one_piece(run, other);
    reveal(Seq::filter);
    let one = seq![run];
    assert(one.drop_last() == Seq::<Seq<char>>::empty());
    assert(Seq::<Seq<char>>::empty().filter(long) == Seq::<Seq<char>>::empty());
    if utf8_len(run) > 1 {
        assert(one.filter(long) == one);
    } else {
        assert(one.filter(long) == Seq::<Seq<char>>::empty());
    }
    assert(terms_of(run) == one.filter(long).map_values(|t: Seq<char>| lowercased(t)));
}

/// The terms of a list that are a term.
pub open spec fn equal_to(list: Seq<Seq<char>>, term: Seq<char>) -> Seq<Seq<char>> {
    list.filter(|t: Seq<char>| t == term)
}

/// The lists that hold a term.
pub open spec fn holding(lists: Seq<Seq<Seq<char>>>, term: Seq<char>) -> Seq<Seq<Seq<char>>> {
    lists.filter(|l: Seq<Seq<char>>| l.contains(term))
}

proof fn lemma_times(list: Seq<Seq<char>>, term: Seq<char>)
    ensures
        times(list, term) == equal_to(list, term).len(),
        times(list, term) > 0 <==> list.contains(term),
    decreases list.len(),
{
    reveal(Seq::filter);
    if list.len() > 0 {
        let front = list.drop_last();
        lemma_times(front, term);
        if front.contains(term) {
            let i = choose|i: int| 0 <= i < front.len() && front[i] == term;
            assert(list[i] == term);
        }
        if list.last() == term {
            assert(list[list.len() - 1] == term);
        }
        if list.contains(term) && list.last() != term {
            let i = choose|i: int| 0 <= i < list.len() && list[i] == term;
            assert(front[i] == term);
        }
    }
}

proof fn lemma_lists_with(lists: Seq<Seq<Seq<char>>>, term: Seq<char>)
    ensures
        lists_with(lists, term) == holding(lists, term).len(),
    decreases lists.len(),
{
    reveal(Seq::filter);
    if lists.len() > 0 {
        lemma_lists_with(lists.drop_last(), term);
        lemma_times(lists.last(), term);
    }
}

proof fn lemma_terms_in(lists: Seq<Seq<Seq<char>>>)
    ensures
        terms_in(lists) == lists.flatten().len(),
    decreases lists.len(),
{
    lists.lemma_flatten_and_flatten_alt_are_equivalent();
    if lists.len() > 0 {
        lemma_terms_in(lists.drop_last());
        lists.drop_last().lemma_flatten_and_flatten_alt_are_equivalent();
    }
}

/// The counts that a score is made of are those of the corpus: how many
/// documents there are and how many terms they hold together, how many terms
/// the document holds, and for each term of the query how many documents hold
/// it and how often it occurs in the document.
pub proof fn law_counts_are_those_of_the_corpus(
    counts: DocumentCounts,
    lists: Seq<Seq<Seq<char>>>,
    query: Seq<Seq<char>>,
    index: int,
)
    requires
        counted(counts, lists, query, index),
    ensures
        counts.documents == lists.len(),
        counts.corpus_terms == lists.flatten().len(),
        counts.document_terms == lists[index].len(),
        counts.query_terms@.len() == query.len(),
        forall|k: int|
            0 <= k < query.len() ==> {
                &&& (#[trigger] counts.query_terms@[k]).documents == holding(
                    lists,
                    query[k],
                ).len()
                &&& counts.query_terms@[k].occurrences == equal_to(lists[index], query[k]).len()
            },
{
    lemma_terms_in(lists);
    assert forall|k: int| 0 <= k < query.len() implies {
        &&& (#[trigger] counts.query_terms@[k]).documents == holding(lists, query[k]).len()
        &&& counts.query_terms@[k].occurrences == equal_to(lists[index], query[k]).len()
    } by {
        lemma_lists_with(lists, query[k]);
        lemma_times(lists[index], query[k]);
    }
}

/// A query with terms has every document of the corpus scored, by the counts
/// of the terms of the document and of the query; the ranking lists those that
/// score, best first, equal ones in their order, and leaves one out only where
/// as many as are asked for score no less. The scores are returned.
pub proof fn law_every_document_is_scored<F: Fn(&DocumentCounts) -> u32>(
    score: F,
    documents: Seq<Seq<char>>,
    query: Seq<char>,
    top_n: nat,
    ranking: Seq<(usize, u32)>,
) -> (scores: Seq<u32>)
    requires
        is_ranking(score, documents, query, top_n, ranking),
        documents.len() <= usize::MAX,
        terms_of(query).len() > 0,
    ensures
        scores.len() == documents.len(),
        forall|d: int|
            0 <= d < documents.len() ==> scored_at(
                score,
                Seq::new(documents.len(), |i: int| terms_of(documents[i])),
                terms_of(query),
                d,
                #[trigger] scores[d],
            ),
        ranking.len() <= top_n,
        forall|i: int|
            0 <= i < ranking.len() ==> {
                let m = #[trigger] ranking[i];
                m.0 < documents.len() && m.1 > 0 && scores[m.0 as int] == m.1
            },
        forall|i: int, j: int|
            0 <= i < j < ranking.len() ==> {
                let a = #[trigger] ranking[i];
                let b = #[trigger] ranking[j];
                a.1 > b.1 || (a.1 == b.1 && a.0 < b.0)
            },
        forall|d: int|
            0 <= d < documents.len() && scores[d] > 0 && !ranking.contains(
                (d as usize, #[trigger] scores[d]),
            ) ==> ranking.len() == top_n && forall|i: int|
                0 <= i < top_n ==> (#[trigger] ranking[i]).1 >= scores[d],
{
    let lists = Seq::new(documents.len(), |i: int| terms_of(documents[i]));
    assert(corpus_terms_of(documents) == lists);
    let scores = choose|scores: Seq<u32>| #[trigger]
        scored_by(score, corpus_terms_of(documents), terms_of(query), scores) && ranking == best(
            scores,
            top_n,
        );
    law_ranking_is_best_first(scores, top_n);
    scores
}

/// Of ASCII text, what stands before a character that is neither letter nor
/// digit and what stands after it have their terms to themselves, and a run of at
/// least two letters and digits is a term, with its capitals as small letters.
pub proof fn law_ascii_runs_are_terms(s: Seq<char>, c: char, t: Seq<char>)
    ensures
        !ascii_alphanumeric(c) ==> ascii_terms_of(s.push(c) + t) == ascii_terms_of(s)
            + ascii_terms_of(t),
        (forall|i: int| 0 <= i < s.len() ==> ascii_alphanumeric(#[trigger] s[i])) && s.len() > 1
            ==> ascii_terms_of(s).len() == 1 && ascii_terms_of(s)[0].len() == s.len() && forall|
            i: int,
        |
            0 <= i < s.len() ==> #[trigger] ascii_terms_of(s)[0][i] == if 'A' <= s[i] <= 'Z' {
                (s[i] as u32 + 32) as char
            } else {
                s[i]
            },
        s.len() <= 1 ==> ascii_terms_of(s) == Seq::<Seq<char>>::empty(),
{
    let other = |c: char| !ascii_alphanumeric(c);
    let long = |t: Seq<char>| t.len() > 1;
    let lower = |t: Seq<char>| t.map_values(|c: char| ascii_lowercased(c));
    reveal(Seq::filter);
    assert(Seq::<Seq<char>>::empty().filter(long) == Seq::<Seq<char>>::empty());
    if !ascii_alphanumeric(c) {
        law_pieces_split_at_delimiters(s, c, t, other);
        Seq::filter_distributes_over_add(pieces(s, other), pieces(t, other), long);
        assert((pieces(s, other).filter(long) + pieces(t, other).filter(long)).map_values(lower)
            == pieces(s, other).filter(long).map_values(lower) + pieces(t, other).filter(
            long,
        ).map_values(lower));
    }
    if (forall|i: int| 0 <= i < s.len() ==> ascii_alphanumeric(#[trigger] s[i])) && s.len() > 1 {
        law_text_without_delimiters_is_one_piece(s, other);
        assert(seq![s].drop_last() == Seq::<Seq<char>>::empty());
        assert(seq![s].filter(long) == seq![s]);
        assert(ascii_terms_of(s) == seq![s].map_values(lower));
    }
    if s.len() <= 1 {
        if s.len() == 0 {
            assert(pieces(s, other) == seq![s]);
            assert(seq![s].drop_last() == Seq::<Seq<char>>::empty());
            assert(seq![s].filter(long) == Seq::<Seq<char>>::empty());
        } else if ascii_alphanumeric(s[0]) {
            law_text_without_delimiters_is_one_piece(s, other);
            assert(seq![s].drop_last() == Seq::<Seq<char>>::empty());
            assert(seq![s].filter(long) == Seq::<Seq<char>>::empty());
        } else {
            let none = Seq::<char>::empty();
            let two = seq![none, none];
            assert(s.drop_last() == none);
            assert(pieces(none, other) == seq![none]);
            assert(pieces(s, other) == two);
            assert(two.drop_last() == seq![none]);
            assert(seq![none].drop_last() == Seq::<Seq<char>>::empty());
            assert(seq![none].filter(long) == Seq::<Seq<char>>::empty());
            assert(two.filter(long) == Seq::<Seq<char>>::empty());
        }
        assert(ascii_terms_of(s) == Seq::<Seq<char>>::empty());
    }
}

} // verus!
