//! Whitespace, words and lines.

use vstd::prelude::*;
use vstd::string::*;

use crate::text::{chars_of, joined, text_between, texts};

verus! {

broadcast use {
    vstd::string::group_string_axioms,
    vstd::seq_lib::group_seq_properties,
};

/// The characters with the Unicode property White_Space.
pub open spec fn is_space(c: char) -> bool {
    let u = c as u32;
    ||| 0x09 <= u <= 0x0D
    ||| u == 0x20
    ||| u == 0x85
    ||| u == 0xA0
    ||| u == 0x1680
    ||| 0x2000 <= u <= 0x200A
    ||| u == 0x2028
    ||| u == 0x2029
    ||| u == 0x202F
    ||| u == 0x205F
    ||| u == 0x3000
}

/// Whether a character is white space.
pub fn white_space(c: char) -> (res: bool)
    ensures
        res == is_space(c),
{
    let u: u32 = c as u32;
    (0x09 <= u && u <= 0x0D) || u == 0x20 || u == 0x85 || u == 0xA0 || u == 0x1680 || (0x2000 <= u
        && u <= 0x200A) || u == 0x2028 || u == 0x2029 || u == 0x202F || u == 0x205F || u == 0x3000
}

/// The text without the white space at its start.
pub open spec fn trimmed_start(s: Seq<char>) -> Seq<char>
    decreases s.len(),
{
    if s.len() > 0 && is_space(s[0]) {
        trimmed_start(s.drop_first())
    } else {
        s
    }
}

/// The text without the white space at its end.
pub open spec fn trimmed_end(s: Seq<char>) -> Seq<char>
    decreases s.len(),
{
    if s.len() > 0 && is_space(s.last()) {
        trimmed_end(s.drop_last())
    } else {
        s
    }
}

/// The text without the white space at either end.
pub open spec fn trimmed(s: Seq<char>) -> Seq<char> {
    trimmed_end(trimmed_start(s))
}

fn start_of_text(chars: &[char]) -> (at: usize)
    ensures
        at <= chars@.len(),
        chars@.skip(at as int) == trimmed_start(chars@),
{
    let mut at: usize = 0;
    assert(chars@.skip(0) == chars@);
    while at < chars.len() && white_space(chars[at])
        invariant
            at <= chars@.len(),
            trimmed_start(chars@.skip(at as int)) == trimmed_start(chars@),
        decreases chars@.len() - at,
    {
        assert(chars@.skip(at as int).drop_first() == chars@.skip(at + 1));
        at += 1;
    }
    at
}

/// Removes the white space at the start.
pub fn trim_start(s: &str) -> (out: String)
    ensures
        out@ == trimmed_start(s@),
{
    let chars: Vec<char> = chars_of(s);
    let at: usize = start_of_text(chars.as_slice());
    text_between(chars.as_slice(), at, chars.len())
}

fn end_of_text(chars: &[char], from: usize) -> (end: usize)
    requires
        from <= chars@.len(),
    ensures
        from <= end <= chars@.len(),
        chars@.subrange(from as int, end as int) == trimmed_end(chars@.skip(from as int)),
{
    let mut end: usize = chars.len();
    assert(chars@.subrange(from as int, end as int) == chars@.skip(from as int));
    while end > from && white_space(chars[end - 1])
        invariant
            from <= end <= chars@.len(),
            trimmed_end(chars@.subrange(from as int, end as int)) == trimmed_end(
                chars@.skip(from as int),
            ),
        decreases end,
    {
        assert(chars@.subrange(from as int, end as int).drop_last() == chars@.subrange(
            from as int,
            end - 1,
        ));
        end -= 1;
    }
    end
}

/// Removes the white space at the end.
pub fn trim_end(s: &str) -> (out: String)
    ensures
        out@ == trimmed_end(s@),
{
    let chars: Vec<char> = chars_of(s);
    let end: usize = end_of_text(chars.as_slice(), 0);
    assert(chars@.skip(0) == chars@);
    text_between(chars.as_slice(), 0, end)
}

/// Removes the white space at both ends.
pub fn trim(s: &str) -> (out: String)
    ensures
        out@ == trimmed(s@),
{
    let chars: Vec<char> = chars_of(s);
    let at: usize = start_of_text(chars.as_slice());
    let end: usize = end_of_text(chars.as_slice(), at);
    text_between(chars.as_slice(), at, end)
}

// ---------------------------------------------------------------------------
// Pieces between delimiters
// ---------------------------------------------------------------------------

/// The pieces between the characters that `delimiter` picks, empty ones
/// included: one more piece than there are such characters.
pub open spec fn pieces(s: Seq<char>, delimiter: spec_fn(char) -> bool) -> Seq<Seq<char>>
    decreases s.len(),
{
    if s.len() == 0 {
        seq![Seq::empty()]
    } else {
        let before = pieces(s.drop_last(), delimiter);
        if delimiter(s.last()) {
            before.push(Seq::empty())
        } else {
            before.drop_last().push(before.last().push(s.last()))
        }
    }
}

/// There is always a last piece.
pub proof fn lemma_pieces_nonempty(s: Seq<char>, delimiter: spec_fn(char) -> bool)
    ensures
        pieces(s, delimiter).len() >= 1,
    decreases s.len(),
{
    if s.len() > 0 {
        lemma_pieces_nonempty(s.drop_last(), delimiter);
    }
}

/// The words of a text: its pieces between white space that are not empty.
pub open spec fn words_of(s: Seq<char>) -> Seq<Seq<char>> {
    pieces(s, |c: char| is_space(c)).filter(|w: Seq<char>| w.len() > 0)
}

/// Splits a text into its words.
pub fn words(s: &str) -> (out: Vec<String>)
    ensures
        texts(out@) == words_of(s@),
{
    let chars: Vec<char> = chars_of(s);
    let ghost space = |c: char| is_space(c);
    let ghost full = |w: Seq<char>| w.len() > 0;
    let mut out: Vec<String> = Vec::new();
    let mut current: String = String::new();
    let mut i: usize = 0;
    proof {
        reveal_with_fuel(pieces, 2);
        assert(chars@.take(0) == Seq::<char>::empty());
        assert(pieces(chars@.take(0), space).drop_last() == Seq::<Seq<char>>::empty());
        reveal(Seq::filter);
        assert(texts(out@) == Seq::<Seq<char>>::empty());
    }
    while i < chars.len()
        invariant
            i <= chars@.len(),
            chars@ == s@,
            space == (|c: char| is_space(c)),
            full == (|w: Seq<char>| w.len() > 0),
            pieces(chars@.take(i as int), space).len() >= 1,
            current@ == pieces(chars@.take(i as int), space).last(),
            texts(out@) == pieces(chars@.take(i as int), space).drop_last().filter(full),
        decreases chars@.len() - i,
    {
        let c: char = chars[i];
        let ghost before = pieces(chars@.take(i as int), space);
        let ghost listed = out@;
        assert(chars@.take(i + 1).drop_last() == chars@.take(i as int));
        if white_space(c) {
            proof {
                reveal(Seq::filter);
                assert(before.push(Seq::empty()).drop_last() == before);
                assert(before == before.drop_last().push(before.last()));
            }
            if !current.as_str().is_empty() {
                out.push(current);
                assert(texts(out@) == texts(listed).push(before.last()));
            }
            current = String::new();
        } else {
            current.push(c);
            assert(before.drop_last().push(before.last().push(c)).drop_last() == before.drop_last());
        }
        i += 1;
    }
    proof {
        let all = pieces(chars@, space);
        assert(chars@.take(i as int) == chars@);
        reveal(Seq::filter);
    }
    if !current.as_str().is_empty() {
        let ghost listed = out@;
        out.push(current);
        assert(texts(out@) == texts(listed).push(current@));
    }
    out
}

// ---------------------------------------------------------------------------
// Lines
// ---------------------------------------------------------------------------

/// The pieces of a text between its line feeds.
pub open spec fn feed_pieces(s: Seq<char>) -> Seq<Seq<char>> {
    pieces(s, |c: char| c == '\n')
}

/// A line without the carriage return at its end.
pub open spec fn without_return(line: Seq<char>) -> Seq<char> {
    if line.len() > 0 && line.last() == '\r' {
        line.drop_last()
    } else {
        line
    }
}

/// The lines of a text. A line ends with a line feed, or with a carriage
/// return and a line feed; what follows the last line feed is a line only if
/// it is not empty.
pub open spec fn lines_of(s: Seq<char>) -> Seq<Seq<char>> {
    let all = feed_pieces(s);
    let ended = all.drop_last().map_values(|line: Seq<char>| without_return(line));
    if all.last().len() == 0 {
        ended
    } else {
        ended.push(all.last())
    }
}

/// Splits a text into its lines.
pub fn lines(s: &str) -> (out: Vec<String>)
    ensures
        texts(out@) == lines_of(s@),
{
    let chars: Vec<char> = chars_of(s);
    let ghost feed = |c: char| c == '\n';
    let ghost strip = |line: Seq<char>| without_return(line);
    let mut out: Vec<String> = Vec::new();
    let mut start: usize = 0;
    let mut i: usize = 0;
    proof {
        reveal_with_fuel(pieces, 2);
        assert(chars@.take(0) == Seq::<char>::empty());
        assert(pieces(chars@.take(0), feed).drop_last().map_values(strip) == Seq::<
            Seq<char>,
        >::empty());
        assert(texts(out@) == Seq::<Seq<char>>::empty());
        assert(chars@.subrange(0, 0) == Seq::<char>::empty());
    }
    while i < chars.len()
        invariant
            start <= i <= chars@.len(),
            chars@ == s@,
            feed == (|c: char| c == '\n'),
            strip == (|line: Seq<char>| without_return(line)),
            pieces(chars@.take(i as int), feed).len() >= 1,
            chars@.subrange(start as int, i as int) == pieces(chars@.take(i as int), feed).last(),
            texts(out@) == pieces(chars@.take(i as int), feed).drop_last().map_values(strip),
        decreases chars@.len() - i,
    {
        let c: char = chars[i];
        let ghost before = pieces(chars@.take(i as int), feed);
        let ghost listed = out@;
        let ghost piece = chars@.subrange(start as int, i as int);
        assert(chars@.take(i + 1).drop_last() == chars@.take(i as int));
        if c == '\n' {
            let stop: usize = if i > start && chars[i - 1] == '\r' {
                i - 1
            } else {
                i
            };
            assert(chars@.subrange(start as int, stop as int) == without_return(piece));
            out.push(text_between(chars.as_slice(), start, stop));
            start = i + 1;
            proof {
                assert(before.push(Seq::empty()).drop_last() == before);
                assert(before == before.drop_last().push(before.last()));
                assert(texts(out@) == texts(listed).push(without_return(piece)));
                assert(before.map_values(strip) == before.drop_last().map_values(strip).push(
                    without_return(piece),
                ));
                assert(chars@.subrange(start as int, i + 1) == Seq::<char>::empty());
            }
        } else {
            proof {
                assert(before.drop_last().push(before.last().push(c)).drop_last()
                    == before.drop_last());
                assert(chars@.subrange(start as int, i + 1) == piece.push(c));
            }
        }
        i += 1;
    }
    assert(chars@.take(i as int) == chars@);
    if start < chars.len() {
        let ghost listed = out@;
        let rest: String = text_between(chars.as_slice(), start, chars.len());
        out.push(rest);
        assert(texts(out@) == texts(listed).push(rest@));
    }
    out
}

// ---------------------------------------------------------------------------
// What trimming and splitting keep
// ---------------------------------------------------------------------------

/// Trimming cuts white space, all of it and nothing else, off the start. The
/// place where the rest begins is returned.
pub proof fn law_trimmed_start_cuts_white_space(s: Seq<char>) -> (from: int)
    ensures
        0 <= from <= s.len(),
        trimmed_start(s) == s.skip(from),
        forall|i: int| 0 <= i < from ==> is_space(#[trigger] s[i]),
        from < s.len() ==> !is_space(s[from]),
    decreases s.len(),
{
    if s.len() > 0 && is_space(s[0]) {
        let rest = s.drop_first();
        let from = law_trimmed_start_cuts_white_space(rest);
        assert(rest.skip(from) == s.skip(from + 1));
        assert forall|i: int| 0 <= i < from + 1 implies is_space(#[trigger] s[i]) by {
            if i > 0 {
                assert(rest[i - 1] == s[i]);
            }
        }
        from + 1
    } else {
        assert(s.skip(0) == s);
        0
    }
}

/// Trimming cuts white space, all of it and nothing else, off the end. The
/// place where it begins is returned.
pub proof fn law_trimmed_end_cuts_white_space(s: Seq<char>) -> (to: int)
    ensures
        0 <= to <= s.len(),
        trimmed_end(s) == s.take(to),
        forall|i: int| to <= i < s.len() ==> is_space(#[trigger] s[i]),
        to > 0 ==> !is_space(s[to - 1]),
    decreases s.len(),
{
    if s.len() > 0 && is_space(s.last()) {
        let front = s.drop_last();
        let to = law_trimmed_end_cuts_white_space(front);
        assert(front.take(to) == s.take(to));
        assert forall|i: int| to <= i < s.len() implies is_space(#[trigger] s[i]) by {
            if i < front.len() {
                assert(front[i] == s[i]);
            }
        }
        to
    } else {
        assert(s.take(s.len() as int) == s);
        s.len() as int
    }
}

/// Trimming cuts white space off both ends, all of it and nothing else: what is
/// left neither begins nor ends with it, and it is not there just if there was
/// nothing but white space. The two places between which it stands are
/// returned.
pub proof fn law_trimmed_cuts_white_space(s: Seq<char>) -> (between: (int, int))
    ensures
        0 <= between.0 <= between.1 <= s.len(),
        trimmed(s) == s.subrange(between.0, between.1),
        forall|i: int|
            0 <= i < between.0 || between.1 <= i < s.len() ==> is_space(#[trigger] s[i]),
        between.0 < between.1 ==> !is_space(s[between.0]) && !is_space(s[between.1 - 1]),
        trimmed(s).len() == 0 <==> forall|i: int| 0 <= i < s.len() ==> is_space(#[trigger] s[i]),
{
    let from = law_trimmed_start_cuts_white_space(s);
    let rest = s.skip(from);
    let to = law_trimmed_end_cuts_white_space(rest);
    assert(rest.take(to) == s.subrange(from, from + to));
    assert forall|i: int| 0 <= i < from || from + to <= i < s.len() implies is_space(
        #[trigger] s[i],
    ) by {
        if i >= from {
            assert(rest[i - from] == s[i]);
        }
    }
    if to > 0 {
        assert(rest[0] == s[from]);
        assert(rest[to - 1] == s[from + to - 1]);
    }
    (from, from + to)
}

/// A delimiter parts a text: what stands before it and what stands after it
/// have their pieces to themselves.
pub proof fn law_pieces_split_at_delimiters(
    s: Seq<char>,
    c: char,
    t: Seq<char>,
    delimiter: spec_fn(char) -> bool,
)
    requires
        delimiter(c),
    ensures
        pieces(s.push(c) + t, delimiter) == pieces(s, delimiter) + pieces(t, delimiter),
    decreases t.len(),
{
    let whole = s.push(c) + t;
    if t.len() == 0 {
        assert(whole.drop_last() == s);
        assert(pieces(t, delimiter) == seq![Seq::<char>::empty()]);
    } else {
        assert(whole.drop_last() == s.push(c) + t.drop_last());
        law_pieces_split_at_delimiters(s, c, t.drop_last(), delimiter);
        lemma_pieces_nonempty(t.drop_last(), delimiter);
        let before = pieces(s, delimiter);
        let after = pieces(t.drop_last(), delimiter);
        assert((before + after).last() == after.last());
        assert((before + after).drop_last() == before + after.drop_last());
        assert(pieces(whole, delimiter) == before + pieces(t, delimiter));
    }
}

/// A text without delimiters is one piece, as it is.
pub proof fn law_text_without_delimiters_is_one_piece(
    s: Seq<char>,
    delimiter: spec_fn(char) -> bool,
)
    requires
        forall|i: int| 0 <= i < s.len() ==> !delimiter(#[trigger] s[i]),
    ensures
        pieces(s, delimiter) == seq![s],
    decreases s.len(),
{
    if s.len() > 0 {
        let front = s.drop_last();
        assert forall|i: int| 0 <= i < front.len() implies !delimiter(#[trigger] front[i]) by {
            assert(front[i] == s[i]);
        }
        law_text_without_delimiters_is_one_piece(front, delimiter);
        assert(s[s.len() - 1] == s.last());
        assert(front.push(s.last()) == s);
        assert(pieces(s, delimiter) == seq![s]);
    }
}

/// No piece holds a delimiter.
pub proof fn law_pieces_hold_no_delimiter(s: Seq<char>, delimiter: spec_fn(char) -> bool)
    ensures
        forall|k: int, i: int|
            0 <= k < pieces(s, delimiter).len() && 0 <= i < pieces(s, delimiter)[k].len()
                ==> !delimiter(#[trigger] pieces(s, delimiter)[k][i]),
    decreases s.len(),
{
    if s.len() > 0 {
        let front = s.drop_last();
        let before = pieces(front, delimiter);
        let all = pieces(s, delimiter);
        law_pieces_hold_no_delimiter(front, delimiter);
        lemma_pieces_nonempty(front, delimiter);
        assert forall|k: int, i: int|
            0 <= k < all.len() && 0 <= i < all[k].len() implies !delimiter(
            #[trigger] all[k][i],
        ) by {
            if k < before.len() - 1 || (delimiter(s.last()) && k < before.len()) {
                assert(all[k] == before[k]);
                assert(!delimiter(before[k][i]));
            } else if !delimiter(s.last()) && i < before.last().len() {
                assert(!delimiter(before[before.len() - 1][i]));
            }
        }
    }
}

/// White space parts words: what stands before it and what stands after it have
/// their words to themselves. A text without white space is a word, as it is,
/// and nothing is no word.
pub proof fn law_words_are_parted_by_white_space(s: Seq<char>, c: char, t: Seq<char>)
    ensures
        is_space(c) ==> words_of(s.push(c) + t) == words_of(s) + words_of(t),
        (forall|i: int| 0 <= i < s.len() ==> !is_space(#[trigger] s[i])) && s.len() > 0
            ==> words_of(s) == seq![s],
        words_of(Seq::empty()) == Seq::<Seq<char>>::empty(),
{
    let space = |c: char| is_space(c);
    let kept = |w: Seq<char>| w.len() > 0;
    if is_space(c) {
        law_pieces_split_at_delimiters(s, c, t, space);
        Seq::filter_distributes_over_add(pieces(s, space), pieces(t, space), kept);
    }
    reveal(Seq::filter);
    assert(Seq::<Seq<char>>::empty().filter(kept) == Seq::<Seq<char>>::empty());
    if (forall|i: int| 0 <= i < s.len() ==> !is_space(#[trigger] s[i])) && s.len() > 0 {
        law_text_without_delimiters_is_one_piece(s, space);
        assert(seq![s].drop_last() == Seq::<Seq<char>>::empty());
        assert(seq![s].filter(kept) == seq![s]);
    }
    let none = Seq::<char>::empty();
    assert(pieces(none, space) == seq![none]);
    assert(seq![none].drop_last() == Seq::<Seq<char>>::empty());
    assert(seq![none].filter(kept) == Seq::<Seq<char>>::empty());
}

/// Lines come one after the other: a line that is ended by a line feed, with or
/// without a carriage return before it, comes before the lines of what follows.
/// What no line feed ends is a line unless it is nothing.
pub proof fn law_lines_follow_each_other(line: Seq<char>, rest: Seq<char>)
    requires
        !line.contains('\n'),
    ensures
        line.len() == 0 || line.last() != '\r' ==> lines_of(line.push('\n') + rest) == seq![line]
            + lines_of(rest),
        lines_of(line.push('\r').push('\n') + rest) == seq![line] + lines_of(rest),
        line.len() > 0 ==> lines_of(line) == seq![line],
        lines_of(Seq::empty()) == Seq::<Seq<char>>::empty(),
{
    let feed = |c: char| c == '\n';
    assert forall|i: int| 0 <= i < line.len() implies !feed(#[trigger] line[i]) by {
        if line[i] == '\n' {
            assert(line.contains('\n'));
        }
    }
    law_text_without_delimiters_is_one_piece(line, feed);
    let returned = line.push('\r');
    assert forall|i: int| 0 <= i < returned.len() implies !feed(#[trigger] returned[i]) by {
        if i < line.len() {
            assert(!feed(line[i]));
        }
    }
    law_text_without_delimiters_is_one_piece(returned, feed);
    law_pieces_split_at_delimiters(line, '\n', rest, feed);
    law_pieces_split_at_delimiters(returned, '\n', rest, feed);
    lemma_pieces_nonempty(rest, feed);
    assert(returned.drop_last() == line);
    lemma_lines_after(line, rest);
    lemma_lines_after(returned, rest);
    if line.len() > 0 {
        assert(lines_of(line) == seq![line]);
    }
    assert(pieces(Seq::empty(), feed) == seq![Seq::<char>::empty()]);
    assert(lines_of(Seq::empty()) == Seq::<Seq<char>>::empty());
}

proof fn lemma_lines_after(line: Seq<char>, rest: Seq<char>)
    requires
        feed_pieces(line.push('\n') + rest) == seq![line] + feed_pieces(rest),
        feed_pieces(rest).len() >= 1,
    ensures
        lines_of(line.push('\n') + rest) == seq![without_return(line)] + lines_of(rest),
{
    let all = feed_pieces(line.push('\n') + rest);
    let tail = feed_pieces(rest);
    let cut = |l: Seq<char>| without_return(l);
    assert(all.last() == tail.last());
    assert(all.drop_last() == seq![line] + tail.drop_last());
    assert(all.drop_last().map_values(cut) == seq![without_return(line)]
        + tail.drop_last().map_values(cut));
    assert(lines_of(line.push('\n') + rest) == seq![without_return(line)] + lines_of(rest));
}

/// No line holds a line feed.
pub proof fn law_lines_hold_no_feed(s: Seq<char>)
    ensures
        forall|k: int| 0 <= k < lines_of(s).len() ==> !(#[trigger] lines_of(s)[k]).contains('\n'),
{
    let feed = |c: char| c == '\n';
    let all = feed_pieces(s);
    law_pieces_hold_no_delimiter(s, feed);
    lemma_pieces_nonempty(s, feed);
    assert forall|k: int| 0 <= k < lines_of(s).len() implies !(#[trigger] lines_of(s)[k]).contains(
        '\n',
    ) by {
        let line = lines_of(s)[k];
        if line.contains('\n') {
            let i = choose|i: int| 0 <= i < line.len() && line[i] == '\n';
            assert(all[k][i] == line[i]);
            assert(!feed(all[k][i]));
        }
    }
}

/// Lines that are joined by line feeds are the pieces between the line feeds
/// again, all of them and no other.
pub proof fn law_joined_lines_part_again(list: Seq<Seq<char>>)
    requires
        list.len() > 0,
        forall|k: int| 0 <= k < list.len() ==> !(#[trigger] list[k]).contains('\n'),
    ensures
        feed_pieces(joined(list, "\n"@)) == list,
    decreases list.len(),
{
    let feed = |c: char| c == '\n';
    let last = list.last();
    assert(!list[list.len() - 1].contains('\n'));
    assert forall|i: int| 0 <= i < last.len() implies !feed(#[trigger] last[i]) by {
        if last[i] == '\n' {
            assert(last.contains('\n'));
        }
    }
    law_text_without_delimiters_is_one_piece(last, feed);
    if list.len() == 1 {
        assert(seq![last] == list);
    } else {
        let front = list.drop_last();
        assert forall|k: int| 0 <= k < front.len() implies !(#[trigger] front[k]).contains(
            '\n',
        ) by {
            assert(front[k] == list[k]);
        }
        law_joined_lines_part_again(front);
        reveal_strlit("\n");
        let start = joined(front, "\n"@);
        assert(start + "\n"@ + last == start.push('\n') + last);
        law_pieces_split_at_delimiters(start, '\n', last, feed);
        assert(front + seq![last] == list);
    }
}

} // verus!
