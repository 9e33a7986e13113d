//! Substrings: where they occur, prefixes, and replacement.

use vstd::prelude::*;
use vstd::string::*;

use crate::text::{chars_of, joined, law_joined_in_parts, same_text, text_between};

verus! {

broadcast use {
    vstd::string::group_string_axioms,
    vstd::seq_lib::group_seq_properties,
};

/// Whether `needle` stands in `hay` at position `at`.
pub open spec fn occurs_at(hay: Seq<char>, needle: Seq<char>, at: int) -> bool {
    0 <= at && at + needle.len() <= hay.len() && hay.subrange(at, at + needle.len()) == needle
}

/// Whether `needle` stands somewhere in `hay`.
pub open spec fn occurs_in(hay: Seq<char>, needle: Seq<char>) -> bool {
    exists|at: int| occurs_at(hay, needle, at)
}

/// Whether `hay` begins with `needle`.
pub open spec fn begins_with(hay: Seq<char>, needle: Seq<char>) -> bool {
    occurs_at(hay, needle, 0)
}

fn matches_at(hay: &[char], needle: &[char], at: usize) -> (found: bool)
    requires
        at <= hay@.len(),
    ensures
        found == occurs_at(hay@, needle@, at as int),
{
    if needle.len() > hay.len() - at {
        return false;
    }
    let end: usize = at + needle.len();
    let mut k: usize = 0;
    while k < needle.len()
        invariant
            k <= needle@.len(),
            at + needle@.len() == end <= hay@.len(),
            forall|j: int| 0 <= j < k ==> hay@[at + j] == needle@[j],
        decreases needle@.len() - k,
    {
        if hay[at + k] != needle[k] {
            assert(hay@.subrange(at as int, at + needle@.len())[k as int] != needle@[k as int]);
            return false;
        }
        k += 1;
    }
    assert(hay@.subrange(at as int, at + needle@.len()) == needle@);
    true
}

/// Whether a text contains another.
pub fn contains(hay: &str, needle: &str) -> (found: bool)
    ensures
        found == occurs_in(hay@, needle@),
{
    let h: Vec<char> = chars_of(hay);
    let n: Vec<char> = chars_of(needle);
    let mut at: usize = 0;
    loop
        invariant
            at <= h@.len(),
            h@ == hay@,
            n@ == needle@,
            forall|i: int| 0 <= i < at ==> !occurs_at(h@, n@, i),
        decreases h@.len() - at,
    {
        if matches_at(h.as_slice(), n.as_slice(), at) {
            return true;
        }
        if at == h.len() {
            assert forall|i: int| !occurs_at(h@, n@, i) by {}
            return false;
        }
        at += 1;
    }
}

/// Whether a text begins with another.
pub fn starts_with(hay: &str, needle: &str) -> (found: bool)
    ensures
        found == begins_with(hay@, needle@),
{
    let h: Vec<char> = chars_of(hay);
    let n: Vec<char> = chars_of(needle);
    matches_at(h.as_slice(), n.as_slice(), 0)
}

/// What follows a prefix, where the text begins with it.
pub fn strip_prefix(hay: &str, prefix: &str) -> (rest: Option<String>)
    ensures
        match rest {
            Some(r) => begins_with(hay@, prefix@) && r@ == hay@.skip(prefix@.len() as int),
            None => !begins_with(hay@, prefix@),
        },
{
    let h: Vec<char> = chars_of(hay);
    let n: Vec<char> = chars_of(prefix);
    if matches_at(h.as_slice(), n.as_slice(), 0) {
        let rest: String = text_between(h.as_slice(), n.len(), h.len());
        Some(rest)
    } else {
        None
    }
}

/// The text without any number of repetitions of `prefix` at its start.
pub open spec fn without_prefixes(s: Seq<char>, prefix: Seq<char>) -> Seq<char>
    decreases s.len(),
{
    if prefix.len() > 0 && begins_with(s, prefix) {
        without_prefixes(s.skip(prefix.len() as int), prefix)
    } else {
        s
    }
}

/// Removes a prefix as often as the text begins with it.
pub fn strip_prefixes(s: &str, prefix: &str) -> (out: String)
    ensures
        out@ == without_prefixes(s@, prefix@),
{
    let h: Vec<char> = chars_of(s);
    let n: Vec<char> = chars_of(prefix);
    let total: usize = h.len();
    let mut at: usize = 0;
    assert(h@.skip(0) == h@);
    proof {
        lemma_occurs_in_rest(h@, n@, 0);
    }
    while n.len() > 0 && matches_at(h.as_slice(), n.as_slice(), at)
        invariant
            at <= total == h@.len(),
            h@ == s@,
            n@ == prefix@,
            without_prefixes(h@.skip(at as int), n@) == without_prefixes(s@, prefix@),
            occurs_at(h@, n@, at as int) == begins_with(h@.skip(at as int), n@),
        decreases h@.len() - at,
    {
        assert(h@.skip(at as int).skip(n@.len() as int) == h@.skip(at + n@.len()));
        at += n.len();
        proof {
            lemma_occurs_in_rest(h@, n@, at as int);
        }
    }
    text_between(h.as_slice(), at, h.len())
}

proof fn lemma_occurs_in_rest(hay: Seq<char>, needle: Seq<char>, at: int)
    requires
        0 <= at <= hay.len(),
    ensures
        occurs_at(hay, needle, at) == begins_with(hay.skip(at), needle),
{
    if at + needle.len() <= hay.len() {
        assert(hay.skip(at).subrange(0, needle.len() as int) == hay.subrange(
            at,
            at + needle.len(),
        ));
    }
}

// ---------------------------------------------------------------------------
// Replacement
// ---------------------------------------------------------------------------

/// How often a text occurs in another, counted from the left without overlap.
/// The empty text occurs before every character and at the end.
pub open spec fn occurrences(s: Seq<char>, old: Seq<char>) -> nat
    decreases s.len(),
{
    if old.len() == 0 {
        s.len() + 1
    } else if s.len() < old.len() {
        0
    } else if begins_with(s, old) {
        1 + occurrences(s.skip(old.len() as int), old)
    } else {
        occurrences(s.drop_first(), old)
    }
}

/// The text with each of those occurrences replaced.
pub open spec fn replaced_all(s: Seq<char>, old: Seq<char>, new: Seq<char>) -> Seq<char>
    decreases s.len(),
{
    if old.len() == 0 {
        if s.len() == 0 {
            new
        } else {
            new + seq![s[0]] + replaced_all(s.drop_first(), old, new)
        }
    } else if s.len() < old.len() {
        s
    } else if begins_with(s, old) {
        new + replaced_all(s.skip(old.len() as int), old, new)
    } else {
        seq![s[0]] + replaced_all(s.drop_first(), old, new)
    }
}

/// The text with the first of those occurrences replaced.
pub open spec fn replaced_first(s: Seq<char>, old: Seq<char>, new: Seq<char>) -> Seq<char>
    decreases s.len(),
{
    if begins_with(s, old) {
        new + s.skip(old.len() as int)
    } else if s.len() == 0 {
        s
    } else {
        seq![s[0]] + replaced_first(s.drop_first(), old, new)
    }
}

/// Counts the occurrences of a text.
pub fn count_occurrences(s: &str, old: &str) -> (n: u128)
    ensures
        n == occurrences(s@, old@),
{
    let h: Vec<char> = chars_of(s);
    let o: Vec<char> = chars_of(old);
    if o.len() == 0 {
        return h.len() as u128 + 1;
    }
    let mut n: u128 = 0;
    let mut at: usize = 0;
    assert(h@.skip(0) == h@);
    while at < h.len() && o.len() <= h.len() - at
        invariant
            at <= h@.len(),
            h@ == s@,
            o@ == old@,
            o@.len() > 0,
            n <= at,
            n + occurrences(h@.skip(at as int), o@) == occurrences(s@, old@),
        decreases h@.len() - at,
    {
        proof {
            lemma_occurs_in_rest(h@, o@, at as int);
        }
        if matches_at(h.as_slice(), o.as_slice(), at) {
            assert(h@.skip(at as int).skip(o@.len() as int) == h@.skip(at + o@.len()));
            at += o.len();
            n += 1;
        } else {
            assert(h@.skip(at as int).drop_first() == h@.skip(at + 1));
            at += 1;
        }
    }
    n
}

/// Replaces every occurrence of a text.
#[verifier::rlimit(40)]
pub fn replace_all(s: &str, old: &str, new: &str) -> (out: String)
    ensures
        out@ == replaced_all(s@, old@, new@),
{
    let h: Vec<char> = chars_of(s);
    let o: Vec<char> = chars_of(old);
    let mut out: String = String::new();
    let mut at: usize = 0;
    assert(h@.skip(0) == h@);
    assert(out@ + replaced_all(s@, old@, new@) == replaced_all(s@, old@, new@));
    while at < h.len() && o.len() <= h.len() - at
        invariant
            at <= h@.len(),
            h@ == s@,
            o@ == old@,
            out@ + replaced_all(h@.skip(at as int), o@, new@) == replaced_all(s@, old@, new@),
        decreases h@.len() - at,
    {
        let ghost before = out@;
        let ghost rest = h@.skip(at as int);
        proof {
            lemma_occurs_in_rest(h@, o@, at as int);
        }
        if o.len() == 0 {
            out.append(new);
            out.push(h[at]);
            assert(rest.drop_first() == h@.skip(at + 1));
            at += 1;
            assert(out@ + replaced_all(h@.skip(at as int), o@, new@) == before + (new@ + seq![
                rest[0],
            ] + replaced_all(rest.drop_first(), o@, new@)));
        } else if matches_at(h.as_slice(), o.as_slice(), at) {
            out.append(new);
            assert(rest.skip(o@.len() as int) == h@.skip(at + o@.len()));
            at += o.len();
            assert(out@ + replaced_all(h@.skip(at as int), o@, new@) == before + (new@
                + replaced_all(rest.skip(o@.len() as int), o@, new@)));
        } else {
            out.push(h[at]);
            assert(rest.drop_first() == h@.skip(at + 1));
            at += 1;
            assert(out@ + replaced_all(h@.skip(at as int), o@, new@) == before + (seq![rest[0]]
                + replaced_all(rest.drop_first(), o@, new@)));
        }
    }
    if o.len() == 0 {
        out.append(new);
    } else {
        let rest: String = text_between(h.as_slice(), at, h.len());
        out.append(rest.as_str());
    }
    out
}

/// Replaces the first occurrence of a text.
pub fn replace_first(s: &str, old: &str, new: &str) -> (out: String)
    ensures
        out@ == replaced_first(s@, old@, new@),
{
    let h: Vec<char> = chars_of(s);
    let o: Vec<char> = chars_of(old);
    let mut at: usize = 0;
    assert(h@.skip(0) == h@);
    assert(h@.take(0) + replaced_first(h@, o@, new@) == replaced_first(h@, o@, new@));
    proof {
        lemma_occurs_in_rest(h@, o@, 0);
    }
    while at < h.len() && !matches_at(h.as_slice(), o.as_slice(), at)
        invariant
            at <= h@.len(),
            h@ == s@,
            o@ == old@,
            occurs_at(h@, o@, at as int) == begins_with(h@.skip(at as int), o@),
            h@.take(at as int) + replaced_first(h@.skip(at as int), o@, new@) == replaced_first(
                s@,
                old@,
                new@,
            ),
        decreases h@.len() - at,
    {
        let ghost rest = h@.skip(at as int);
        assert(rest.drop_first() == h@.skip(at + 1));
        assert(h@.take(at as int) + (seq![rest[0]] + replaced_first(rest.drop_first(), o@, new@))
            == h@.take(at + 1) + replaced_first(h@.skip(at + 1), o@, new@));
        at += 1;
        proof {
            lemma_occurs_in_rest(h@, o@, at as int);
        }
    }
    let mut out: String = text_between(h.as_slice(), 0, at);
    if matches_at(h.as_slice(), o.as_slice(), at) {
        out.append(new);
        let rest: String = text_between(h.as_slice(), at + o.len(), h.len());
        out.append(rest.as_str());
        assert(h@.skip(at as int).skip(o@.len() as int) == h@.skip(at + o@.len()));
    } else {
        assert(h@.skip(at as int) == Seq::<char>::empty());
    }
    out
}

// ---------------------------------------------------------------------------
// Membership
// ---------------------------------------------------------------------------

/// The texts that a list of slices holds.
pub open spec fn slice_texts(list: Seq<&str>) -> Seq<Seq<char>> {
    list.map_values(|s: &str| s@)
}

/// Whether a text is one of several.
pub fn one_of(text: &str, list: &[&str]) -> (found: bool)
    ensures
        found == slice_texts(list@).contains(text@),
{
    let mut i: usize = 0;
    while i < list.len()
        invariant
            i <= list@.len(),
            forall|k: int| 0 <= k < i ==> (#[trigger] list@[k])@ != text@,
        decreases list@.len() - i,
    {
        if same_text(list[i], text) {
            assert(slice_texts(list@)[i as int] == text@);
            return true;
        }
        i += 1;
    }
    proof {
        if slice_texts(list@).contains(text@) {
            let k = choose|k: int|
                0 <= k < slice_texts(list@).len() && slice_texts(list@)[k] == text@;
            assert(list@[k]@ == text@);
        }
    }
    false
}

// ---------------------------------------------------------------------------
// What searching and replacing mean
// ---------------------------------------------------------------------------

/// A text stands in another just if that is made of it, with something before
/// it and something after it, and begins it just if nothing is before it.
pub proof fn law_contained_between(before: Seq<char>, needle: Seq<char>, after: Seq<char>)
    ensures
        occurs_in(before + needle + after, needle),
        begins_with(needle + after, needle),
        forall|hay: Seq<char>, at: int| #[trigger]
            occurs_at(hay, needle, at) ==> 0 <= at && hay == hay.take(at) + needle + hay.skip(
                at + needle.len(),
            ),
{
    let hay = before + needle + after;
    assert(hay.subrange(before.len() as int, (before.len() + needle.len()) as int) == needle);
    assert(occurs_at(hay, needle, before.len() as int));
    assert((needle + after).subrange(0, needle.len() as int) == needle);
    assert forall|hay: Seq<char>, at: int| #[trigger] occurs_at(hay, needle, at) implies 0 <= at
        && hay == hay.take(at) + needle + hay.skip(at + needle.len()) by {
        let rest = hay.take(at) + needle + hay.skip(at + needle.len());
        assert forall|i: int| 0 <= i < hay.len() implies hay[i] == rest[i] by {
            if at <= i < at + needle.len() {
                assert(hay.subrange(at, at + needle.len())[i - at] == hay[i]);
            }
        }
        assert(hay == rest);
    }
}

/// What is stripped off the start of a text is the prefix, some number of times
/// and nothing else, and what is left does not begin with it. The number is
/// returned.
pub proof fn law_just_prefixes_are_stripped(s: Seq<char>, prefix: Seq<char>) -> (times: nat)
    requires
        prefix.len() > 0,
    ensures
        !begins_with(without_prefixes(s, prefix), prefix),
        s.len() == times * prefix.len() + without_prefixes(s, prefix).len(),
        s.skip((times * prefix.len()) as int) == without_prefixes(s, prefix),
        forall|i: int|
            0 <= i < times * prefix.len() ==> #[trigger] s[i] == prefix[i % (prefix.len() as int)],
    decreases s.len(),
{
    if begins_with(s, prefix) {
        let width = prefix.len() as int;
        let rest = s.skip(width);
        let fewer = law_just_prefixes_are_stripped(rest, prefix);
        let times = fewer + 1;
        assert(times * width == fewer * width + width) by (nonlinear_arith)
            requires
                times == fewer + 1,
        ;
        assert(rest.skip(fewer * width) == s.skip(times * width));
        assert forall|i: int| 0 <= i < times * width implies #[trigger] s[i] == prefix[i
            % width] by {
            if i < width {
                assert(s.subrange(0, width)[i] == s[i]);
                assert(i % width == i) by (nonlinear_arith)
                    requires
                        0 <= i < width,
                ;
            } else {
                assert(rest[i - width] == s[i]);
                assert((i - width) % width == i % width) by (nonlinear_arith)
                    requires
                        0 < width <= i,
                ;
            }
        }
        times
    } else {
        assert(s.skip(0) == s);
        0
    }
}

proof fn lemma_joined_first(part: Seq<char>, rest: Seq<Seq<char>>, separator: Seq<char>)
    requires
        rest.len() > 0,
    ensures
        joined(seq![part] + rest, separator) == part + separator + joined(rest, separator),
{
    law_joined_in_parts(seq![part], rest, part, separator);
}

proof fn lemma_joined_longer(c: char, parts: Seq<Seq<char>>, separator: Seq<char>)
    requires
        parts.len() > 0,
    ensures
        joined(parts.update(0, seq![c] + parts[0]), separator) == seq![c] + joined(
            parts,
            separator,
        ),
{
    let longer = parts.update(0, seq![c] + parts[0]);
    if parts.len() == 1 {
        assert(longer[0] == seq![c] + parts[0]);
    } else {
        let rest = parts.drop_first();
        assert(parts == seq![parts[0]] + rest);
        assert(longer == seq![seq![c] + parts[0]] + rest);
        lemma_joined_first(parts[0], rest, separator);
        lemma_joined_first(seq![c] + parts[0], rest, separator);
        assert((seq![c] + parts[0]) + separator + joined(rest, separator) == seq![c] + (parts[0]
            + separator + joined(rest, separator)));
    }
}

/// Replacing puts the new text in the place of every occurrence of the old one
/// and keeps all else: the text is made of parts with the old text between
/// them, the result of the same parts with the new text between them, and there
/// are as many occurrences as places between parts. They are the leftmost ones:
/// in no part, together with the occurrence after it, does the old text occur
/// earlier. The parts are returned.
pub proof fn law_replacing_keeps_what_stands_between(
    s: Seq<char>,
    old: Seq<char>,
    new: Seq<char>,
) -> (parts: Seq<Seq<char>>)
    requires
        old.len() > 0,
    ensures
        parts.len() == occurrences(s, old) + 1,
        s == joined(parts, old),
        replaced_all(s, old, new) == joined(parts, new),
        forall|i: int, at: int|
            0 <= i < parts.len() - 1 && 0 <= at < parts[i].len() ==> !#[trigger] occurs_at(
                parts[i] + old,
                old,
                at,
            ),
        !occurs_in(parts.last(), old),
    decreases s.len(),
{
    if s.len() < old.len() {
        let parts = seq![s];
        assert(!occurs_in(s, old));
        parts
    } else if begins_with(s, old) {
        let rest = s.skip(old.len() as int);
        let tail = law_replacing_keeps_what_stands_between(rest, old, new);
        let none = Seq::<char>::empty();
        let parts = seq![none] + tail;
        lemma_joined_first(none, tail, old);
        lemma_joined_first(none, tail, new);
        assert(none + new + joined(tail, new) == new + joined(tail, new));
        assert(s.subrange(0, old.len() as int) + rest == s);
        assert(none + old + joined(tail, old) == s);
        assert(parts.last() == tail.last());
        assert forall|i: int, at: int|
            0 <= i < parts.len() - 1 && 0 <= at < parts[i].len() implies !#[trigger] occurs_at(
            parts[i] + old,
            old,
            at,
        ) by {
            assert(!occurs_at(tail[i - 1] + old, old, at));
        }
        parts
    } else {
        let rest = s.drop_first();
        let c = s[0];
        let tail = law_replacing_keeps_what_stands_between(rest, old, new);
        let parts = tail.update(0, seq![c] + tail[0]);
        lemma_joined_longer(c, tail, old);
        lemma_joined_longer(c, tail, new);
        assert(seq![c] + rest == s);
        assert forall|i: int, at: int|
            0 <= i < parts.len() - 1 && 0 <= at < parts[i].len() implies !#[trigger] occurs_at(
            parts[i] + old,
            old,
            at,
        ) by {
            if i > 0 {
                assert(!occurs_at(tail[i] + old, old, at));
            } else if occurs_at(parts[0] + old, old, at) {
                let first = parts[0] + old;
                if at == 0 {
                    let more = parts.drop_first();
                    assert(parts == seq![parts[0]] + more);
                    lemma_joined_first(parts[0], more, old);
                    assert(s.subrange(0, old.len() as int) == first.subrange(0, old.len() as int));
                } else {
                    let shorter = tail[0] + old;
                    assert(first == seq![c] + shorter);
                    assert(first.subrange(at, at + old.len()) == shorter.subrange(
                        at - 1,
                        at - 1 + old.len(),
                    ));
                    assert(occurs_at(tail[0] + old, old, at - 1));
                }
            }
        }
        if parts.len() == 1 && occurs_in(parts.last(), old) {
            let at = choose|at: int| occurs_at(parts.last(), old, at);
            assert(parts.last() == s);
            assert(tail.last() == rest);
            if at > 0 {
                assert(s.subrange(at, at + old.len()) == rest.subrange(
                    at - 1,
                    at - 1 + old.len(),
                ));
                assert(occurs_at(rest, old, at - 1));
            }
        }
        parts
    }
}

/// Replacing the first occurrence changes just that: the new text stands where
/// the old one occurred first, with all before it and all after it as it was. A
/// text without an occurrence stays as it is.
pub proof fn law_first_occurrence_is_replaced(s: Seq<char>, old: Seq<char>, new: Seq<char>, at: int)
    ensures
        occurs_at(s, old, at) && (forall|i: int| 0 <= i < at ==> !#[trigger] occurs_at(s, old, i))
            ==> replaced_first(s, old, new) == s.take(at) + new + s.skip(at + old.len()),
        !occurs_in(s, old) ==> replaced_first(s, old, new) == s,
    decreases s.len(),
{
    if begins_with(s, old) {
        if occurs_at(s, old, at) && (forall|i: int|
            0 <= i < at ==> !#[trigger] occurs_at(s, old, i)) {
            if at > 0 {
                assert(!occurs_at(s, old, 0));
            }
            assert(s.take(0) + new + s.skip(old.len() as int) == new + s.skip(old.len() as int));
        }
    } else if s.len() > 0 {
        let rest = s.drop_first();
        law_first_occurrence_is_replaced(rest, old, new, at - 1);
        assert forall|i: int| 1 <= i implies occurs_at(s, old, i) == #[trigger] occurs_at(
            rest,
            old,
            i - 1,
        ) by {
            if i + old.len() <= s.len() {
                assert(s.subrange(i, i + old.len()) == rest.subrange(i - 1, i - 1 + old.len()));
            }
        }
        if !occurs_in(s, old) {
            if occurs_in(rest, old) {
                let i = choose|i: int| occurs_at(rest, old, i);
                assert(occurs_at(rest, old, (i + 1) - 1));
                assert(occurs_at(s, old, i + 1));
            }
            assert(seq![s[0]] + rest == s);
        }
        if occurs_at(s, old, at) && (forall|i: int|
            0 <= i < at ==> !#[trigger] occurs_at(s, old, i)) {
            assert(at >= 1);
            assert(occurs_at(rest, old, at - 1));
            assert forall|i: int| 0 <= i < at - 1 implies !#[trigger] occurs_at(rest, old, i) by {
                assert(!occurs_at(s, old, i + 1));
                assert(occurs_at(rest, old, (i + 1) - 1) == occurs_at(s, old, i + 1));
            }
            assert(seq![s[0]] + (rest.take(at - 1) + new + rest.skip(at - 1 + old.len()))
                == s.take(at) + new + s.skip(at + old.len()));
        }
    } else {
        if occurs_at(s, old, at) {
            assert(s.subrange(0, 0) == old);
        }
    }
}

} // verus!
