//! Stable sorting: positions by integer keys, and texts by their characters.

use vstd::prelude::*;
use vstd::string::*;

use crate::text::texts;

verus! {

broadcast use {
    vstd::string::group_string_axioms,
    vstd::seq_lib::group_seq_properties,
};

// ---------------------------------------------------------------------------
// Positions by key
// ---------------------------------------------------------------------------

/// A list of positions with one more, after all whose keys are not larger.
pub open spec fn placed(order: Seq<int>, keys: Seq<int>, position: int) -> Seq<int>
    decreases order.len(),
{
    if order.len() == 0 || keys[order.last()] <= keys[position] {
        order.push(position)
    } else {
        placed(order.drop_last(), keys, position).push(order.last())
    }
}

/// The positions of keys, by ascending key, equal keys in the order in which
/// they stand.
pub open spec fn stable_order(keys: Seq<int>) -> Seq<int> {
    order_of_first(keys, keys.len())
}

/// The first `n` positions of keys, by ascending key.
pub open spec fn order_of_first(keys: Seq<int>, n: nat) -> Seq<int>
    decreases n,
{
    if n == 0 {
        Seq::empty()
    } else {
        placed(order_of_first(keys, (n - 1) as nat), keys, n - 1)
    }
}

/// Whether one position comes before another: its key is smaller, or it is
/// equal and the position is.
pub open spec fn comes_before(keys: Seq<int>, a: int, b: int) -> bool {
    keys[a] < keys[b] || (keys[a] == keys[b] && a < b)
}

/// Whether a list holds each of the first `n` positions once, in order.
pub open spec fn is_order(order: Seq<int>, keys: Seq<int>, n: nat) -> bool {
    &&& order.len() == n
    &&& forall|i: int| 0 <= i < n ==> 0 <= #[trigger] order[i] < n
    &&& forall|i: int, j: int|
        0 <= i < j < n ==> comes_before(keys, #[trigger] order[i], #[trigger] order[j])
    &&& forall|p: int| 0 <= p < n ==> #[trigger] order.contains(p)
}

proof fn lemma_placed(order: Seq<int>, keys: Seq<int>, n: nat)
    requires
        forall|i: int| 0 <= i < order.len() ==> 0 <= #[trigger] order[i] < n,
        forall|i: int, j: int|
            0 <= i < j < order.len() ==> comes_before(
                keys,
                #[trigger] order[i],
                #[trigger] order[j],
            ),
    ensures
        ({
            let more = placed(order, keys, n as int);
            &&& more.len() == order.len() + 1
            &&& forall|i: int| 0 <= i < more.len() ==> 0 <= #[trigger] more[i] <= n
            &&& forall|i: int, j: int|
                0 <= i < j < more.len() ==> comes_before(
                    keys,
                    #[trigger] more[i],
                    #[trigger] more[j],
                )
            &&& forall|p: int| more.contains(p) <==> (order.contains(p) || p == n)
        }),
    decreases order.len(),
{
    let more = placed(order, keys, n as int);
    if order.len() == 0 || keys[order.last()] <= keys[n as int] {
        assert forall|i: int, j: int| 0 <= i < j < more.len() implies comes_before(
            keys,
            #[trigger] more[i],
            #[trigger] more[j],
        ) by {
            if j == order.len() {
                assert(more[i] == order[i]);
                if i < order.len() - 1 {
                    assert(comes_before(keys, order[i], order[order.len() - 1]));
                }
            } else {
                assert(comes_before(keys, order[i], order[j]));
            }
        }
        assert forall|p: int| more.contains(p) <==> (order.contains(p) || p == n) by {
            if order.contains(p) {
                let i = choose|i: int| 0 <= i < order.len() && order[i] == p;
                assert(more[i] == p);
            }
            if p == n {
                assert(more[order.len() as int] == p);
            }
        }
    } else {
        let front = order.drop_last();
        assert forall|i: int| 0 <= i < front.len() implies 0 <= #[trigger] front[i] < n by {
            assert(front[i] == order[i]);
        }
        assert forall|i: int, j: int| 0 <= i < j < front.len() implies comes_before(
            keys,
            #[trigger] front[i],
            #[trigger] front[j],
        ) by {
            assert(front[i] == order[i] && front[j] == order[j]);
        }
        lemma_placed(front, keys, n);
        let head = placed(front, keys, n as int);
        assert(more == head.push(order.last()));
        assert(order[order.len() - 1] < n);
        assert forall|i: int, j: int| 0 <= i < j < more.len() implies comes_before(
            keys,
            #[trigger] more[i],
            #[trigger] more[j],
        ) by {
            if j == head.len() {
                assert(head.contains(head[i]));
                if front.contains(head[i]) {
                    let k = choose|k: int| 0 <= k < front.len() && front[k] == head[i];
                    assert(order[k] == head[i]);
                    assert(comes_before(keys, order[k], order[order.len() - 1]));
                }
            } else {
                assert(comes_before(keys, head[i], head[j]));
            }
        }
        assert forall|i: int| 0 <= i < more.len() implies 0 <= #[trigger] more[i] <= n by {
            if i < head.len() {
                assert(more[i] == head[i]);
            }
        }
        assert forall|p: int| more.contains(p) <==> (order.contains(p) || p == n) by {
            if more.contains(p) {
                let i = choose|i: int| 0 <= i < more.len() && more[i] == p;
                if i < head.len() {
                    assert(head[i] == p);
                    assert(head.contains(p));
                    if front.contains(p) {
                        let k = choose|k: int| 0 <= k < front.len() && front[k] == p;
                        assert(order[k] == p);
                    }
                } else {
                    assert(order[order.len() - 1] == p);
                }
            }
            if order.contains(p) || p == n {
                if order.contains(p) && p != n {
                    let k = choose|k: int| 0 <= k < order.len() && order[k] == p;
                    if k < front.len() {
                        assert(front[k] == p);
                        assert(front.contains(p));
                    } else {
                        assert(more[head.len() as int] == p);
                    }
                }
                if head.contains(p) {
                    let i = choose|i: int| 0 <= i < head.len() && head[i] == p;
                    assert(more[i] == p);
                }
            }
        }
    }
}

proof fn lemma_order_of_first(keys: Seq<int>, n: nat)
    requires
        n <= keys.len(),
    ensures
        is_order(order_of_first(keys, n), keys, n),
    decreases n,
{
    if n > 0 {
        let m = (n - 1) as nat;
        lemma_order_of_first(keys, m);
        lemma_placed(order_of_first(keys, m), keys, m);
    }
}

/// The stable order holds every position once, keys ascending, and equal keys
/// in the order in which they stand.
pub proof fn law_stable_order(keys: Seq<int>)
    ensures
        is_order(stable_order(keys), keys, keys.len()),
{
    lemma_order_of_first(keys, keys.len());
}

/// What a list of machine integers stands for.
pub open spec fn key_models(keys: Seq<i128>) -> Seq<int> {
    keys.map_values(|k: i128| k as int)
}

/// What a list of positions stands for.
pub open spec fn position_models(positions: Seq<usize>) -> Seq<int> {
    positions.map_values(|p: usize| p as int)
}

/// The positions of keys, by ascending key, equal keys in the order in which
/// they stand.
pub fn order_by_key(keys: &[i128]) -> (order: Vec<usize>)
    ensures
        position_models(order@) == stable_order(key_models(keys@)),
{
    let ghost models = key_models(keys@);
    let mut order: Vec<usize> = Vec::new();
    let mut n: usize = 0;
    assert(position_models(order@) == order_of_first(models, 0));
    while n < keys.len()
        invariant
            n <= keys@.len(),
            models == key_models(keys@),
            order@.len() == n,
            position_models(order@) == order_of_first(models, n as nat),
        decreases keys@.len() - n,
    {
        let ghost before = position_models(order@);
        proof {
            lemma_order_of_first(models, n as nat);
        }
        let mut at: usize = order.len();
        let mut done: bool = false;
        assert(before.take(n as int) == before);
        assert(before.skip(n as int) == Seq::<int>::empty());
        assert(placed(before, models, n as int) + Seq::<int>::empty() == placed(
            before,
            models,
            n as int,
        ));
        while at > 0 && !done
            invariant
                at <= n,
                n < keys@.len(),
                models == key_models(keys@),
                order@.len() == n,
                before == position_models(order@),
                is_order(before, models, n as nat),
                placed(before, models, n as int) == placed(
                    before.take(at as int),
                    models,
                    n as int,
                ) + before.skip(at as int),
                done ==> at > 0 && models[before[at - 1]] <= models[n as int],
            decreases
                at + if done {
                    0int
                } else {
                    1int
                },
        {
            assert(0 <= before[at - 1] < n);
            let p: usize = order[at - 1];
            if keys[p] <= keys[n] {
                done = true;
            } else {
                assert(before.take(at as int).last() == before[at - 1]);
                assert(before.take(at as int).drop_last() == before.take(at - 1));
                assert(before.skip(at - 1) == seq![before[at - 1]] + before.skip(at as int));
                assert(placed(before.take(at - 1), models, n as int).push(before[at - 1])
                    + before.skip(at as int) == placed(before.take(at - 1), models, n as int)
                    + before.skip(at - 1));
                at -= 1;
            }
        }
        if at > 0 {
            assert(before.take(at as int).last() == before[at - 1]);
        }
        assert(placed(before.take(at as int), models, n as int) == before.take(at as int).push(
            n as int,
        ));
        order.insert(at, n);
        assert(position_models(order@) == before.take(at as int).push(n as int) + before.skip(
            at as int,
        ));
        n += 1;
    }
    order
}

// ---------------------------------------------------------------------------
// Texts
// ---------------------------------------------------------------------------

/// Whether one text is not after another, character by character.
pub open spec fn not_after(a: Seq<char>, b: Seq<char>) -> bool
    decreases a.len(),
{
    if a.len() == 0 {
        true
    } else if b.len() == 0 {
        false
    } else if a[0] == b[0] {
        not_after(a.drop_first(), b.drop_first())
    } else {
        (a[0] as int) < (b[0] as int)
    }
}

/// A list of texts with one more, after all that are not after it.
pub open spec fn text_placed(list: Seq<Seq<char>>, text: Seq<char>) -> Seq<Seq<char>>
    decreases list.len(),
{
    if list.len() == 0 || not_after(list.last(), text) {
        list.push(text)
    } else {
        text_placed(list.drop_last(), text).push(list.last())
    }
}

/// Texts in ascending order.
pub open spec fn sorted_texts(list: Seq<Seq<char>>) -> Seq<Seq<char>>
    decreases list.len(),
{
    if list.len() == 0 {
        list
    } else {
        text_placed(sorted_texts(list.drop_last()), list.last())
    }
}

proof fn lemma_not_after_total(a: Seq<char>, b: Seq<char>)
    ensures
        not_after(a, b) || not_after(b, a),
    decreases a.len(),
{
    if a.len() > 0 && b.len() > 0 && a[0] == b[0] {
        lemma_not_after_total(a.drop_first(), b.drop_first());
    }
}

proof fn lemma_not_after_transitive(a: Seq<char>, b: Seq<char>, c: Seq<char>)
    requires
        not_after(a, b),
        not_after(b, c),
    ensures
        not_after(a, c),
    decreases a.len(),
{
    if a.len() > 0 && a[0] == b[0] && b[0] == c[0] {
        lemma_not_after_transitive(a.drop_first(), b.drop_first(), c.drop_first());
    }
}

proof fn lemma_text_placed(list: Seq<Seq<char>>, text: Seq<char>)
    requires
        forall|i: int, j: int|
            0 <= i < j < list.len() ==> not_after(#[trigger] list[i], #[trigger] list[j]),
    ensures
        ({
            let more = text_placed(list, text);
            &&& more.to_multiset() == list.to_multiset().insert(text)
            &&& forall|i: int, j: int|
                0 <= i < j < more.len() ==> not_after(#[trigger] more[i], #[trigger] more[j])
        }),
    decreases list.len(),
{
    broadcast use vstd::seq_lib::group_to_multiset_ensures;

    let more = text_placed(list, text);
    if list.len() == 0 || not_after(list.last(), text) {
        assert forall|i: int, j: int| 0 <= i < j < more.len() implies not_after(
            #[trigger] more[i],
            #[trigger] more[j],
        ) by {
            if j == list.len() && i < list.len() - 1 {
                assert(not_after(list[i], list[list.len() - 1]));
                lemma_not_after_transitive(list[i], list.last(), text);
            } else if j < list.len() {
                assert(not_after(list[i], list[j]));
            }
        }
    } else {
        let front = list.drop_last();
        assert forall|i: int, j: int| 0 <= i < j < front.len() implies not_after(
            #[trigger] front[i],
            #[trigger] front[j],
        ) by {
            assert(front[i] == list[i] && front[j] == list[j]);
        }
        lemma_text_placed(front, text);
        let head = text_placed(front, text);
        lemma_not_after_total(list.last(), text);
        assert(front.push(list.last()) == list);
        assert(list.to_multiset() == front.to_multiset().insert(list.last()));
        assert(more.to_multiset() == head.to_multiset().insert(list.last()));
        assert(more.to_multiset() == list.to_multiset().insert(text));
        assert forall|i: int, j: int| 0 <= i < j < more.len() implies not_after(
            #[trigger] more[i],
            #[trigger] more[j],
        ) by {
            if j == head.len() {
                assert(head.to_multiset().count(head[i]) > 0);
                if head[i] != text {
                    assert(front.to_multiset().count(head[i]) > 0);
                    assert(front.contains(head[i]));
                    let k = choose|k: int| 0 <= k < front.len() && front[k] == head[i];
                    assert(list[k] == head[i]);
                    assert(not_after(list[k], list[list.len() - 1]));
                }
            } else {
                assert(not_after(head[i], head[j]));
            }
        }
    }
}

/// Sorting keeps the texts and puts them in ascending order.
pub proof fn law_sorted_texts(list: Seq<Seq<char>>)
    ensures
        sorted_texts(list).to_multiset() == list.to_multiset(),
        forall|i: int, j: int|
            0 <= i < j < sorted_texts(list).len() ==> not_after(
                #[trigger] sorted_texts(list)[i],
                #[trigger] sorted_texts(list)[j],
            ),
    decreases list.len(),
{
    broadcast use vstd::seq_lib::group_to_multiset_ensures;

    if list.len() > 0 {
        law_sorted_texts(list.drop_last());
        lemma_text_placed(sorted_texts(list.drop_last()), list.last());
        assert(list.drop_last().push(list.last()) == list);
    }
}

/// Whether one text is not after another, character by character.
pub fn text_not_after(a: &str, b: &str) -> (res: bool)
    ensures
        res == not_after(a@, b@),
{
    let size_a: usize = a.unicode_len();
    let size_b: usize = b.unicode_len();
    let mut i: usize = 0;
    assert(a@.skip(0) == a@);
    assert(b@.skip(0) == b@);
    while i < size_a && i < size_b
        invariant
            size_a == a@.len(),
            size_b == b@.len(),
            i <= size_a,
            i <= size_b,
            not_after(a@, b@) == not_after(a@.skip(i as int), b@.skip(i as int)),
        decreases size_a - i,
    {
        let x: char = a.get_char(i);
        let y: char = b.get_char(i);
        assert(a@.skip(i as int)[0] == x);
        assert(b@.skip(i as int)[0] == y);
        if x != y {
            return (x as u32) < (y as u32);
        }
        assert(a@.skip(i as int).drop_first() == a@.skip(i + 1));
        assert(b@.skip(i as int).drop_first() == b@.skip(i + 1));
        i += 1;
    }
    i == size_a
}

/// Texts in ascending order.
pub fn sort_texts(list: Vec<String>) -> (sorted: Vec<String>)
    ensures
        texts(sorted@) == sorted_texts(texts(list@)),
{
    let ghost all = texts(list@);
    let mut sorted: Vec<String> = Vec::new();
    let mut n: usize = 0;
    assert(texts(sorted@) == sorted_texts(all.take(0)));
    while n < list.len()
        invariant
            n <= list@.len(),
            all == texts(list@),
            texts(sorted@) == sorted_texts(all.take(n as int)),
        decreases list@.len() - n,
    {
        let ghost before = texts(sorted@);
        let ghost text = list@[n as int]@;
        let mut at: usize = sorted.len();
        let mut done: bool = false;
        assert(all.take(n + 1).drop_last() == all.take(n as int));
        assert(before.take(before.len() as int) == before);
        assert(text_placed(before, text) + before.skip(before.len() as int) == text_placed(
            before,
            text,
        ));
        while at > 0 && !done
            invariant
                at <= sorted@.len(),
                n < list@.len(),
                text == list@[n as int]@,
                before == texts(sorted@),
                text_placed(before, text) == text_placed(before.take(at as int), text)
                    + before.skip(at as int),
                done ==> at > 0 && not_after(before[at - 1], text),
            decreases
                at + if done {
                    0int
                } else {
                    1int
                },
        {
            if text_not_after(sorted[at - 1].as_str(), list[n].as_str()) {
                done = true;
            } else {
                assert(before.take(at as int).last() == before[at - 1]);
                assert(before.take(at as int).drop_last() == before.take(at - 1));
                assert(before.skip(at - 1) == seq![before[at - 1]] + before.skip(at as int));
                assert(text_placed(before.take(at - 1), text).push(before[at - 1]) + before.skip(
                    at as int,
                ) == text_placed(before.take(at - 1), text) + before.skip(at - 1));
                at -= 1;
            }
        }
        if at > 0 {
            assert(before.take(at as int).last() == before[at - 1]);
        }
        let copy: String = list[n].clone();
        sorted.insert(at, copy);
        assert(texts(sorted@) == before.take(at as int).push(text) + before.skip(at as int));
        n += 1;
    }
    assert(all.take(n as int) == all);
    sorted
}

/// Texts are ordered by the first character in which they differ, and the start
/// of a text comes before it.
pub proof fn law_texts_differ_at_a_character(
    start: Seq<char>,
    one: char,
    other: char,
    rest: Seq<char>,
    more: Seq<char>,
)
    ensures
        one != other ==> (not_after(start.push(one) + rest, start.push(other) + more) <==> (
        one as int) < (other as int)),
        not_after(start, start + rest),
        rest.len() > 0 ==> !not_after(start + rest, start),
    decreases start.len(),
{
    let a = start.push(one) + rest;
    let b = start.push(other) + more;
    if start.len() > 0 {
        let shorter = start.drop_first();
        law_texts_differ_at_a_character(shorter, one, other, rest, more);
        assert(a.drop_first() == shorter.push(one) + rest);
        assert(b.drop_first() == shorter.push(other) + more);
        assert((start + rest).drop_first() == shorter + rest);
    }
}

/// No two texts are each not after the other.
pub proof fn law_order_of_texts_is_strict(a: Seq<char>, b: Seq<char>)
    ensures
        not_after(a, b) && not_after(b, a) ==> a == b,
        not_after(a, b) || not_after(b, a),
    decreases a.len(),
{
    lemma_not_after_total(a, b);
    if a.len() > 0 && b.len() > 0 && a[0] == b[0] {
        law_order_of_texts_is_strict(a.drop_first(), b.drop_first());
        if not_after(a, b) && not_after(b, a) {
            assert(a == seq![a[0]] + a.drop_first());
            assert(b == seq![b[0]] + b.drop_first());
        }
    }
}

} // verus!
