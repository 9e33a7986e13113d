//! Values by text key, and sets of texts, kept in the order of their arrival.

use vstd::prelude::*;
use vstd::string::*;

use crate::text::{same_text, texts};

verus! {

broadcast use {
    vstd::string::group_string_axioms,
    vstd::seq_lib::group_seq_properties,
};

// ---------------------------------------------------------------------------
// Values by key
// ---------------------------------------------------------------------------

/// Values by key.
#[derive(Debug)]
pub struct Keyed<V> {
    pub entries: Vec<(String, V)>,
}

/// Whether no two entries have the same key.
pub open spec fn distinct_keys<V>(entries: Seq<(String, V)>) -> bool {
    forall|i: int, j: int|
        0 <= i < j < entries.len() ==> (#[trigger] entries[i]).0@ != (#[trigger] entries[j]).0@
}

/// Whether an entry has a key.
pub open spec fn has_key<V>(entries: Seq<(String, V)>, key: Seq<char>) -> bool {
    exists|i: int| 0 <= i < entries.len() && (#[trigger] entries[i]).0@ == key
}

/// The value of the entry with a key.
pub open spec fn value_of<V>(entries: Seq<(String, V)>, key: Seq<char>) -> V {
    entries[choose|i: int| 0 <= i < entries.len() && (#[trigger] entries[i]).0@ == key].1
}

impl<V> View for Keyed<V> {
    type V = Map<Seq<char>, V>;

    open spec fn view(&self) -> Map<Seq<char>, V> {
        Map::new(
            |key: Seq<char>| has_key(self.entries@, key),
            |key: Seq<char>| value_of(self.entries@, key),
        )
    }
}

/// The value of an entry is the one under its key.
pub proof fn lemma_value_of<V>(entries: Seq<(String, V)>, i: int)
    requires
        distinct_keys(entries),
        0 <= i < entries.len(),
    ensures
        has_key(entries, entries[i].0@),
        value_of(entries, entries[i].0@) == entries[i].1,
{
    let key = entries[i].0@;
    let k = choose|k: int| 0 <= k < entries.len() && (#[trigger] entries[k]).0@ == key;
    if k < i {
        assert(entries[k].0@ != entries[i].0@);
    } else if i < k {
        assert(entries[i].0@ != entries[k].0@);
    }
}

impl<V> Keyed<V> {
    /// Every key has one entry.
    pub open spec fn wf(&self) -> bool {
        distinct_keys(self.entries@)
    }

    /// No values.
    pub fn new() -> (keyed: Keyed<V>)
        ensures
            keyed.wf(),
            keyed@ == Map::<Seq<char>, V>::empty(),
            keyed.entries@.len() == 0,
    {
        let keyed: Keyed<V> = Keyed { entries: Vec::new() };
        assert(keyed@ == Map::<Seq<char>, V>::empty());
        keyed
    }

    /// The place of a key.
    fn position(&self, key: &str) -> (place: Option<usize>)
        requires
            self.wf(),
        ensures
            match place {
                Some(i) => {
                    &&& i < self.entries@.len()
                    &&& self.entries@[i as int].0@ == key@
                    &&& self@.contains_key(key@)
                    &&& self@[key@] == self.entries@[i as int].1
                },
                None => {
                    &&& !self@.contains_key(key@)
                    &&& forall|k: int|
                        0 <= k < self.entries@.len() ==> (#[trigger] self.entries@[k]).0@ != key@
                },
            },
    {
        let mut i: usize = 0;
        while i < self.entries.len()
            invariant
                self.wf(),
                i <= self.entries@.len(),
                forall|k: int| 0 <= k < i ==> (#[trigger] self.entries@[k]).0@ != key@,
            decreases self.entries@.len() - i,
        {
            if same_text(self.entries[i].0.as_str(), key) {
                proof {
                    lemma_value_of(self.entries@, i as int);
                }
                return Some(i);
            }
            i += 1;
        }
        None
    }

    /// The value under a key.
    pub fn get(&self, key: &str) -> (value: Option<&V>)
        requires
            self.wf(),
        ensures
            match value {
                Some(v) => self@.contains_key(key@) && self@[key@] == *v,
                None => !self@.contains_key(key@),
            },
    {
        match self.position(key) {
            Some(i) => Some(&self.entries[i].1),
            None => None,
        }
    }

    /// Puts a value under a key, in place of the one that was there.
    pub fn insert(&mut self, key: String, value: V)
        requires
            old(self).wf(),
        ensures
            final(self).wf(),
            final(self)@ == old(self)@.insert(key@, value),
    {
        let ghost before = self.entries@;
        match self.position(key.as_str()) {
            Some(i) => {
                self.entries[i].1 = value;
                let ghost after = self.entries@;
                proof {
                    assert forall|k: int| 0 <= k < after.len() implies (
                    #[trigger] after[k]).0@ == before[k].0@ && (k != i ==> after[k]
                        == before[k]) by {}
                    assert(distinct_keys(after)) by {
                        assert forall|j: int, k: int| 0 <= j < k < after.len() implies (
                        #[trigger] after[j]).0@ != (#[trigger] after[k]).0@ by {
                            assert(before[j].0@ != before[k].0@);
                        }
                    }
                    lemma_same_keys(before, after, i as int);
                }
            },
            None => {
                self.entries.push((key, value));
                let ghost after = self.entries@;
                proof {
                    assert(distinct_keys(after)) by {
                        assert forall|j: int, k: int| 0 <= j < k < after.len() implies (
                        #[trigger] after[j]).0@ != (#[trigger] after[k]).0@ by {
                            if k < before.len() {
                                assert(before[j].0@ != before[k].0@);
                            } else {
                                assert(before[j].0@ != key@);
                            }
                        }
                    }
                    assert(after.drop_last() == before);
                    lemma_one_more_key(before, after);
                }
            },
        }
    }

    /// Drops the value under a key.
    pub fn remove(&mut self, key: &str)
        requires
            old(self).wf(),
        ensures
            final(self).wf(),
            final(self)@ == old(self)@.remove(key@),
    {
        let ghost before = self.entries@;
        match self.position(key) {
            Some(i) => {
                let dropped: (String, V) = self.entries.remove(i);
                let ghost after = self.entries@;
                proof {
                    assert forall|k: int| 0 <= k < after.len() implies #[trigger] after[k] == if k
                        < i {
                        before[k]
                    } else {
                        before[k + 1]
                    } by {}
                    assert(distinct_keys(after)) by {
                        assert forall|j: int, k: int| 0 <= j < k < after.len() implies (
                        #[trigger] after[j]).0@ != (#[trigger] after[k]).0@ by {
                            let a = if j < i {
                                j
                            } else {
                                j + 1
                            };
                            let b = if k < i {
                                k
                            } else {
                                k + 1
                            };
                            assert(before[a].0@ != before[b].0@);
                        }
                    }
                    lemma_one_key_less(before, after, i as int);
                }
            },
            None => {
                assert(self@ == old(self)@.remove(key@));
            },
        }
    }
}

proof fn lemma_same_keys<V>(before: Seq<(String, V)>, after: Seq<(String, V)>, i: int)
    requires
        distinct_keys(before),
        distinct_keys(after),
        after.len() == before.len(),
        0 <= i < before.len(),
        forall|k: int|
            0 <= k < after.len() ==> (#[trigger] after[k]).0@ == before[k].0@ && (k != i
                ==> after[k] == before[k]),
    ensures
        forall|k: Seq<char>| has_key(after, k) == has_key(before, k),
        has_key(after, before[i].0@),
        value_of(after, before[i].0@) == after[i].1,
        forall|k: Seq<char>|
            has_key(before, k) && k != before[i].0@ ==> value_of(after, k) == value_of(before, k),
{
    assert forall|k: Seq<char>| has_key(after, k) == has_key(before, k) by {
        if has_key(after, k) {
            let j = choose|j: int| 0 <= j < after.len() && (#[trigger] after[j]).0@ == k;
            assert(before[j].0@ == k);
        }
        if has_key(before, k) {
            let j = choose|j: int| 0 <= j < before.len() && (#[trigger] before[j]).0@ == k;
            assert(after[j].0@ == k);
        }
    }
    assert(after[i].0@ == before[i].0@);
    lemma_value_of(after, i);
    assert forall|k: Seq<char>| has_key(before, k) && k != before[i].0@ implies value_of(after, k)
        == value_of(before, k) by {
        let j = choose|j: int| 0 <= j < before.len() && (#[trigger] before[j]).0@ == k;
        assert(after[j].0@ == k);
        lemma_value_of(before, j);
        lemma_value_of(after, j);
    }
}

/// One more entry adds its key and value, and changes no other.
pub proof fn lemma_one_more_key<V>(before: Seq<(String, V)>, after: Seq<(String, V)>)
    requires
        distinct_keys(before),
        distinct_keys(after),
        after.len() == before.len() + 1,
        after.drop_last() == before,
    ensures
        forall|k: Seq<char>| has_key(after, k) == (has_key(before, k) || k == after.last().0@),
        value_of(after, after.last().0@) == after.last().1,
        forall|k: Seq<char>| has_key(before, k) ==> value_of(after, k) == value_of(before, k),
{
    assert forall|k: Seq<char>| has_key(after, k) == (has_key(before, k) || k
        == after.last().0@) by {
        if has_key(after, k) {
            let j = choose|j: int| 0 <= j < after.len() && (#[trigger] after[j]).0@ == k;
            if j < before.len() {
                assert(before[j].0@ == k);
            }
        }
        if has_key(before, k) {
            let j = choose|j: int| 0 <= j < before.len() && (#[trigger] before[j]).0@ == k;
            assert(after[j].0@ == k);
        }
        if k == after.last().0@ {
            assert(after[before.len() as int].0@ == k);
        }
    }
    lemma_value_of(after, before.len() as int);
    assert forall|k: Seq<char>| has_key(before, k) implies value_of(after, k) == value_of(
        before,
        k,
    ) by {
        let j = choose|j: int| 0 <= j < before.len() && (#[trigger] before[j]).0@ == k;
        assert(after[j] == before[j]);
        lemma_value_of(before, j);
        lemma_value_of(after, j);
    }
}

proof fn lemma_one_key_less<V>(before: Seq<(String, V)>, after: Seq<(String, V)>, i: int)
    requires
        distinct_keys(before),
        distinct_keys(after),
        0 <= i < before.len(),
        after.len() == before.len() - 1,
        forall|k: int|
            0 <= k < after.len() ==> #[trigger] after[k] == if k < i {
                before[k]
            } else {
                before[k + 1]
            },
    ensures
        forall|k: Seq<char>| has_key(after, k) == (has_key(before, k) && k != before[i].0@),
        forall|k: Seq<char>| has_key(after, k) ==> value_of(after, k) == value_of(before, k),
{
    assert forall|k: Seq<char>| has_key(after, k) == (has_key(before, k) && k != before[i].0@) by {
        if has_key(after, k) {
            let j = choose|j: int| 0 <= j < after.len() && (#[trigger] after[j]).0@ == k;
            let a = if j < i {
                j
            } else {
                j + 1
            };
            assert(before[a].0@ == k);
            if a < i {
                assert(before[a].0@ != before[i].0@);
            } else {
                assert(before[i].0@ != before[a].0@);
            }
        }
        if has_key(before, k) && k != before[i].0@ {
            let j = choose|j: int| 0 <= j < before.len() && (#[trigger] before[j]).0@ == k;
            let a = if j < i {
                j
            } else {
                j - 1
            };
            assert(after[a].0@ == k);
        }
    }
    assert forall|k: Seq<char>| has_key(after, k) implies value_of(after, k) == value_of(
        before,
        k,
    ) by {
        let j = choose|j: int| 0 <= j < after.len() && (#[trigger] after[j]).0@ == k;
        let a = if j < i {
            j
        } else {
            j + 1
        };
        lemma_value_of(after, j);
        lemma_value_of(before, a);
    }
}

// ---------------------------------------------------------------------------
// Sets of texts
// ---------------------------------------------------------------------------

/// Whether a text is in a list.
pub fn listed_in(text: &str, list: &[String]) -> (found: bool)
    ensures
        found == texts(list@).contains(text@),
{
    let mut i: usize = 0;
    while i < list.len()
        invariant
            i <= list@.len(),
            forall|k: int| 0 <= k < i ==> (#[trigger] list@[k])@ != text@,
        decreases list@.len() - i,
    {
        if same_text(list[i].as_str(), text) {
            assert(texts(list@)[i as int] == text@);
            return true;
        }
        i += 1;
    }
    proof {
        if texts(list@).contains(text@) {
            let k = choose|k: int| 0 <= k < texts(list@).len() && texts(list@)[k] == text@;
            assert(list@[k]@ == text@);
        }
    }
    false
}

/// A set of texts.
#[derive(Debug)]
pub struct TextSet {
    pub keyed: Keyed<()>,
}

impl View for TextSet {
    type V = Set<Seq<char>>;

    open spec fn view(&self) -> Set<Seq<char>> {
        self.keyed@.dom()
    }
}

impl TextSet {
    /// Every text is kept once.
    pub open spec fn wf(&self) -> bool {
        self.keyed.wf()
    }

    /// No texts.
    pub fn new() -> (set: TextSet)
        ensures
            set.wf(),
            set@ == Set::<Seq<char>>::empty(),
    {
        let set: TextSet = TextSet { keyed: Keyed::new() };
        assert(set@ == Set::<Seq<char>>::empty());
        set
    }

    /// Whether the set holds no text.
    pub fn is_empty(&self) -> (res: bool)
        requires
            self.wf(),
        ensures
            res == (self@ == Set::<Seq<char>>::empty()),
    {
        let res: bool = self.keyed.entries.len() == 0;
        proof {
            if res {
                assert(self@ == Set::<Seq<char>>::empty());
            } else {
                assert(has_key(self.keyed.entries@, self.keyed.entries@[0].0@));
                assert(self@.contains(self.keyed.entries@[0].0@));
            }
        }
        res
    }

    /// Whether the set holds a text.
    pub fn contains(&self, text: &str) -> (res: bool)
        requires
            self.wf(),
        ensures
            res == self@.contains(text@),
    {
        match self.keyed.get(text) {
            Some(_) => true,
            None => false,
        }
    }

    /// Adds a text, and tells whether it was not there.
    pub fn insert(&mut self, text: String) -> (added: bool)
        requires
            old(self).wf(),
        ensures
            final(self).wf(),
            final(self)@ == old(self)@.insert(text@),
            added == !old(self)@.contains(text@),
    {
        let ghost before = self@;
        let known: bool = self.keyed.get(text.as_str()).is_some();
        self.keyed.insert(text, ());
        assert(self@ == before.insert(text@));
        !known
    }

    /// Drops a text.
    pub fn remove(&mut self, text: &str)
        requires
            old(self).wf(),
        ensures
            final(self).wf(),
            final(self)@ == old(self)@.remove(text@),
    {
        let ghost before = self@;
        self.keyed.remove(text);
        assert(self@ == before.remove(text@));
    }
}

/// What is looked up under a key is the value of its entry, and there is none
/// just if no entry has the key.
pub proof fn law_entries_are_found_by_key<V>(keyed: Keyed<V>, key: Seq<char>)
    requires
        keyed.wf(),
    ensures
        forall|i: int|
            0 <= i < keyed.entries@.len() && (#[trigger] keyed.entries@[i]).0@ == key
                ==> keyed@.contains_key(key) && keyed@[key] == keyed.entries@[i].1,
        (forall|i: int| 0 <= i < keyed.entries@.len() ==> (#[trigger] keyed.entries@[i]).0@ != key)
            ==> !keyed@.contains_key(key),
{
    assert forall|i: int|
        0 <= i < keyed.entries@.len() && (
        #[trigger] keyed.entries@[i]).0@ == key implies keyed@.contains_key(key) && keyed@[key]
        == keyed.entries@[i].1 by {
        lemma_value_of(keyed.entries@, i);
    }
}

} // verus!
