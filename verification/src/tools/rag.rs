//! Hybrid search over the indexed codebase: what the vector search and the
//! lexical search find is fused by reciprocal rank.

use vstd::prelude::*;
use vstd::string::*;

use crate::api::types::{DefinitionModel, ToolDefinition};
use crate::json::{as_count, as_text, at, count_or, count_or_at, Json, JsonModel};
use crate::order::{
    comes_before, key_models, law_stable_order, order_by_key, position_models, stable_order,
};
use crate::rag::bm25::{
    best, corpus_terms_of, is_ranking, law_ranking_is_best_first, rank, scored_at, scored_by,
    terms_of, DocumentCounts,
};
use crate::rag::store::{location, location_key, SearchHit};
use crate::text::number::{decimal, decimal_of};
use crate::text::search::slice_texts;
use crate::text::{join, joined, same_text, texts, utf8_len};
use crate::tools::schema::{
    missing_words, parameter, parameter_model, parameter_models, required_str, schema,
    schema_model, Parameter,
};
use crate::tools::{clip, clipped};

verus! {

broadcast use {
    vstd::string::group_string_axioms,
    vstd::seq_lib::group_seq_properties,
};

/// Longer output is clipped.
pub const MAX_OUTPUT: usize = 30_000;

/// How many results a call gets, unless it says otherwise.
pub const DEFAULT_LIMIT: u64 = 8;

/// How many candidates each retriever contributes before fusion.
pub const CANDIDATES_PER_RETRIEVER: usize = 20;

// ---------------------------------------------------------------------------
// Candidates
// ---------------------------------------------------------------------------

/// A chunk that a retriever found.
#[derive(Debug)]
pub struct Found {
    pub path: String,
    pub start_line: usize,
    pub end_line: usize,
    pub text: String,
}

/// What a [`Found`] stands for.
pub ghost struct FoundModel {
    pub path: Seq<char>,
    pub start_line: usize,
    pub end_line: usize,
    pub text: Seq<char>,
}

impl View for Found {
    type V = FoundModel;

    open spec fn view(&self) -> FoundModel {
        FoundModel {
            path: self.path@,
            start_line: self.start_line,
            end_line: self.end_line,
            text: self.text@,
        }
    }
}

impl Clone for Found {
    fn clone(&self) -> (res: Self)
        ensures
            res@ == self@,
    {
        Found {
            path: self.path.clone(),
            start_line: self.start_line,
            end_line: self.end_line,
            text: self.text.clone(),
        }
    }
}

impl Found {
    /// The chunk of a hit of the vector search.
    pub fn from_hit(hit: SearchHit) -> (found: Found)
        ensures
            found.path == hit.path,
            found.start_line == hit.start_line,
            found.end_line == hit.end_line,
            found.text == hit.text,
    {
        Found {
            path: hit.path,
            start_line: hit.start_line,
            end_line: hit.end_line,
            text: hit.text,
        }
    }
}

/// A chunk with the ranks at which retrievers found it.
#[derive(Debug)]
pub struct Candidate {
    pub key: String,
    pub found: Found,
    pub ranks: Vec<usize>,
}

/// What a [`Candidate`] stands for.
pub ghost struct CandidateModel {
    pub key: Seq<char>,
    pub found: FoundModel,
    pub ranks: Seq<usize>,
}

impl View for Candidate {
    type V = CandidateModel;

    open spec fn view(&self) -> CandidateModel {
        CandidateModel { key: self.key@, found: self.found@, ranks: self.ranks@ }
    }
}

/// What a list of candidates stands for.
pub open spec fn candidate_models(list: Seq<Candidate>) -> Seq<CandidateModel> {
    list.map_values(|c: Candidate| c@)
}

/// The place of the first candidate with a key.
pub open spec fn place_of(list: Seq<CandidateModel>, key: Seq<char>) -> Option<int>
    decreases list.len(),
{
    if list.len() == 0 {
        None
    } else if list[0].key == key {
        Some(0)
    } else {
        match place_of(list.drop_first(), key) {
            Some(i) => Some(i + 1),
            None => None,
        }
    }
}

/// The candidates after one more find at a rank: a chunk that is there gets
/// the rank, and takes what was found as long as it has no text; another one
/// is added at the end.
pub open spec fn fused(list: Seq<CandidateModel>, rank: usize, found: FoundModel) -> Seq<
    CandidateModel,
> {
    let key = location_key(found.path, found.start_line as nat);
    match place_of(list, key) {
        Some(i) => list.update(
            i,
            CandidateModel {
                key,
                found: if list[i].found.text.len() == 0 {
                    found
                } else {
                    list[i].found
                },
                ranks: list[i].ranks.push(rank),
            },
        ),
        None => list.push(CandidateModel { key, found, ranks: seq![rank] }),
    }
}

/// The candidates after the first `n` finds of a retriever, each at its place
/// in the list.
pub open spec fn fused_all(list: Seq<CandidateModel>, finds: Seq<FoundModel>, n: nat) -> Seq<
    CandidateModel,
>
    decreases n,
{
    if n == 0 || n > finds.len() {
        list
    } else {
        fused(fused_all(list, finds, (n - 1) as nat), (n - 1) as usize, finds[n - 1])
    }
}

/// What a list of finds stands for.
pub open spec fn found_models(finds: Seq<Found>) -> Seq<FoundModel> {
    finds.map_values(|f: Found| f@)
}

/// The candidates of a search, in the order in which they were first found.
#[derive(Debug)]
pub struct Fusion {
    pub candidates: Vec<Candidate>,
}

impl View for Fusion {
    type V = Seq<CandidateModel>;

    open spec fn view(&self) -> Seq<CandidateModel> {
        candidate_models(self.candidates@)
    }
}

impl Fusion {
    /// A search without candidates.
    pub fn new() -> (fusion: Fusion)
        ensures
            fusion@ == Seq::<CandidateModel>::empty(),
    {
        let fusion: Fusion = Fusion { candidates: Vec::new() };
        assert(fusion@ == Seq::<CandidateModel>::empty());
        fusion
    }

    fn find(&self, key: &str) -> (place: Option<usize>)
        ensures
            match place {
                Some(i) => {
                    &&& i < self.candidates@.len()
                    &&& place_of(self@, key@) == Some(i as int)
                    &&& self.candidates@[i as int].key@ == key@
                },
                None => place_of(self@, key@) is None,
            },
    {
        let mut i: usize = 0;
        assert(self@.skip(0) == self@);
        while i < self.candidates.len()
            invariant
                i <= self.candidates@.len(),
                place_of(self@, key@) == match place_of(self@.skip(i as int), key@) {
                    Some(k) => Some(k + i),
                    None => None,
                },
            decreases self.candidates@.len() - i,
        {
            assert(self@.skip(i as int)[0] == self.candidates@[i as int]@);
            if same_text(self.candidates[i].key.as_str(), key) {
                return Some(i);
            }
            assert(self@.skip(i as int).drop_first() == self@.skip(i + 1));
            i += 1;
        }
        None
    }

    /// Takes in one find at a rank.
    pub fn add(&mut self, rank: usize, found: Found)
        ensures
            final(self)@ == fused(old(self)@, rank, found@),
    {
        let key: String = location(found.path.as_str(), found.start_line);
        let ghost before = self@;
        match self.find(key.as_str()) {
            Some(i) => {
                let ghost ranks = before[i as int].ranks;
                self.candidates[i].ranks.push(rank);
                assert(self.candidates@[i as int].ranks@ == ranks.push(rank));
                if self.candidates[i].found.text.as_str().is_empty() {
                    self.candidates[i].found = found;
                }
                assert(self@ == fused(before, rank, found@));
            },
            None => {
                let candidate: Candidate = Candidate { key, found, ranks: vec![rank] };
                assert(candidate@.ranks == seq![rank]);
                self.candidates.push(candidate);
                assert(self@ == before.push(candidate@));
            },
        }
    }

    /// Takes in the finds of a retriever, best first.
    pub fn add_all(&mut self, finds: &[Found])
        ensures
            final(self)@ == fused_all(old(self)@, found_models(finds@), finds@.len()),
    {
        let ghost before = self@;
        let mut i: usize = 0;
        while i < finds.len()
            invariant
                i <= finds@.len(),
                before == old(self)@,
                self@ == fused_all(before, found_models(finds@), i as nat),
            decreases finds@.len() - i,
        {
            let copy: Found = finds[i].clone();
            self.add(i, copy);
            assert(found_models(finds@)[i as int] == copy@);
            i += 1;
        }
    }
}

/// The text of each find.
pub open spec fn found_texts(finds: Seq<FoundModel>) -> Seq<Seq<char>> {
    finds.map_values(|f: FoundModel| f.text)
}

/// The finds at the places of a ranking.
pub open spec fn ranked_finds(finds: Seq<FoundModel>, ranking: Seq<(usize, u32)>) -> Seq<
    FoundModel,
> {
    ranking.map_values(|r: (usize, u32)| finds[r.0 as int])
}

/// Whether candidates are those of a search: the hits of the vector search,
/// fused with the chunks of the corpus that rank best for the query.
pub open spec fn is_fusion<F: Fn(&DocumentCounts) -> u32>(
    score: F,
    query: Seq<char>,
    hits: Seq<FoundModel>,
    corpus: Seq<FoundModel>,
    candidates: Seq<CandidateModel>,
) -> bool {
    exists|ranking: Seq<(usize, u32)>| #[trigger]
        is_ranking(
            score,
            found_texts(corpus),
            query,
            CANDIDATES_PER_RETRIEVER as nat,
            ranking,
        ) && candidates == fused_all(
            fused_all(Seq::empty(), hits, hits.len()),
            ranked_finds(corpus, ranking),
            ranking.len(),
        )
}

/// The candidates of a search: the hits of the vector search, fused with the
/// chunks of the corpus that rank best for the query.
pub fn fuse_results<F: Fn(&DocumentCounts) -> u32>(
    query: &str,
    hits: &[Found],
    corpus: &[Found],
    score: F,
) -> (fusion: Fusion)
    requires
        forall|counts: DocumentCounts| call_requires(score, (&counts,)),
    ensures
        is_fusion(score, query@, found_models(hits@), found_models(corpus@), fusion@),
{
    let ghost chunks = found_models(corpus@);
    let mut fusion: Fusion = Fusion::new();
    fusion.add_all(hits);
    let mut documents: Vec<String> = Vec::new();
    let mut i: usize = 0;
    while i < corpus.len()
        invariant
            i <= corpus@.len(),
            documents@.len() == i,
            forall|k: int| 0 <= k < i ==> (#[trigger] documents@[k])@ == corpus@[k].text@,
        decreases corpus@.len() - i,
    {
        documents.push(corpus[i].text.clone());
        i += 1;
    }
    assert(texts(documents@) == found_texts(chunks));
    let ranking: Vec<(usize, u32)> = rank(
        documents.as_slice(),
        query,
        CANDIDATES_PER_RETRIEVER,
        score,
    );
    let mut finds: Vec<Found> = Vec::new();
    let mut k: usize = 0;
    while k < ranking.len()
        invariant
            k <= ranking@.len(),
            documents@.len() == corpus@.len(),
            forall|p: int| 0 <= p < ranking@.len() ==> (#[trigger] ranking@[p]).0 < documents@.len(),
            finds@.len() == k,
            forall|p: int| 0 <= p < k ==> (#[trigger] finds@[p])@ == corpus@[ranking@[p].0 as int]@,
        decreases ranking@.len() - k,
    {
        let place: usize = ranking[k].0;
        assert(ranking@[k as int].0 < documents@.len());
        finds.push(corpus[place].clone());
        k += 1;
    }
    assert(found_models(finds@) == ranked_finds(chunks, ranking@));
    fusion.add_all(finds.as_slice());
    fusion
}

// ---------------------------------------------------------------------------
// What fusion keeps
// ---------------------------------------------------------------------------

/// Whether no two candidates have the same key, each has the key of its chunk
/// and at least one rank.
pub open spec fn well_fused(list: Seq<CandidateModel>) -> bool {
    &&& forall|i: int, j: int|
        0 <= i < j < list.len() ==> (#[trigger] list[i]).key != (#[trigger] list[j]).key
    &&& forall|i: int|
        0 <= i < list.len() ==> {
            let c = #[trigger] list[i];
            &&& c.key == location_key(c.found.path, c.found.start_line as nat)
            &&& c.ranks.len() > 0
        }
}

proof fn lemma_place_of(list: Seq<CandidateModel>, key: Seq<char>)
    ensures
        match place_of(list, key) {
            Some(i) => 0 <= i < list.len() && list[i].key == key,
            None => forall|i: int| 0 <= i < list.len() ==> (#[trigger] list[i]).key != key,
        },
    decreases list.len(),
{
    if list.len() > 0 && list[0].key != key {
        let rest = list.drop_first();
        lemma_place_of(rest, key);
        if place_of(rest, key) is None {
            assert forall|i: int| 0 <= i < list.len() implies (#[trigger] list[i]).key != key by {
                if i > 0 {
                    assert(rest[i - 1] == list[i]);
                }
            }
        }
    }
}

/// However often a chunk is found, it is one candidate: fusion lists every
/// place once, and a find never drops a candidate.
pub proof fn law_fusion_lists_places_once(
    list: Seq<CandidateModel>,
    rank: usize,
    found: FoundModel,
)
    requires
        well_fused(list),
    ensures
        well_fused(fused(list, rank, found)),
        list.len() <= fused(list, rank, found).len() <= list.len() + 1,
        forall|i: int|
            0 <= i < list.len() ==> {
                let now = #[trigger] fused(list, rank, found)[i];
                &&& now.key == list[i].key
                &&& list[i].ranks.is_prefix_of(now.ranks)
                &&& list[i].found.text.len() > 0 ==> now.found == list[i].found
            },
{
    let key = location_key(found.path, found.start_line as nat);
    let after = fused(list, rank, found);
    lemma_place_of(list, key);
    if let Some(at) = place_of(list, key) {
        assert(list[at].ranks.push(rank).take(list[at].ranks.len() as int) == list[at].ranks);
        assert(list[at].ranks.is_prefix_of(list[at].ranks.push(rank)));
        assert forall|i: int, j: int| 0 <= i < j < after.len() implies (#[trigger] after[i]).key
            != (#[trigger] after[j]).key by {
            assert(list[i].key != list[j].key);
        }
        assert forall|i: int| 0 <= i < after.len() implies {
            let c = #[trigger] after[i];
            &&& c.key == location_key(c.found.path, c.found.start_line as nat)
            &&& c.ranks.len() > 0
        } by {
            let c = list[i];
            assert(c.key == location_key(c.found.path, c.found.start_line as nat));
        }
    } else {
        assert forall|i: int, j: int| 0 <= i < j < after.len() implies (#[trigger] after[i]).key
            != (#[trigger] after[j]).key by {
            if j < list.len() {
                assert(list[i].key != list[j].key);
            } else {
                assert(after[i] == list[i]);
            }
        }
    }
    assert forall|i: int| 0 <= i < list.len() implies {
        let now = #[trigger] after[i];
        &&& now.key == list[i].key
        &&& list[i].ranks.is_prefix_of(now.ranks)
        &&& list[i].found.text.len() > 0 ==> now.found == list[i].found
    } by {
        assert(list[i].ranks.is_prefix_of(list[i].ranks));
    }
}

/// A find counts once: the candidate at its place, if there is one, gets the
/// rank behind those that it has, and takes what was found as long as it has
/// no text; every other candidate stays as it is. A find at a new place is a
/// candidate of its own, behind the others.
pub proof fn law_find_counts_once(list: Seq<CandidateModel>, rank: usize, found: FoundModel)
    requires
        well_fused(list),
    ensures
        ({
            let key = found.path + ":"@ + decimal(found.start_line as nat);
            let after = fused(list, rank, found);
            &&& forall|i: int|
                0 <= i < list.len() && list[i].key != key ==> #[trigger] after[i] == list[i]
            &&& forall|i: int|
                0 <= i < list.len() && list[i].key == key ==> {
                    &&& after.len() == list.len()
                    &&& (#[trigger] after[i]).key == key
                    &&& after[i].ranks == list[i].ranks + seq![rank]
                    &&& list[i].found.text.len() > 0 ==> after[i].found == list[i].found
                    &&& list[i].found.text.len() == 0 ==> after[i].found == found
                }
            &&& (forall|i: int| 0 <= i < list.len() ==> (#[trigger] list[i]).key != key) ==> {
                &&& after.len() == list.len() + 1
                &&& after.last().key == key
                &&& after.last().found == found
                &&& after.last().ranks == seq![rank]
            }
        }),
{
    let key = location_key(found.path, found.start_line as nat);
    lemma_place_of(list, key);
    if let Some(at) = place_of(list, key) {
        assert(list[at].ranks.push(rank) == list[at].ranks + seq![rank]);
    }
}

/// The place of a chunk, as it is written: its path and its first line.
pub open spec fn written_place(found: FoundModel) -> Seq<char> {
    found.path + ":"@ + decimal(found.start_line as nat)
}

/// Whether a candidate is at a place and lists a rank.
pub open spec fn lists_rank(candidate: CandidateModel, place: Seq<char>, rank: int) -> bool {
    candidate.key == place && candidate.ranks.contains(rank as usize)
}

/// Whether some candidate is at a place and lists a rank.
pub open spec fn some_lists_rank(
    candidates: Seq<CandidateModel>,
    place: Seq<char>,
    rank: int,
) -> bool {
    exists|i: int|
        0 <= i < candidates.len() && lists_rank(#[trigger] candidates[i], place, rank)
}

/// Whether a candidate has a rank from one of several finds.
pub open spec fn has_rank_from(
    candidate: CandidateModel,
    rank: usize,
    finds: Seq<FoundModel>,
) -> bool {
    rank < finds.len() && written_place(finds[rank as int]) == candidate.key
}

proof fn lemma_finds_are_candidates(list: Seq<CandidateModel>, finds: Seq<FoundModel>, n: nat)
    requires
        well_fused(list),
        n <= finds.len() <= usize::MAX,
    ensures
        ({
            let after = fused_all(list, finds, n);
            &&& well_fused(after)
            &&& list.len() <= after.len()
            &&& forall|p: int|
                0 <= p < n ==> some_lists_rank(after, written_place(#[trigger] finds[p]), p)
            &&& forall|i: int|
                0 <= i < list.len() ==> (#[trigger] after[i]).key == list[i].key
                    && list[i].ranks.is_prefix_of(after[i].ranks)
            &&& forall|i: int, k: int|
                0 <= i < after.len() && 0 <= k < after[i].ranks.len() ==> {
                    ||| i < list.len() && k < list[i].ranks.len()
                    ||| has_rank_from(after[i], #[trigger] after[i].ranks[k], finds)
                }
            &&& forall|i: int|
                0 <= i < after.len() ==> {
                    ||| i < list.len() && (#[trigger] after[i]).found == list[i].found
                    ||| finds.contains(after[i].found)
                }
        }),
    decreases n,
{
    let after = fused_all(list, finds, n);
    if n == 0 {
        assert forall|i: int| 0 <= i < list.len() implies list[i].ranks.is_prefix_of(
            (#[trigger] after[i]).ranks,
        ) by {
            assert(list[i].ranks.is_prefix_of(list[i].ranks));
        }
    } else {
        let before = fused_all(list, finds, (n - 1) as nat);
        let found = finds[n - 1];
        let rank = (n - 1) as usize;
        lemma_finds_are_candidates(list, finds, (n - 1) as nat);
        law_fusion_lists_places_once(before, rank, found);
        law_find_counts_once(before, rank, found);
        let key = written_place(found);
        lemma_place_of(before, key);
        let at = match place_of(before, key) {
            Some(i) => i,
            None => before.len() as int,
        };
        assert(after[at].ranks.last() == rank);
        assert(lists_rank(after[at], key, n - 1));
        assert forall|p: int| 0 <= p < n implies some_lists_rank(
            after,
            written_place(#[trigger] finds[p]),
            p,
        ) by {
            if p < n - 1 {
                let place = written_place(finds[p]);
                assert(some_lists_rank(before, place, p));
                let i = choose|i: int|
                    0 <= i < before.len() && lists_rank(#[trigger] before[i], place, p);
                let k = choose|k: int|
                    0 <= k < before[i].ranks.len() && before[i].ranks[k] == p as usize;
                assert(after[i].ranks[k] == before[i].ranks[k]);
                assert(lists_rank(after[i], place, p));
            }
        }
        assert forall|i: int| 0 <= i < list.len() implies (#[trigger] after[i]).key == list[i].key
            && list[i].ranks.is_prefix_of(after[i].ranks) by {
            assert(before[i].key == list[i].key);
            assert(before[i].ranks.is_prefix_of(after[i].ranks));
        }
        assert forall|i: int, k: int|
            0 <= i < after.len() && 0 <= k < after[i].ranks.len() implies {
            ||| i < list.len() && k < list[i].ranks.len()
            ||| has_rank_from(after[i], #[trigger] after[i].ranks[k], finds)
        } by {
            if i < before.len() && k < before[i].ranks.len() {
                assert(after[i].ranks[k] == before[i].ranks[k]);
                assert(after[i].key == before[i].key);
            } else {
                assert(after[i].ranks[k] == rank);
                assert(after[i].key == key);
            }
        }
        assert forall|i: int| 0 <= i < after.len() implies {
            ||| i < list.len() && (#[trigger] after[i]).found == list[i].found
            ||| finds.contains(after[i].found)
        } by {
            assert(finds.contains(found)) by {
                assert(finds[n - 1] == found);
            }
            if i < before.len() {
                assert(after[i].found == before[i].found || after[i].found == found);
            }
        }
    }
}

/// Every hit of the vector search is among the candidates and lists its place
/// among the hits. Whatever the hits are, so is every chunk of the whole corpus
/// that is among the best for the query, with its place in the ranking of the
/// corpus: the chunks that score, best first, equal ones in the order of the
/// corpus, as many as a retriever contributes. No candidate comes from
/// elsewhere, nor has a rank from elsewhere.
///
/// The scores that the function gives for the chunks of the corpus, and the
/// ranking, as places in the corpus, are returned.
pub proof fn law_hits_and_best_chunks_are_candidates<F: Fn(&DocumentCounts) -> u32>(
    score: F,
    query: Seq<char>,
    hits: Seq<FoundModel>,
    corpus: Seq<FoundModel>,
    candidates: Seq<CandidateModel>,
) -> (found: (Seq<u32>, Seq<int>))
    requires
        is_fusion(score, query, hits, corpus, candidates),
        hits.len() <= usize::MAX,
        corpus.len() <= usize::MAX,
    ensures
        ({
            let (scores, ranking) = found;
            let lists = Seq::new(corpus.len(), |i: int| terms_of(corpus[i].text));
            &&& terms_of(query).len() == 0 ==> ranking.len() == 0
            &&& terms_of(query).len() > 0 ==> {
                &&& scores.len() == corpus.len()
                &&& forall|d: int|
                    0 <= d < corpus.len() ==> scored_at(
                        score,
                        lists,
                        terms_of(query),
                        d,
                        #[trigger] scores[d],
                    )
                &&& forall|p: int| 0 <= p < ranking.len() ==> scores[#[trigger] ranking[p]] > 0
                &&& forall|p: int, q: int|
                    0 <= p < q < ranking.len() ==> {
                        ||| scores[#[trigger] ranking[p]] > scores[#[trigger] ranking[q]]
                        ||| scores[ranking[p]] == scores[ranking[q]] && ranking[p] < ranking[q]
                    }
                &&& forall|d: int|
                    0 <= d < corpus.len() && #[trigger] scores[d] > 0 && !ranking.contains(d) ==> {
                        &&& ranking.len() == CANDIDATES_PER_RETRIEVER
                        &&& forall|p: int|
                            0 <= p < ranking.len() ==> scores[#[trigger] ranking[p]] >= scores[d]
                    }
            }
            &&& ranking.len() <= CANDIDATES_PER_RETRIEVER
            &&& forall|p: int|
                0 <= p < ranking.len() ==> {
                    &&& 0 <= #[trigger] ranking[p] < corpus.len()
                    &&& some_lists_rank(candidates, written_place(corpus[ranking[p]]), p)
                }
            &&& forall|p: int|
                0 <= p < hits.len() ==> some_lists_rank(
                    candidates,
                    written_place(#[trigger] hits[p]),
                    p,
                )
            &&& forall|i: int|
                0 <= i < candidates.len() ==> {
                    ||| hits.contains((#[trigger] candidates[i]).found)
                    ||| exists|p: int|
                        0 <= p < ranking.len() && candidates[i].found
                            == corpus[#[trigger] ranking[p]]
                }
            &&& forall|i: int, k: int|
                0 <= i < candidates.len() && 0 <= k < candidates[i].ranks.len() ==> {
                    let rank = #[trigger] candidates[i].ranks[k];
                    ||| rank < hits.len() && written_place(hits[rank as int]) == candidates[i].key
                    ||| rank < ranking.len() && written_place(corpus[ranking[rank as int]])
                        == candidates[i].key
                }
        }),
{
    let documents = found_texts(corpus);
    let pairs = choose|pairs: Seq<(usize, u32)>| #[trigger]
        is_ranking(score, documents, query, CANDIDATES_PER_RETRIEVER as nat, pairs) && candidates
            == fused_all(
            fused_all(Seq::empty(), hits, hits.len()),
            ranked_finds(corpus, pairs),
            pairs.len(),
        );
    let ranking = pairs.map_values(|r: (usize, u32)| r.0 as int);
    let lists = Seq::new(corpus.len(), |i: int| terms_of(corpus[i].text));
    assert(corpus_terms_of(documents) == lists);
    let scores = if terms_of(query).len() == 0 {
        Seq::empty()
    } else {
        choose|scores: Seq<u32>| #[trigger]
            scored_by(score, corpus_terms_of(documents), terms_of(query), scores) && pairs == best(
                scores,
                CANDIDATES_PER_RETRIEVER as nat,
            )
    };
    if terms_of(query).len() > 0 {
        law_ranking_is_best_first(scores, CANDIDATES_PER_RETRIEVER as nat);
        assert forall|p: int| 0 <= p < ranking.len() implies 0 <= #[trigger] ranking[p]
            < corpus.len() && scores[ranking[p]] > 0 && scores[ranking[p]] == pairs[p].1 by {
            let m = pairs[p];
            assert(m.0 < scores.len());
        }
        assert forall|d: int|
            0 <= d < corpus.len() && #[trigger] scores[d] > 0 && !ranking.contains(d) implies {
            &&& ranking.len() == CANDIDATES_PER_RETRIEVER
            &&& forall|p: int| 0 <= p < ranking.len() ==> scores[#[trigger] ranking[p]] >= scores[d]
        } by {
            if pairs.contains((d as usize, scores[d])) {
                let p = choose|p: int| 0 <= p < pairs.len() && pairs[p] == (d as usize, scores[d]);
                assert(ranking[p] == d);
            }
            assert forall|p: int| 0 <= p < ranking.len() implies scores[#[trigger] ranking[p]]
                >= scores[d] by {
                assert(pairs[p].1 >= scores[d]);
            }
        }
        assert forall|p: int, q: int| 0 <= p < q < ranking.len() implies {
            ||| scores[#[trigger] ranking[p]] > scores[#[trigger] ranking[q]]
            ||| scores[ranking[p]] == scores[ranking[q]] && ranking[p] < ranking[q]
        } by {
            let a = pairs[p];
            let b = pairs[q];
        }
    }
    let finds = ranked_finds(corpus, pairs);
    let none = Seq::<CandidateModel>::empty();
    let first = fused_all(none, hits, hits.len());
    lemma_finds_are_candidates(none, hits, hits.len());
    lemma_finds_are_candidates(first, finds, finds.len());
    assert forall|p: int| 0 <= p < ranking.len() implies 0 <= #[trigger] ranking[p] < corpus.len()
        && some_lists_rank(candidates, written_place(corpus[ranking[p]]), p) by {
        assert(finds[p] == corpus[ranking[p]]);
    }
    assert forall|p: int| 0 <= p < hits.len() implies some_lists_rank(
        candidates,
        written_place(#[trigger] hits[p]),
        p,
    ) by {
        let place = written_place(hits[p]);
        assert(some_lists_rank(first, place, p));
        let i = choose|i: int| 0 <= i < first.len() && lists_rank(#[trigger] first[i], place, p);
        let k = choose|k: int| 0 <= k < first[i].ranks.len() && first[i].ranks[k] == p as usize;
        assert(candidates[i].ranks[k] == first[i].ranks[k]);
        assert(lists_rank(candidates[i], place, p));
    }
    assert forall|i: int| 0 <= i < candidates.len() implies {
        ||| hits.contains((#[trigger] candidates[i]).found)
        ||| exists|p: int|
            0 <= p < ranking.len() && candidates[i].found == corpus[#[trigger] ranking[p]]
    } by {
        if i < first.len() && candidates[i].found == first[i].found {
            assert(hits.contains(first[i].found));
        } else {
            let p = choose|p: int| 0 <= p < finds.len() && finds[p] == candidates[i].found;
            assert(finds[p] == corpus[ranking[p]]);
        }
    }
    assert forall|i: int, k: int|
        0 <= i < candidates.len() && 0 <= k < candidates[i].ranks.len() implies {
        let rank = #[trigger] candidates[i].ranks[k];
        ||| rank < hits.len() && written_place(hits[rank as int]) == candidates[i].key
        ||| rank < ranking.len() && written_place(corpus[ranking[rank as int]])
            == candidates[i].key
    } by {
        let rank = candidates[i].ranks[k];
        if i < first.len() && k < first[i].ranks.len() {
            assert(candidates[i].ranks[k] == first[i].ranks[k]);
            assert(has_rank_from(first[i], first[i].ranks[k], hits));
        } else {
            assert(has_rank_from(candidates[i], rank, finds));
            assert(finds[rank as int] == corpus[ranking[rank as int]]);
        }
    }
    (scores, ranking)
}

// ---------------------------------------------------------------------------
// The answer
// ---------------------------------------------------------------------------

/// The keys that put the highest score first.
pub open spec fn score_keys(scores: Seq<u32>) -> Seq<int> {
    scores.map_values(|s: u32| -(s as int))
}

/// The places of the highest scores, best first, equal ones in order, at most
/// `limit`.
pub open spec fn top_places(scores: Seq<u32>, limit: nat) -> Seq<int> {
    let order = stable_order(score_keys(scores));
    if order.len() <= limit {
        order
    } else {
        order.take(limit as int)
    }
}

/// The places of the highest scores, best first.
pub fn top(scores: &[u32], limit: usize) -> (places: Vec<usize>)
    ensures
        position_models(places@) == top_places(scores@, limit as nat),
        forall|i: int| 0 <= i < places@.len() ==> #[trigger] places@[i] < scores@.len(),
{
    let mut keys: Vec<i128> = Vec::new();
    let mut i: usize = 0;
    while i < scores.len()
        invariant
            i <= scores@.len(),
            keys@.len() == i,
            forall|k: int| 0 <= k < i ==> #[trigger] keys@[k] == -(scores@[k] as int),
        decreases scores@.len() - i,
    {
        keys.push(-(scores[i] as i128));
        i += 1;
    }
    assert(key_models(keys@) == score_keys(scores@));
    let mut places: Vec<usize> = order_by_key(keys.as_slice());
    let ghost order = stable_order(score_keys(scores@));
    proof {
        law_stable_order(score_keys(scores@));
        assert forall|k: int| 0 <= k < places@.len() implies #[trigger] places@[k]
            < scores@.len() by {
            assert(position_models(places@)[k] == places@[k]);
        }
    }
    if places.len() > limit {
        places.truncate(limit);
        assert(position_models(places@) == order.take(limit as int));
    }
    places
}

/// One result as it is shown, with the text of its score.
pub open spec fn result_words(found: FoundModel, score: Seq<char>) -> Seq<char> {
    "--- "@ + found.path + ":"@ + decimal(found.start_line as nat) + "-"@ + decimal(
        found.end_line as nat,
    ) + " (rrf "@ + score + ")\n"@ + found.text
}

/// The results at places, as they are shown.
pub open spec fn results_at(
    list: Seq<CandidateModel>,
    scores: Seq<Seq<char>>,
    places: Seq<int>,
) -> Seq<Seq<char>> {
    places.map_values(|p: int| result_words(list[p].found, scores[p]))
}

/// What a search answers, given the score of each candidate and its text.
pub open spec fn answer_words(
    list: Seq<CandidateModel>,
    scores: Seq<u32>,
    shown: Seq<Seq<char>>,
    limit: nat,
) -> Seq<char> {
    let places = top_places(scores, limit);
    if places.len() == 0 {
        "no results; has the project been indexed with `claus index`?"@
    } else {
        clipped(joined(results_at(list, shown, places), "\n\n"@), MAX_OUTPUT as nat)
    }
}

fn result_text(found: &Found, score: &str) -> (words: String)
    ensures
        words@ == result_words(found@, score@),
{
    let first: String = decimal_of(found.start_line);
    let last: String = decimal_of(found.end_line);
    "--- ".to_owned().concat(found.path.as_str()).concat(":").concat(first.as_str()).concat(
        "-",
    ).concat(last.as_str()).concat(" (rrf ").concat(score).concat(")\n").concat(
        found.text.as_str(),
    )
}

impl Fusion {
    /// What the search answers: the candidates with the highest scores, best
    /// first. A score is given as an integer that orders as it does, and as
    /// the text that is shown of it.
    pub fn answer(&self, scores: &[u32], shown: &[String], limit: usize) -> (output: String)
        requires
            scores@.len() == self@.len(),
            shown@.len() == self@.len(),
        ensures
            output@ == answer_words(self@, scores@, texts(shown@), limit as nat),
    {
        let places: Vec<usize> = top(scores, limit);
        let ghost at = top_places(scores@, limit as nat);
        assert(at.len() == places@.len());
        if places.len() == 0 {
            return "no results; has the project been indexed with `claus index`?".to_owned();
        }
        let mut results: Vec<String> = Vec::new();
        let mut i: usize = 0;
        while i < places.len()
            invariant
                i <= places@.len(),
                at == position_models(places@),
                scores@.len() == self@.len(),
                shown@.len() == self@.len(),
                forall|k: int| 0 <= k < places@.len() ==> #[trigger] places@[k] < scores@.len(),
                results@.len() == i,
                forall|k: int|
                    0 <= k < i ==> (#[trigger] results@[k])@ == result_words(
                        self@[at[k]].found,
                        texts(shown@)[at[k]],
                    ),
            decreases places@.len() - i,
        {
            let p: usize = places[i];
            assert(self@[at[i as int]] == self.candidates@[p as int]@);
            results.push(result_text(&self.candidates[p].found, shown[p].as_str()));
            i += 1;
        }
        assert(texts(results@) == results_at(self@, texts(shown@), at));
        clip(join(results.as_slice(), "\n\n"), MAX_OUTPUT)
    }
}

// ---------------------------------------------------------------------------
// The tool
// ---------------------------------------------------------------------------

/// Hybrid semantic + lexical search over the indexed codebase: vector search
/// and a local BM25 index, fused with reciprocal rank fusion.
#[derive(Clone, Copy, Debug)]
pub struct RagSearch;

/// What a call of [`RagSearch`] asks for.
#[derive(Debug)]
pub struct RagRequest {
    pub query: String,
    pub limit: usize,
}

impl RagSearch {
    /// What the model is told of the tool.
    pub open spec fn told() -> DefinitionModel {
        DefinitionModel {
            name: "rag_search"@,
            description: "Find code in this repository by meaning and keywords (hybrid vector + BM25 search over the indexed codebase). Use natural-language queries like 'where are HTTP retries handled'."@,
            input_schema: schema_model(
                seq![
                    parameter_model(
                        "query"@,
                        "string"@,
                        "Natural-language description of the code to find"@,
                    ),
                    parameter_model(
                        "limit"@,
                        "integer"@,
                        "Maximum number of results (default 8)"@,
                    ),
                ],
                seq!["query"@],
            ),
        }
    }

    /// The name of the tool.
    pub fn name(&self) -> (name: &'static str)
        ensures
            name@ == Self::told().name,
    {
        "rag_search"
    }

    /// What the tool does, for the model.
    pub fn description(&self) -> (text: &'static str)
        ensures
            text@ == Self::told().description,
    {
        "Find code in this repository by meaning and keywords (hybrid vector + BM25 search over the indexed codebase). Use natural-language queries like 'where are HTTP retries handled'."
    }

    /// What the model is told of the tool.
    pub fn definition(&self) -> (definition: ToolDefinition)
        ensures
            definition@ == Self::told(),
    {
        ToolDefinition {
            name: self.name().to_owned(),
            description: self.description().to_owned(),
            input_schema: self.input_schema(),
        }
    }

    /// What the tool takes, for the model.
    pub fn input_schema(&self) -> (document: Json)
        ensures
            document@ == Self::told().input_schema,
    {
        let parameters: [Parameter; 2] = [
            parameter("query", "string", "Natural-language description of the code to find"),
            parameter("limit", "integer", "Maximum number of results (default 8)"),
        ];
        let required: [&str; 1] = ["query"];
        let document: Json = schema(parameters.as_slice(), required.as_slice());
        assert(parameter_models(parameters@) == seq![
            parameter_model(
                "query"@,
                "string"@,
                "Natural-language description of the code to find"@,
            ),
            parameter_model("limit"@, "integer"@, "Maximum number of results (default 8)"@),
        ]);
        assert(slice_texts(required@) == seq!["query"@]);
        document
    }

    /// What a call asks for.
    pub fn request(&self, input: &Json) -> (res: Result<RagRequest, String>)
        ensures
            match res {
                Ok(request) => {
                    &&& as_text(at(input@, "query"@)) == Some(request.query@)
                    &&& request.limit == count_or(at(input@, "limit"@), DEFAULT_LIMIT) as usize
                },
                Err(error) => {
                    &&& as_text(at(input@, "query"@)) is None
                    &&& error@ == missing_words("query"@)
                },
            },
    {
        match required_str(input, "query") {
            Ok(query) => Ok(
                RagRequest {
                    query: query.to_owned(),
                    limit: count_or_at(input.get("limit"), DEFAULT_LIMIT) as usize,
                },
            ),
            Err(error) => Err(error),
        }
    }
}

/// A search answers with the candidates that score highest: as many as are
/// asked for or there are, best first, equal ones in order, and none is left
/// out that scores more than one that is shown.
pub proof fn law_highest_scores_come_first(scores: Seq<u32>, limit: nat)
    ensures
        ({
            let places = top_places(scores, limit);
            &&& places.len() == if scores.len() < limit {
                scores.len()
            } else {
                limit
            }
            &&& forall|i: int| 0 <= i < places.len() ==> 0 <= #[trigger] places[i] < scores.len()
            &&& forall|i: int, j: int|
                0 <= i < j < places.len() ==> {
                    ||| scores[#[trigger] places[i]] > scores[#[trigger] places[j]]
                    ||| scores[places[i]] == scores[places[j]] && places[i] < places[j]
                }
            &&& forall|p: int, i: int|
                0 <= p < scores.len() && !(#[trigger] places.contains(p)) && 0 <= i < places.len()
                    ==> scores[#[trigger] places[i]] >= scores[p]
        }),
{
    let keys = score_keys(scores);
    let order = stable_order(keys);
    let places = top_places(scores, limit);
    law_stable_order(keys);
    assert forall|i: int| 0 <= i < places.len() implies 0 <= #[trigger] places[i]
        < scores.len() by {
        assert(places[i] == order[i]);
    }
    assert forall|i: int, j: int| 0 <= i < j < places.len() implies {
        ||| scores[#[trigger] places[i]] > scores[#[trigger] places[j]]
        ||| scores[places[i]] == scores[places[j]] && places[i] < places[j]
    } by {
        assert(places[i] == order[i] && places[j] == order[j]);
        assert(comes_before(keys, order[i], order[j]));
        assert(0 <= order[i] < scores.len() && 0 <= order[j] < scores.len());
    }
    assert forall|p: int, i: int|
        0 <= p < scores.len() && !(#[trigger] places.contains(p)) && 0 <= i
            < places.len() implies scores[#[trigger] places[i]] >= scores[p] by {
        assert(order.contains(p));
        let k = choose|k: int| 0 <= k < order.len() && order[k] == p;
        if k < places.len() {
            assert(places[k] == p);
        }
        assert(places[i] == order[i]);
        assert(comes_before(keys, order[i], order[k]));
        assert(0 <= order[i] < scores.len());
    }
}

/// An answer that is not clipped shows each of these candidates in turn, with a
/// blank line between them: where it is, the text of its score, and its text.
/// Without candidates it says that there are none.
pub proof fn law_answer_shows_each_result(
    list: Seq<CandidateModel>,
    scores: Seq<u32>,
    shown: Seq<Seq<char>>,
    limit: nat,
)
    requires
        scores.len() == list.len(),
        shown.len() == list.len(),
    ensures
        ({
            let places = top_places(scores, limit);
            let results = Seq::new(
                places.len(),
                |i: int|
                    {
                        let found = list[places[i]].found;
                        "--- "@ + found.path + ":"@ + decimal(found.start_line as nat) + "-"@
                            + decimal(found.end_line as nat) + " (rrf "@ + shown[places[i]]
                            + ")\n"@ + found.text
                    },
            );
            &&& places.len() == 0 ==> answer_words(list, scores, shown, limit)
                == "no results; has the project been indexed with `claus index`?"@
            &&& places.len() > 0 && utf8_len(joined(results, "\n\n"@)) <= 30_000
                ==> answer_words(list, scores, shown, limit) == joined(results, "\n\n"@)
        }),
{
    let places = top_places(scores, limit);
    let results = Seq::new(
        places.len(),
        |i: int|
            {
                let found = list[places[i]].found;
                "--- "@ + found.path + ":"@ + decimal(found.start_line as nat) + "-"@ + decimal(
                    found.end_line as nat,
                ) + " (rrf "@ + shown[places[i]] + ")\n"@ + found.text
            },
    );
    assert(results_at(list, shown, places) == results);
}

/// A search looks at the whole corpus: whatever the hits of the vector search
/// are, every one of them is a candidate with its place among them, and every
/// chunk of the corpus that ranks for the query is one with its place in the
/// ranking. The places of these chunks in the corpus are returned, with the
/// scores that the ranking goes by.
pub proof fn law_search_finds_in_the_whole_corpus<F: Fn(&DocumentCounts) -> u32>(
    query: &str,
    hits: &[Found],
    corpus: &[Found],
    score: F,
    fusion: Fusion,
) -> (found: (Seq<u32>, Seq<int>))
    requires
        call_ensures(fuse_results, (query, hits, corpus, score), fusion),
        hits@.len() <= usize::MAX,
        corpus@.len() <= usize::MAX,
    ensures
        ({
            let (scores, ranking) = found;
            &&& forall|p: int|
                0 <= p < hits@.len() ==> some_lists_rank(
                    fusion@,
                    written_place((#[trigger] hits@[p])@),
                    p,
                )
            &&& forall|p: int|
                0 <= p < ranking.len() ==> {
                    &&& 0 <= #[trigger] ranking[p] < corpus@.len()
                    &&& some_lists_rank(fusion@, written_place(corpus@[ranking[p]]@), p)
                }
            &&& terms_of(query@).len() > 0 ==> {
                &&& scores.len() == corpus@.len()
                &&& forall|d: int|
                    0 <= d < corpus@.len() ==> scored_at(
                        score,
                        Seq::new(corpus@.len(), |i: int| terms_of(corpus@[i].text@)),
                        terms_of(query@),
                        d,
                        #[trigger] scores[d],
                    )
                &&& forall|d: int|
                    0 <= d < corpus@.len() && #[trigger] scores[d] > 0 && !ranking.contains(d)
                        ==> ranking.len() == 20 && forall|p: int|
                        0 <= p < ranking.len() ==> scores[#[trigger] ranking[p]] >= scores[d]
            }
        }),
{
    let found = law_hits_and_best_chunks_are_candidates(
        score,
        query@,
        found_models(hits@),
        found_models(corpus@),
        fusion@,
    );
    let (scores, ranking) = found;
    assert forall|p: int| 0 <= p < hits@.len() implies some_lists_rank(
        fusion@,
        written_place((#[trigger] hits@[p])@),
        p,
    ) by {
        assert(found_models(hits@)[p] == hits@[p]@);
    }
    assert forall|p: int| 0 <= p < ranking.len() implies 0 <= #[trigger] ranking[p]
        < corpus@.len() && some_lists_rank(fusion@, written_place(corpus@[ranking[p]]@), p) by {
        assert(found_models(corpus@)[ranking[p]] == corpus@[ranking[p]]@);
    }
    let lists = Seq::new(corpus@.len(), |i: int| terms_of(corpus@[i].text@));
    let same = Seq::new(corpus@.len(), |i: int| terms_of(found_models(corpus@)[i].text));
    assert(lists == same);
    found
}

/// What a search answers is clipped at thirty thousand bytes.
pub proof fn law_shown_results_are_clipped(
    list: Seq<CandidateModel>,
    scores: Seq<u32>,
    shown: Seq<Seq<char>>,
    limit: nat,
)
    requires
        top_places(scores, limit).len() > 0,
    ensures
        answer_words(list, scores, shown, limit) == clipped(
            joined(results_at(list, shown, top_places(scores, limit)), "\n\n"@),
            30_000,
        ),
{
}

/// A search takes the query of a call as it is, and shows eight results unless
/// the call says otherwise.
pub proof fn law_search_takes_its_query(
    tool: RagSearch,
    input: Json,
    res: Result<RagRequest, String>,
)
    requires
        call_ensures(RagSearch::request, (&tool, &input), res),
    ensures
        at(input@, "query"@) is Text <==> res is Ok,
        res matches Ok(request) ==> {
            &&& at(input@, "query"@) == JsonModel::Text(request.query@)
            &&& as_count(at(input@, "limit"@)) is None ==> request.limit == 8
            &&& as_count(at(input@, "limit"@)) matches Some(n) ==> (n <= usize::MAX
                ==> request.limit == n)
        },
{
}

/// A hit of the vector search is found with its place and its text as they are.
pub proof fn law_hits_are_found_as_they_are(hit: SearchHit, found: Found)
    requires
        call_ensures(Found::from_hit, (hit,), found),
    ensures
        found.path@ == hit.path@,
        found.start_line == hit.start_line,
        found.end_line == hit.end_line,
        found.text@ == hit.text@,
{
}

} // verus!
