//! Cutting source files into chunks: by top-level items where a grammar is at
//! hand, by windows of lines everywhere else.

use vstd::prelude::*;
use vstd::slice::*;
use vstd::string::*;

use crate::text::layout::{
    feed_pieces, law_joined_lines_part_again, law_lines_hold_no_feed, lines, lines_of,
};
use crate::text::number::{add_up, saturated};
use crate::text::{
    byte_len, join, joined, lemma_encode_concat, lemma_utf8_len_bounds, lemma_utf8_len_push,
    same_text, texts, utf8_len, utf8_width,
};

verus! {

broadcast use {
    vstd::string::group_string_axioms,
    vstd::seq_lib::group_seq_properties,
};

/// A contiguous piece of a source file, sized for embedding. Lines are 1-based.
#[derive(Debug)]
pub struct Chunk {
    pub text: String,
    pub start_line: usize,
    pub end_line: usize,
}

/// What a [`Chunk`] stands for.
pub ghost struct ChunkModel {
    pub text: Seq<char>,
    pub start_line: int,
    pub end_line: int,
}

impl View for Chunk {
    type V = ChunkModel;

    open spec fn view(&self) -> ChunkModel {
        ChunkModel {
            text: self.text@,
            start_line: self.start_line as int,
            end_line: self.end_line as int,
        }
    }
}

/// What a list of chunks stands for.
pub open spec fn chunk_models(chunks: Seq<Chunk>) -> Seq<ChunkModel> {
    chunks.map_values(|c: Chunk| c@)
}

impl Clone for Chunk {
    fn clone(&self) -> (res: Self)
        ensures
            res@ == self@,
    {
        Chunk { text: self.text.clone(), start_line: self.start_line, end_line: self.end_line }
    }
}

/// Target upper bound for one chunk; small adjacent items are grouped up to
/// this.
pub const MAX_CHUNK_CHARS: usize = 3000;

/// Fallback window for files without a tree-sitter grammar.
pub const WINDOW_LINES: usize = 80;

/// How many lines two windows in a row have in common.
pub const WINDOW_OVERLAP: usize = 10;

// ---------------------------------------------------------------------------
// Rows and chunks
// ---------------------------------------------------------------------------

/// The chunk that holds the rows of a range, from its first to its last.
pub open spec fn chunk_at(source: Seq<Seq<char>>, range: (int, int)) -> ChunkModel {
    ChunkModel {
        text: joined(source.subrange(range.0, range.1 + 1), "\n"@),
        start_line: range.0 + 1,
        end_line: range.1 + 1,
    }
}

/// The chunks that hold the rows of ranges.
pub open spec fn chunks_at(source: Seq<Seq<char>>, ranges: Seq<(int, int)>) -> Seq<ChunkModel> {
    ranges.map_values(|r: (int, int)| chunk_at(source, r))
}

/// The size of the rows from `first` to `last`: their bytes, and one more for
/// each.
pub open spec fn span_size(source: Seq<Seq<char>>, first: int, last: int) -> nat
    decreases last - first + 1,
{
    if last < first {
        0
    } else {
        span_size(source, first, last - 1) + utf8_len(source[last]) + 1
    }
}

/// A row, or the last one of the source where it has none there.
pub open spec fn clamped(source: Seq<Seq<char>>, row: int) -> int {
    if row < source.len() {
        row
    } else {
        source.len() - 1
    }
}

/// Windows over the rows from `row` to `last`: each of the full length but the
/// last, each beginning with the final lines of the one before it.
pub open spec fn windows(row: int, last: int) -> Seq<(int, int)>
    decreases last - row + 1,
{
    if row > last {
        Seq::empty()
    } else if last < row + WINDOW_LINES {
        seq![(row, last)]
    } else {
        seq![(row, row + WINDOW_LINES - 1)] + windows(row + WINDOW_LINES - WINDOW_OVERLAP, last)
    }
}

/// The ranges for a span: the span itself, or windows over it where it is too
/// large for one chunk.
pub open spec fn span_ranges(source: Seq<Seq<char>>, first: int, last: int) -> Seq<(int, int)> {
    let end = clamped(source, last);
    if span_size(source, first, end) <= MAX_CHUNK_CHARS {
        seq![(first, end)]
    } else {
        windows(first, end)
    }
}

/// Windows leave no row out: the first begins where the rows begin, the last
/// ends where they end, and each begins with the final lines of the one before
/// it, so that no boundary context is lost.
pub proof fn law_windows_cover_with_overlap(row: int, last: int)
    requires
        row <= last,
    ensures
        ({
            let all = windows(row, last);
            &&& all.len() > 0
            &&& all[0].0 == row
            &&& all.last().1 == last
            &&& forall|i: int|
                0 <= i < all.len() ==> {
                    &&& row <= (#[trigger] all[i]).0 <= all[i].1 <= last
                    &&& all[i].1 - all[i].0 < WINDOW_LINES
                }
            &&& forall|i: int|
                0 <= i < all.len() - 1 ==> all[i + 1].0 == (#[trigger] all[i]).1 + 1
                    - WINDOW_OVERLAP
        }),
    decreases last - row,
{
    let all = windows(row, last);
    if last >= row + WINDOW_LINES {
        let next = row + WINDOW_LINES - WINDOW_OVERLAP;
        law_windows_cover_with_overlap(next, last);
        let rest = windows(next, last);
        assert(all == seq![(row, row + WINDOW_LINES - 1)] + rest);
        assert(all.last() == rest.last());
        assert forall|i: int| 0 <= i < all.len() implies {
            &&& row <= (#[trigger] all[i]).0 <= all[i].1 <= last
            &&& all[i].1 - all[i].0 < WINDOW_LINES
        } by {
            if i > 0 {
                assert(all[i] == rest[i - 1]);
            }
        }
        assert forall|i: int| 0 <= i < all.len() - 1 implies all[i + 1].0 == (
        #[trigger] all[i]).1 + 1 - WINDOW_OVERLAP by {
            assert(all[i + 1] == rest[i]);
            if i > 0 {
                assert(all[i] == rest[i - 1]);
            }
        }
    }
}

/// The rows of a source, as a list of lines gives them.
fn make_chunk(source: &[String], start: usize, end: usize) -> (chunk: Chunk)
    requires
        end < source@.len(),
        start <= end + 1,
        start < usize::MAX,
    ensures
        chunk@ == chunk_at(texts(source@), (start as int, end as int)),
{
    let count: usize = source.len();
    let rows: &[String] = slice_subrange(source, start, end + 1);
    assert(end < count);
    assert(texts(rows@) == texts(source@).subrange(start as int, end + 1));
    Chunk { text: join(rows, "\n"), start_line: start + 1, end_line: end + 1 }
}

/// The size of the rows from `start` to `end`, or to the last row.
fn span_chars(source: &[String], start: usize, end: usize) -> (size: usize)
    requires
        source@.len() > 0,
        start <= clamped(texts(source@), end as int) + 1,
    ensures
        size == saturated(
            span_size(texts(source@), start as int, clamped(texts(source@), end as int)),
        ),
{
    let ghost all = texts(source@);
    let ghost last = clamped(all, end as int);
    let count: usize = source.len();
    let mut total: usize = 0;
    let mut row: usize = start;
    while row < count && row <= end
        invariant
            count == source@.len(),
            all == texts(source@),
            last == clamped(all, end as int),
            0 <= last < count,
            start <= row <= last + 1,
            total == saturated(span_size(all, start as int, row - 1)),
        decreases last + 1 - row,
    {
        total = add_up(total, byte_len(source[row].as_str()));
        total = add_up(total, 1);
        row += 1;
    }
    total
}

/// Adds windows over the rows from `start` to `end`.
fn push_windows(chunks: &mut Vec<Chunk>, source: &[String], start: usize, end: usize)
    requires
        start <= end < source@.len(),
    ensures
        chunk_models(final(chunks)@) == chunk_models(old(chunks)@) + chunks_at(
            texts(source@),
            windows(start as int, end as int),
        ),
{
    let ghost all = texts(source@);
    let ghost wanted = chunks_at(all, windows(start as int, end as int));
    let ghost given = chunk_models(chunks@);
    let count: usize = source.len();
    let mut row: usize = start;
    loop
        invariant
            start <= row <= end,
            end < count,
            count == source@.len(),
            all == texts(source@),
            given == chunk_models(old(chunks)@),
            wanted == chunks_at(all, windows(start as int, end as int)),
            chunk_models(chunks@) + chunks_at(all, windows(row as int, end as int)) == given
                + wanted,
        decreases end - row,
    {
        let ghost before = chunk_models(chunks@);
        let full: bool = end - row >= WINDOW_LINES;
        let window_end: usize = if full {
            row + (WINDOW_LINES - 1)
        } else {
            end
        };
        let chunk: Chunk = make_chunk(source, row, window_end);
        let ghost here = (row as int, window_end as int);
        chunks.push(chunk);
        assert(chunk_models(chunks@) == before.push(chunk_at(all, here)));
        if !full {
            assert(chunks_at(all, seq![here]) == seq![chunk_at(all, here)]);
            assert(before.push(chunk_at(all, here)) == before + seq![chunk_at(all, here)]);
            return;
        }
        let ghost rest = windows(row + WINDOW_LINES - WINDOW_OVERLAP, end as int);
        assert(chunks_at(all, seq![here] + rest) == seq![chunk_at(all, here)] + chunks_at(
            all,
            rest,
        ));
        assert(before + (seq![chunk_at(all, here)] + chunks_at(all, rest)) == before.push(
            chunk_at(all, here),
        ) + chunks_at(all, rest));
        row = row + (WINDOW_LINES - WINDOW_OVERLAP);
    }
}

/// Append the span as one chunk, splitting into line windows when oversized.
fn push_span(chunks: &mut Vec<Chunk>, source: &[String], start: usize, end: usize)
    requires
        source@.len() > 0,
        start <= clamped(texts(source@), end as int) + 1,
        start < usize::MAX,
    ensures
        chunk_models(final(chunks)@) == chunk_models(old(chunks)@) + chunks_at(
            texts(source@),
            span_ranges(texts(source@), start as int, end as int),
        ),
{
    let ghost all = texts(source@);
    let end: usize = if end < source.len() {
        end
    } else {
        source.len() - 1
    };
    if span_chars(source, start, end) <= MAX_CHUNK_CHARS {
        let ghost before = chunk_models(chunks@);
        let ghost here = (start as int, end as int);
        let chunk: Chunk = make_chunk(source, start, end);
        chunks.push(chunk);
        assert(chunk_models(chunks@) == before.push(chunk_at(all, here)));
        assert(chunks_at(all, seq![here]) == seq![chunk_at(all, here)]);
    } else {
        push_windows(chunks, source, start, end);
    }
}

// ---------------------------------------------------------------------------
// Windows over a whole file
// ---------------------------------------------------------------------------

/// The chunks of a file without a grammar: windows over all its lines.
pub open spec fn window_chunks(source: Seq<Seq<char>>) -> Seq<ChunkModel> {
    chunks_at(source, windows(0, source.len() - 1))
}

/// Cuts a file into windows of lines.
pub fn chunk_windows(source: &str) -> (chunks: Vec<Chunk>)
    ensures
        chunk_models(chunks@) == window_chunks(lines_of(source@)),
{
    let rows: Vec<String> = lines(source);
    let mut chunks: Vec<Chunk> = Vec::new();
    assert(chunk_models(chunks@) == Seq::<ChunkModel>::empty());
    if rows.len() > 0 {
        let last: usize = rows.len() - 1;
        push_windows(&mut chunks, rows.as_slice(), 0, last);
        assert(Seq::<ChunkModel>::empty() + window_chunks(texts(rows@)) == window_chunks(
            texts(rows@),
        ));
    } else {
        assert(window_chunks(texts(rows@)) == Seq::<ChunkModel>::empty());
    }
    chunks
}

// ---------------------------------------------------------------------------
// Grouping items
// ---------------------------------------------------------------------------

/// The ranges that are settled, and the group that may still grow.
pub ghost struct Grouping {
    pub ranges: Seq<(int, int)>,
    pub group: Option<(int, int)>,
}

/// A grouping whose group is settled.
pub open spec fn settled(source: Seq<Seq<char>>, g: Grouping) -> Grouping {
    match g.group {
        Some((first, last)) => Grouping {
            ranges: g.ranges + span_ranges(source, first, last),
            group: None,
        },
        None => g,
    }
}

/// A grouping after one more item: the item joins the group where both fit in
/// one chunk, else the group is settled and the item starts another.
pub open spec fn with_item(source: Seq<Seq<char>>, g: Grouping, item: (int, int)) -> Grouping {
    match g.group {
        Some((first, last)) => if span_size(source, first, clamped(source, item.1))
            <= MAX_CHUNK_CHARS {
            Grouping {
                ranges: g.ranges,
                group: Some(
                    (
                        first,
                        if last < item.1 {
                            item.1
                        } else {
                            last
                        },
                    ),
                ),
            }
        } else {
            Grouping { ranges: settled(source, g).ranges, group: Some(item) }
        },
        None => Grouping { ranges: g.ranges, group: Some(item) },
    }
}

/// A grouping whose group is settled if it is too large for one chunk.
pub open spec fn without_oversized(source: Seq<Seq<char>>, g: Grouping) -> Grouping {
    match g.group {
        Some((first, last)) => if span_size(source, first, clamped(source, last))
            > MAX_CHUNK_CHARS {
            settled(source, g)
        } else {
            g
        },
        None => g,
    }
}

/// The grouping of items, in order.
pub open spec fn grouping(source: Seq<Seq<char>>, items: Seq<(int, int)>) -> Grouping
    decreases items.len(),
{
    if items.len() == 0 {
        Grouping { ranges: Seq::empty(), group: None }
    } else {
        without_oversized(
            source,
            with_item(source, grouping(source, items.drop_last()), items.last()),
        )
    }
}

/// The ranges that items are grouped into.
pub open spec fn item_ranges(source: Seq<Seq<char>>, items: Seq<(int, int)>) -> Seq<(int, int)> {
    settled(source, grouping(source, items)).ranges
}

/// The items of a source as pairs of rows.
pub open spec fn row_models(items: Seq<(usize, usize)>) -> Seq<(int, int)> {
    items.map_values(|i: (usize, usize)| (i.0 as int, i.1 as int))
}

/// Whether items lie within a source of `count` lines, in order of their first
/// rows. An item may begin right after the last line.
pub open spec fn items_fit(count: nat, items: Seq<(usize, usize)>) -> bool {
    &&& items.len() > 0 ==> 0 < count < usize::MAX
    &&& forall|i: int|
        0 <= i < items.len() ==> (#[trigger] items[i]).0 <= items[i].1 && items[i].0 <= count
    &&& forall|i: int, j: int|
        0 <= i < j < items.len() ==> (#[trigger] items[i]).0 <= (#[trigger] items[j]).0
}

/// Cuts a source into chunks along its items.
pub fn chunk_items(source: &[String], items: &[(usize, usize)]) -> (chunks: Vec<Chunk>)
    requires
        items_fit(source@.len(), items@),
    ensures
        chunk_models(chunks@) == chunks_at(
            texts(source@),
            item_ranges(texts(source@), row_models(items@)),
        ),
{
    let ghost all = texts(source@);
    let ghost rows = row_models(items@);
    let mut chunks: Vec<Chunk> = Vec::new();
    let mut group: Option<(usize, usize)> = None;
    let mut i: usize = 0;
    assert(rows.take(0) == Seq::<(int, int)>::empty());
    assert(chunk_models(chunks@) == chunks_at(all, grouping(all, rows.take(0)).ranges));
    while i < items.len()
        invariant
            i <= items@.len(),
            all == texts(source@),
            rows == row_models(items@),
            items_fit(source@.len(), items@),
            group matches Some((first, last)) ==> {
                &&& first <= last
                &&& first <= source@.len()
                &&& forall|k: int| i <= k < items@.len() ==> first <= (#[trigger] items@[k]).0
                &&& grouping(all, rows.take(i as int)).group == Some((first as int, last as int))
            },
            group is None ==> grouping(all, rows.take(i as int)).group is None,
            chunk_models(chunks@) == chunks_at(all, grouping(all, rows.take(i as int)).ranges),
        decreases items@.len() - i,
    {
        let ghost g = grouping(all, rows.take(i as int));
        assert(rows.take(i + 1).drop_last() == rows.take(i as int));
        assert(rows.take(i + 1).last() == rows[i as int]);
        let ghost item = rows[i as int];
        let ghost next = with_item(all, g, item);
        let (start, end): (usize, usize) = items[i];
        match group {
            Some((first, last)) => {
                if span_chars(source, first, end) <= MAX_CHUNK_CHARS {
                    group = Some(
                        (
                            first,
                            if last < end {
                                end
                            } else {
                                last
                            },
                        ),
                    );
                } else {
                    push_span(&mut chunks, source, first, last);
                    assert(chunks_at(all, g.ranges + span_ranges(all, first as int, last as int))
                        == chunks_at(all, g.ranges) + chunks_at(
                        all,
                        span_ranges(all, first as int, last as int),
                    ));
                    group = Some((start, end));
                }
            },
            None => {
                group = Some((start, end));
            },
        }
        assert(chunk_models(chunks@) == chunks_at(all, next.ranges));
        // A single oversized item becomes its own (possibly split) chunk.
        if let Some((first, last)) = group {
            assert(next.group == Some((first as int, last as int)));
            if span_chars(source, first, last) > MAX_CHUNK_CHARS {
                push_span(&mut chunks, source, first, last);
                assert(chunks_at(all, next.ranges + span_ranges(all, first as int, last as int))
                    == chunks_at(all, next.ranges) + chunks_at(
                    all,
                    span_ranges(all, first as int, last as int),
                ));
                group = None;
            }
        }
        i += 1;
    }
    assert(rows.take(i as int) == rows);
    let ghost g = grouping(all, rows);
    if let Some((first, last)) = group {
        push_span(&mut chunks, source, first, last);
        assert(chunks_at(all, g.ranges + span_ranges(all, first as int, last as int)) == chunks_at(
            all,
            g.ranges,
        ) + chunks_at(all, span_ranges(all, first as int, last as int)));
    }
    chunks
}

// ---------------------------------------------------------------------------
// What grouping keeps
// ---------------------------------------------------------------------------

/// Whether one of the ranges holds a row.
pub open spec fn covered(ranges: Seq<(int, int)>, row: int) -> bool {
    exists|i: int| 0 <= i < ranges.len() && (#[trigger] ranges[i]).0 <= row <= ranges[i].1
}

/// Whether a range makes a chunk of a good size: within the target, or a
/// window at most.
pub open spec fn sized(source: Seq<Seq<char>>, range: (int, int)) -> bool {
    ||| span_size(source, range.0, range.1) <= MAX_CHUNK_CHARS
    ||| range.1 - range.0 < WINDOW_LINES
}

proof fn lemma_covered_concat(a: Seq<(int, int)>, b: Seq<(int, int)>, row: int)
    ensures
        covered(a, row) || covered(b, row) ==> covered(a + b, row),
{
    if covered(a, row) {
        let i = choose|i: int| 0 <= i < a.len() && (#[trigger] a[i]).0 <= row <= a[i].1;
        assert((a + b)[i] == a[i]);
    }
    if covered(b, row) {
        let i = choose|i: int| 0 <= i < b.len() && (#[trigger] b[i]).0 <= row <= b[i].1;
        assert((a + b)[a.len() + i] == b[i]);
    }
}

proof fn lemma_windows_cover_row(row: int, last: int, wanted: int)
    requires
        row <= wanted <= last,
    ensures
        covered(windows(row, last), wanted),
    decreases last - row,
{
    let all = windows(row, last);
    if last < row + WINDOW_LINES {
        assert(all[0] == (row, last));
    } else if wanted <= row + WINDOW_LINES - 1 {
        assert(all[0] == (row, row + WINDOW_LINES - 1));
    } else {
        let next = row + WINDOW_LINES - WINDOW_OVERLAP;
        lemma_windows_cover_row(next, last, wanted);
        lemma_covered_concat(
            seq![(row, row + WINDOW_LINES - 1)],
            windows(next, last),
            wanted,
        );
    }
}

proof fn lemma_span_ranges(source: Seq<Seq<char>>, first: int, last: int)
    requires
        source.len() > 0,
        0 <= first <= clamped(source, last) + 1,
    ensures
        forall|row: int|
            first <= row <= clamped(source, last) ==> #[trigger] covered(
                span_ranges(source, first, last),
                row,
            ),
        forall|i: int|
            0 <= i < span_ranges(source, first, last).len() ==> sized(
                source,
                #[trigger] span_ranges(source, first, last)[i],
            ),
{
    let end = clamped(source, last);
    let ranges = span_ranges(source, first, last);
    assert forall|row: int| first <= row <= end implies #[trigger] covered(ranges, row) by {
        if span_size(source, first, end) <= MAX_CHUNK_CHARS {
            assert(ranges[0] == (first, end));
        } else {
            lemma_windows_cover_row(first, end, row);
        }
    }
    if span_size(source, first, end) > MAX_CHUNK_CHARS {
        law_windows_cover_with_overlap(first, end);
    }
}

/// Whether a grouping holds a row, in its ranges or in its group.
spec fn held(source: Seq<Seq<char>>, g: Grouping, row: int) -> bool {
    covered(g.ranges, row) || (g.group matches Some((first, last)) && first <= row <= clamped(
        source,
        last,
    ))
}

proof fn lemma_settled(source: Seq<Seq<char>>, g: Grouping)
    requires
        source.len() > 0,
        g.group matches Some((first, last)) ==> 0 <= first <= clamped(source, last) + 1,
        forall|i: int| 0 <= i < g.ranges.len() ==> sized(source, #[trigger] g.ranges[i]),
    ensures
        forall|row: int|
            held(source, g, row) ==> #[trigger] covered(settled(source, g).ranges, row),
        forall|i: int|
            0 <= i < settled(source, g).ranges.len() ==> sized(
                source,
                #[trigger] settled(source, g).ranges[i],
            ),
{
    if let Some((first, last)) = g.group {
        lemma_span_ranges(source, first, last);
        let more = span_ranges(source, first, last);
        let after = settled(source, g).ranges;
        assert forall|row: int| held(source, g, row) implies #[trigger] covered(after, row) by {
            lemma_covered_concat(g.ranges, more, row);
        }
        assert forall|i: int| 0 <= i < after.len() implies sized(source, #[trigger] after[i]) by {
            if i >= g.ranges.len() {
                assert(after[i] == more[i - g.ranges.len()]);
            }
        }
    }
}

proof fn lemma_grouping(source: Seq<Seq<char>>, items: Seq<(usize, usize)>)
    requires
        items_fit(source.len(), items),
        items.len() > 0,
    ensures
        ({
            let g = grouping(source, row_models(items));
            &&& g.group matches Some((first, last)) ==> {
                &&& 0 <= first <= items.last().0
                &&& first <= last
                &&& first <= source.len()
            }
            &&& forall|i: int| 0 <= i < g.ranges.len() ==> sized(source, #[trigger] g.ranges[i])
            &&& forall|k: int, row: int|
                #![trigger items[k], held(source, g, row)]
                0 <= k < items.len() && items[k].0 <= row <= clamped(source, items[k].1 as int)
                    ==> held(source, g, row)
        }),
    decreases items.len(),
{
    let rows = row_models(items);
    let front = items.drop_last();
    assert(row_models(front) == rows.drop_last());
    let before = grouping(source, rows.drop_last());
    let item = rows.last();
    assert(items[items.len() - 1] == items.last());
    assert(items_fit(source.len(), front)) by {
        assert forall|i: int| 0 <= i < front.len() implies (#[trigger] front[i]).0 <= front[i].1
            && front[i].0 <= source.len() by {
            assert(front[i] == items[i]);
        }
        assert forall|i: int, j: int| 0 <= i < j < front.len() implies (#[trigger] front[i]).0 <= (
        #[trigger] front[j]).0 by {
            assert(front[i] == items[i] && front[j] == items[j]);
        }
    }
    if front.len() > 0 {
        lemma_grouping(source, front);
        assert(items[front.len() - 1] == front.last());
    }
    lemma_settled(source, before);
    let joined_group = with_item(source, before, item);
    let after = without_oversized(source, joined_group);
    assert forall|i: int| 0 <= i < joined_group.ranges.len() implies sized(
        source,
        #[trigger] joined_group.ranges[i],
    ) by {}
    lemma_settled(source, joined_group);
    assert forall|k: int, row: int|
        #![trigger items[k], held(source, after, row)]
        0 <= k < items.len() && items[k].0 <= row <= clamped(
            source,
            items[k].1 as int,
        ) implies held(source, after, row) by {
        if k < front.len() {
            assert(front[k] == items[k]);
            assert(held(source, before, row));
        }
        assert(held(source, joined_group, row));
        if held(source, joined_group, row) {
            assert(covered(settled(source, joined_group).ranges, row));
        }
    }
}

/// Grouping loses nothing: every row of every item is in a chunk. A chunk is
/// within the target size, or one window at most.
pub proof fn law_items_are_covered(source: Seq<Seq<char>>, items: Seq<(usize, usize)>)
    requires
        items_fit(source.len(), items),
    ensures
        forall|k: int, row: int|
            #![trigger items[k], covered(item_ranges(source, row_models(items)), row)]
            0 <= k < items.len() && items[k].0 <= row <= clamped(source, items[k].1 as int)
                ==> covered(item_ranges(source, row_models(items)), row),
        forall|i: int|
            0 <= i < item_ranges(source, row_models(items)).len() ==> sized(
                source,
                #[trigger] item_ranges(source, row_models(items))[i],
            ),
{
    let g = grouping(source, row_models(items));
    if items.len() > 0 {
        lemma_grouping(source, items);
        lemma_settled(source, g);
        assert forall|k: int, row: int|
            #![trigger items[k], covered(item_ranges(source, row_models(items)), row)]
            0 <= k < items.len() && items[k].0 <= row <= clamped(
                source,
                items[k].1 as int,
            ) implies covered(item_ranges(source, row_models(items)), row) by {
            assert(held(source, g, row));
        }
    }
}

// ---------------------------------------------------------------------------
// Files
// ---------------------------------------------------------------------------

/// The first and last row of each named child of the root that `tree_sitter`
/// finds with the Rust grammar; nothing where it does not parse.
pub uninterp spec fn rust_items(source: Seq<char>) -> Option<Seq<(usize, usize)>>;

/// The first and last row of each named child of the root that `tree_sitter`
/// finds with the Python grammar; nothing where it does not parse.
pub uninterp spec fn python_items(source: Seq<char>) -> Option<Seq<(usize, usize)>>;

/// What an optional list of rows stands for.
pub open spec fn optional_rows(rows: Option<Vec<(usize, usize)>>) -> Option<Seq<(usize, usize)>> {
    match rows {
        Some(list) => Some(list@),
        None => None,
    }
}

/// `tree_sitter::Parser::parse` with `tree_sitter_rust::LANGUAGE`: the rows of
/// the named children of the root node, nothing where the language or the
/// source is not taken. The rows are those that the name stands for; that they
/// lie within the source is not claimed.
#[verifier::external_body]
fn rust_rows(source: &str) -> (rows: Option<Vec<(usize, usize)>>)
    ensures
        optional_rows(rows) == rust_items(source@),
{
    let mut parser = tree_sitter::Parser::new();
    parser.set_language(&tree_sitter_rust::LANGUAGE.into()).ok()?;
    let tree = parser.parse(source, None)?;
    let root = tree.root_node();
    let mut cursor = root.walk();
    let children = root.named_children(&mut cursor);
    Some(children.map(|n| (n.start_position().row, n.end_position().row)).collect())
}

/// `tree_sitter::Parser::parse` with `tree_sitter_python::LANGUAGE`: the rows
/// of the named children of the root node, nothing where the language or the
/// source is not taken. The rows are those that the name stands for; that they
/// lie within the source is not claimed.
#[verifier::external_body]
fn python_rows(source: &str) -> (rows: Option<Vec<(usize, usize)>>)
    ensures
        optional_rows(rows) == python_items(source@),
{
    let mut parser = tree_sitter::Parser::new();
    parser.set_language(&tree_sitter_python::LANGUAGE.into()).ok()?;
    let tree = parser.parse(source, None)?;
    let root = tree.root_node();
    let mut cursor = root.walk();
    let children = root.named_children(&mut cursor);
    Some(children.map(|n| (n.start_position().row, n.end_position().row)).collect())
}

/// The items of a source in the language of an extension, where there is a
/// grammar for it.
pub open spec fn source_items(extension: Seq<char>, source: Seq<char>) -> Option<
    Seq<(usize, usize)>,
> {
    if extension == "rs"@ {
        rust_items(source)
    } else if extension == "py"@ {
        python_items(source)
    } else {
        None
    }
}

/// Whether the items of a source, if there are any, lie within it.
pub open spec fn rows_fit(source: Seq<char>, rows: Option<Seq<(usize, usize)>>) -> bool {
    match rows {
        Some(items) => items_fit(lines_of(source).len(), items),
        None => true,
    }
}

/// The chunks of a source, given its items: along the items where they are
/// known, else windows.
pub open spec fn source_chunks(source: Seq<char>, rows: Option<Seq<(usize, usize)>>) -> Seq<
    ChunkModel,
> {
    match rows {
        Some(items) => chunks_at(
            lines_of(source),
            item_ranges(lines_of(source), row_models(items)),
        ),
        None => window_chunks(lines_of(source)),
    }
}

/// Cuts a source into chunks, given its items.
pub fn chunk_by_rows(source: &str, rows: Option<Vec<(usize, usize)>>) -> (chunks: Vec<Chunk>)
    requires
        rows_fit(source@, optional_rows(rows)),
    ensures
        chunk_models(chunks@) == source_chunks(source@, optional_rows(rows)),
{
    match rows {
        Some(items) => {
            let source_lines: Vec<String> = lines(source);
            chunk_items(source_lines.as_slice(), items.as_slice())
        },
        None => chunk_windows(source),
    }
}

/// The items of a source in the language of an extension.
fn item_rows(extension: &str, source: &str) -> (rows: Option<Vec<(usize, usize)>>)
    ensures
        optional_rows(rows) == source_items(extension@, source@),
{
    if same_text(extension, "rs") {
        rust_rows(source)
    } else if same_text(extension, "py") {
        python_rows(source)
    } else {
        None
    }
}

/// Whether the items of a source lie within it.
fn check_rows(source: &str, rows: &Option<Vec<(usize, usize)>>) -> (fit: bool)
    ensures
        fit == rows_fit(source@, optional_rows(*rows)),
{
    match rows {
        Some(items) => {
            let source_lines: Vec<String> = lines(source);
            let count: usize = source_lines.len();
            assert(texts(source_lines@).len() == count);
            if items.len() > 0 && (count == 0 || count == usize::MAX) {
                return false;
            }
            let mut i: usize = 0;
            while i < items.len()
                invariant
                    i <= items@.len(),
                    optional_rows(*rows) == Some(items@),
                    count == lines_of(source@).len(),
                    items@.len() > 0 ==> 0 < count < usize::MAX,
                    forall|k: int|
                        0 <= k < i ==> (#[trigger] items@[k]).0 <= items@[k].1 && items@[k].0
                            <= count,
                    forall|j: int, k: int|
                        0 <= j < k < i ==> (#[trigger] items@[j]).0 <= (#[trigger] items@[k]).0,
                decreases items@.len() - i,
            {
                let item: (usize, usize) = items[i];
                if item.0 > item.1 || item.0 > count {
                    return false;
                }
                if i > 0 && items[i - 1].0 > item.0 {
                    return false;
                }
                i += 1;
            }
            true
        },
        None => true,
    }
}

/// Split a source file into chunks: syntax-aware (top-level items) for Rust and
/// Python, fixed line windows for everything else.
pub fn chunk_source(extension: &str, source: &str) -> (chunks: Vec<Chunk>)
    requires
        rows_fit(source@, source_items(extension@, source@)),
    ensures
        chunk_models(chunks@) == source_chunks(source@, source_items(extension@, source@)),
{
    let rows: Option<Vec<(usize, usize)>> = item_rows(extension, source);
    chunk_by_rows(source, rows)
}

/// Split a source file into chunks, unless an item does not lie within it.
pub fn try_chunk_source(extension: &str, source: &str) -> (chunks: Option<Vec<Chunk>>)
    ensures
        match chunks {
            Some(list) => {
                &&& rows_fit(source@, source_items(extension@, source@))
                &&& chunk_models(list@) == source_chunks(
                    source@,
                    source_items(extension@, source@),
                )
            },
            None => !rows_fit(source@, source_items(extension@, source@)),
        },
{
    let rows: Option<Vec<(usize, usize)>> = item_rows(extension, source);
    if check_rows(source, &rows) {
        Some(chunk_by_rows(source, rows))
    } else {
        None
    }
}

// ---------------------------------------------------------------------------
// What the chunks of a file hold
// ---------------------------------------------------------------------------

/// The text of a chunk holds each of its lines: parted at the line feeds it
/// gives the lines of the source from its first to its last, all of them and no
/// other.
pub proof fn law_chunk_text_holds_its_lines(source: Seq<Seq<char>>, range: (int, int))
    requires
        0 <= range.0 <= range.1 < source.len(),
        forall|k: int| 0 <= k < source.len() ==> !(#[trigger] source[k]).contains('\n'),
    ensures
        ({
            let chunk = chunk_at(source, range);
            &&& chunk.start_line == range.0 + 1
            &&& chunk.end_line == range.1 + 1
            &&& feed_pieces(chunk.text) == source.subrange(chunk.start_line - 1, chunk.end_line)
        }),
{
    let lines = source.subrange(range.0, range.1 + 1);
    assert forall|k: int| 0 <= k < lines.len() implies !(#[trigger] lines[k]).contains('\n') by {
        assert(lines[k] == source[range.0 + k]);
    }
    law_joined_lines_part_again(lines);
}

/// The size of rows is the byte length of the text that they make as a chunk,
/// and one more.
pub proof fn law_span_size_is_that_of_the_text(source: Seq<Seq<char>>, first: int, last: int)
    requires
        0 <= first <= last < source.len(),
    ensures
        span_size(source, first, last) == utf8_len(chunk_at(source, (first, last)).text) + 1,
    decreases last - first,
{
    let rows = source.subrange(first, last + 1);
    if first == last {
        assert(rows == seq![source[first]]);
        assert(span_size(source, first, last - 1) == 0);
    } else {
        law_span_size_is_that_of_the_text(source, first, last - 1);
        let front = source.subrange(first, last);
        assert(rows.drop_last() == front);
        lemma_encode_concat(joined(front, "\n"@), "\n"@);
        lemma_encode_concat(joined(front, "\n"@) + "\n"@, source[last]);
        reveal_strlit("\n");
        assert("\n"@ == Seq::<char>::empty().push('\n'));
        lemma_utf8_len_push(Seq::empty(), '\n');
        lemma_utf8_len_bounds(Seq::empty());
        lemma_feed_is_one_byte();
    }
}

proof fn lemma_feed_is_one_byte()
    ensures
        utf8_width('\n') == 1,
{
    broadcast use vstd::utf8::group_utf8_lib;

    assert(('\n' as u32) == 10);
}

/// All windows but the last are of eighty lines, and each has ten lines in
/// common with the one after it.
pub proof fn law_windows_are_full(row: int, last: int)
    requires
        row <= last,
    ensures
        ({
            let all = windows(row, last);
            &&& forall|i: int|
                0 <= i < all.len() - 1 ==> (#[trigger] all[i]).1 - all[i].0 + 1 == 80
            &&& all.last().1 - all.last().0 + 1 <= 80
            &&& forall|i: int|
                0 <= i < all.len() - 1 ==> (#[trigger] all[i]).1 - all[i + 1].0 + 1 == 10
        }),
    decreases last - row,
{
    law_windows_cover_with_overlap(row, last);
    let all = windows(row, last);
    if last >= row + WINDOW_LINES {
        let next = row + WINDOW_LINES - WINDOW_OVERLAP;
        let rest = windows(next, last);
        law_windows_are_full(next, last);
        law_windows_cover_with_overlap(next, last);
        assert(all == seq![(row, row + WINDOW_LINES - 1)] + rest);
        assert(all.last() == rest.last());
        assert forall|i: int| 0 <= i < all.len() - 1 implies (#[trigger] all[i]).1 - all[i].0 + 1
            == 80 by {
            if i > 0 {
                assert(all[i] == rest[i - 1]);
            }
        }
    }
}

/// Whether a range lies within the rows of a source; it may be empty.
spec fn in_bounds(source: Seq<Seq<char>>, range: (int, int)) -> bool {
    0 <= range.0 <= range.1 + 1 <= source.len()
}

proof fn lemma_span_in_bounds(source: Seq<Seq<char>>, first: int, last: int)
    requires
        source.len() > 0,
        0 <= first <= last,
        first <= source.len(),
    ensures
        forall|i: int|
            0 <= i < span_ranges(source, first, last).len() ==> in_bounds(
                source,
                #[trigger] span_ranges(source, first, last)[i],
            ),
{
    let end = clamped(source, last);
    if first <= end {
        law_windows_cover_with_overlap(first, end);
    }
}

proof fn lemma_grouping_in_bounds(source: Seq<Seq<char>>, items: Seq<(usize, usize)>)
    requires
        items_fit(source.len(), items),
        items.len() > 0,
    ensures
        forall|i: int|
            0 <= i < grouping(source, row_models(items)).ranges.len() ==> in_bounds(
                source,
                #[trigger] grouping(source, row_models(items)).ranges[i],
            ),
    decreases items.len(),
{
    let rows = row_models(items);
    let front = items.drop_last();
    assert(row_models(front) == rows.drop_last());
    let before = grouping(source, rows.drop_last());
    let item = rows.last();
    assert(items[items.len() - 1] == items.last());
    assert(items_fit(source.len(), front)) by {
        assert forall|i: int| 0 <= i < front.len() implies (#[trigger] front[i]).0 <= front[i].1
            && front[i].0 <= source.len() by {
            assert(front[i] == items[i]);
        }
        assert forall|i: int, j: int| 0 <= i < j < front.len() implies (#[trigger] front[i]).0 <= (
        #[trigger] front[j]).0 by {
            assert(front[i] == items[i] && front[j] == items[j]);
        }
    }
    if front.len() > 0 {
        lemma_grouping(source, front);
        lemma_grouping_in_bounds(source, front);
    }
    lemma_grouping(source, items);
    if let Some((first, last)) = before.group {
        lemma_span_in_bounds(source, first, last);
    }
    let grown = with_item(source, before, item);
    if let Some((first, last)) = grown.group {
        lemma_span_in_bounds(source, first, last);
    }
}

/// Every chunk of a file lies within its lines and holds them: parted at the
/// line feeds, its text gives the lines of the file from its first to its last,
/// all of them and no other. A chunk without lines, for an item right after the
/// last line, is empty.
pub proof fn law_chunks_hold_their_lines(source: Seq<char>, rows: Option<Seq<(usize, usize)>>)
    requires
        rows_fit(source, rows),
    ensures
        forall|i: int|
            0 <= i < source_chunks(source, rows).len() ==> {
                let chunk = #[trigger] source_chunks(source, rows)[i];
                let lines = lines_of(source);
                &&& 1 <= chunk.start_line <= chunk.end_line + 1 <= lines.len() + 1
                &&& chunk.start_line <= chunk.end_line ==> feed_pieces(chunk.text)
                    == lines.subrange(chunk.start_line - 1, chunk.end_line)
                &&& chunk.start_line > chunk.end_line ==> chunk.text.len() == 0
            },
{
    let lines = lines_of(source);
    let ranges = match rows {
        Some(items) => item_ranges(lines, row_models(items)),
        None => windows(0, lines.len() - 1),
    };
    law_lines_hold_no_feed(source);
    assert forall|i: int| 0 <= i < ranges.len() implies in_bounds(lines, #[trigger] ranges[i]) by {
        match rows {
            Some(items) => {
                if items.len() > 0 {
                    lemma_grouping(lines, items);
                    lemma_grouping_in_bounds(lines, items);
                    let g = grouping(lines, row_models(items));
                    if let Some((first, last)) = g.group {
                        lemma_span_in_bounds(lines, first, last);
                        if i >= g.ranges.len() {
                            assert(ranges[i] == span_ranges(lines, first, last)[i
                                - g.ranges.len()]);
                        }
                    }
                }
            },
            None => {
                if lines.len() > 0 {
                    law_windows_cover_with_overlap(0, lines.len() - 1);
                }
            },
        }
    }
    assert forall|i: int| 0 <= i < source_chunks(source, rows).len() implies {
        let chunk = #[trigger] source_chunks(source, rows)[i];
        &&& 1 <= chunk.start_line <= chunk.end_line + 1 <= lines.len() + 1
        &&& chunk.start_line <= chunk.end_line ==> feed_pieces(chunk.text) == lines.subrange(
            chunk.start_line - 1,
            chunk.end_line,
        )
        &&& chunk.start_line > chunk.end_line ==> chunk.text.len() == 0
    } by {
        let range = ranges[i];
        assert(source_chunks(source, rows)[i] == chunk_at(lines, range));
        if range.0 <= range.1 {
            law_chunk_text_holds_its_lines(lines, range);
        }
    }
}

/// Whether a chunk holds a line of a file: its text, parted at the line feeds,
/// has it at the place of its number.
pub open spec fn holds_line(chunk: ChunkModel, row: int, line: Seq<char>) -> bool {
    let place = row + 1 - chunk.start_line;
    &&& chunk.start_line <= row + 1 <= chunk.end_line
    &&& 0 <= place < feed_pieces(chunk.text).len()
    &&& feed_pieces(chunk.text)[place] == line
}

/// Every line of a file that is cut into windows stands in the text of some
/// chunk; so does, of a file that is cut along items, every line of an item.
pub proof fn law_every_line_stands_in_a_chunk(
    source: Seq<char>,
    rows: Option<Seq<(usize, usize)>>,
    row: int,
)
    requires
        rows_fit(source, rows),
        0 <= row < lines_of(source).len(),
        rows matches Some(items) ==> exists|k: int|
            0 <= k < items.len() && (#[trigger] items[k]).0 <= row <= items[k].1,
    ensures
        exists|i: int|
            0 <= i < source_chunks(source, rows).len() && holds_line(
                #[trigger] source_chunks(source, rows)[i],
                row,
                lines_of(source)[row],
            ),
{
    let lines = lines_of(source);
    let ranges = match rows {
        Some(items) => item_ranges(lines, row_models(items)),
        None => windows(0, lines.len() - 1),
    };
    match rows {
        Some(items) => {
            let k = choose|k: int|
                0 <= k < items.len() && (#[trigger] items[k]).0 <= row <= items[k].1;
            law_items_are_covered(lines, items);
            assert(items[k].0 <= row <= clamped(lines, items[k].1 as int));
            assert(covered(ranges, row));
        },
        None => {
            lemma_windows_cover_row(0, lines.len() - 1, row);
        },
    }
    let i = choose|i: int|
        0 <= i < ranges.len() && (#[trigger] ranges[i]).0 <= row <= ranges[i].1;
    law_chunks_hold_their_lines(source, rows);
    let chunk = source_chunks(source, rows)[i];
    assert(chunk == chunk_at(lines, ranges[i]));
    assert(feed_pieces(chunk.text)[row + 1 - chunk.start_line] == lines[row]);
    assert(holds_line(chunk, row, lines[row]));
}

/// Items that fit in one chunk together share one: it runs from the first row
/// of the first to the last row of the last.
pub proof fn law_small_items_share_a_chunk(source: Seq<Seq<char>>, items: Seq<(usize, usize)>)
    requires
        items_fit(source.len(), items),
        items.len() > 0,
        forall|i: int, j: int|
            0 <= i < j < items.len() ==> (#[trigger] items[i]).1 <= (#[trigger] items[j]).1,
        items.last().1 < source.len(),
        span_size(source, items[0].0 as int, items.last().1 as int) <= MAX_CHUNK_CHARS,
    ensures
        item_ranges(source, row_models(items)) == seq![
            (items[0].0 as int, items.last().1 as int),
        ],
{
    lemma_small_items_group(source, items);
    assert(item_ranges(source, row_models(items)) == seq![
        (items[0].0 as int, items.last().1 as int),
    ]);
}

proof fn lemma_span_size_grows(source: Seq<Seq<char>>, first: int, last: int, more: int)
    requires
        last <= more,
    ensures
        span_size(source, first, last) <= span_size(source, first, more),
    decreases more - last,
{
    if last < more {
        lemma_span_size_grows(source, first, last, more - 1);
    }
}

proof fn lemma_small_items_group(source: Seq<Seq<char>>, items: Seq<(usize, usize)>)
    requires
        items.len() > 0,
        forall|i: int, j: int|
            0 <= i < j < items.len() ==> (#[trigger] items[i]).1 <= (#[trigger] items[j]).1,
        items.last().1 < source.len(),
        span_size(source, items[0].0 as int, items.last().1 as int) <= MAX_CHUNK_CHARS,
    ensures
        grouping(source, row_models(items)) == (Grouping {
            ranges: Seq::empty(),
            group: Some((items[0].0 as int, items.last().1 as int)),
        }),
    decreases items.len(),
{
    let rows = row_models(items);
    let front = items.drop_last();
    assert(row_models(front) == rows.drop_last());
    assert(rows.last() == (items.last().0 as int, items.last().1 as int));
    if front.len() > 0 {
        assert(items[front.len() - 1] == front.last());
        assert(items[items.len() - 1] == items.last());
        assert(front.last().1 <= items.last().1);
        assert(front[0] == items[0]);
        assert forall|i: int, j: int| 0 <= i < j < front.len() implies (#[trigger] front[i]).1 <= (
        #[trigger] front[j]).1 by {
            assert(front[i] == items[i] && front[j] == items[j]);
        }
        lemma_span_size_grows(
            source,
            items[0].0 as int,
            front.last().1 as int,
            items.last().1 as int,
        );
        lemma_small_items_group(source, front);
    } else {
        assert(grouping(source, rows.drop_last()) == (Grouping {
            ranges: Seq::empty(),
            group: None,
        }));
        assert(items[0] == items.last());
    }
}

/// A file that is cut into windows loses nothing: every line of it stands in the
/// text of some chunk, at the place of its number.
pub proof fn law_windows_hold_every_line(source: &str, chunks: Vec<Chunk>, row: int)
    requires
        call_ensures(chunk_windows, (source,), chunks),
        0 <= row < lines_of(source@).len(),
    ensures
        exists|i: int|
            0 <= i < chunks@.len() && holds_line(
                (#[trigger] chunks@[i])@,
                row,
                lines_of(source@)[row],
            ),
{
    law_every_line_stands_in_a_chunk(source@, None, row);
    let all = source_chunks(source@, None);
    let i = choose|i: int|
        0 <= i < all.len() && holds_line(#[trigger] all[i], row, lines_of(source@)[row]);
    assert(chunk_models(chunks@)[i] == chunks@[i]@);
}

/// Whatever way a file is cut, each chunk holds the lines that it is numbered
/// with: parted at the line feeds, its text gives them, all of them and no
/// other.
pub proof fn law_cut_chunks_hold_their_lines(
    source: &str,
    rows: Option<Vec<(usize, usize)>>,
    chunks: Vec<Chunk>,
)
    requires
        rows_fit(source@, optional_rows(rows)),
        call_ensures(chunk_by_rows, (source, rows), chunks),
    ensures
        forall|i: int|
            0 <= i < chunks@.len() ==> {
                let chunk = #[trigger] chunks@[i];
                &&& 1 <= chunk.start_line <= chunk.end_line + 1 <= lines_of(source@).len() + 1
                &&& chunk.start_line <= chunk.end_line ==> feed_pieces(chunk.text@) == lines_of(
                    source@,
                ).subrange(chunk.start_line - 1, chunk.end_line as int)
            },
{
    law_chunks_hold_their_lines(source@, optional_rows(rows));
    assert forall|i: int| 0 <= i < chunks@.len() implies {
        let chunk = #[trigger] chunks@[i];
        &&& 1 <= chunk.start_line <= chunk.end_line + 1 <= lines_of(source@).len() + 1
        &&& chunk.start_line <= chunk.end_line ==> feed_pieces(chunk.text@) == lines_of(
            source@,
        ).subrange(chunk.start_line - 1, chunk.end_line as int)
    } by {
        assert(chunk_models(chunks@)[i] == chunks@[i]@);
    }
}

/// An item joins the group before it just if both fit in one chunk, which then
/// runs on to the end of the item; else the group is settled, as one chunk or as
/// windows over it, and the item starts a group of its own.
pub proof fn law_groups_grow_while_they_fit(
    source: Seq<Seq<char>>,
    ranges: Seq<(int, int)>,
    group: (int, int),
    item: (int, int),
)
    requires
        source.len() > 0,
    ensures
        ({
            let g = Grouping { ranges, group: Some(group) };
            let next = with_item(source, g, item);
            let end = if item.1 < source.len() {
                item.1
            } else {
                source.len() - 1
            };
            if span_size(source, group.0, end) <= 3000 {
                &&& next.ranges == ranges
                &&& next.group matches Some(grown)
                &&& grown.0 == group.0
                &&& grown.1 >= group.1 && grown.1 >= item.1
                &&& grown.1 == group.1 || grown.1 == item.1
            } else {
                &&& next.ranges == ranges + span_ranges(source, group.0, group.1)
                &&& next.group == Some(item)
            }
        }),
        with_item(source, Grouping { ranges, group: None }, item) == (Grouping {
            ranges,
            group: Some(item),
        }),
        group.1 < source.len() ==> span_ranges(source, group.0, group.1) == if span_size(
            source,
            group.0,
            group.1,
        ) <= 3000 {
            seq![group]
        } else {
            windows(group.0, group.1)
        },
{
}

/// There is a grammar for two languages, and each is used for its own.
pub proof fn law_grammars_go_by_extension(extension: Seq<char>, source: Seq<char>)
    ensures
        source_items("rs"@, source) == rust_items(source),
        source_items("py"@, source) == python_items(source),
        extension != "rs"@ && extension != "py"@ ==> source_items(extension, source) is None,
{
    reveal_strlit("rs");
    reveal_strlit("py");
    assert("rs"@[0] == 'r' && "py"@[0] == 'p');
}

/// Items are taken if each begins within the source, or right after its last
/// line, no item ends before it begins, and they come in order; only a source
/// without lines, or of more than can be counted, takes none.
pub proof fn law_items_in_order_are_taken(count: nat, items: Seq<(usize, usize)>)
    requires
        0 < count < usize::MAX,
    ensures
        items_fit(count, items) <==> {
            &&& forall|i: int|
                0 <= i < items.len() ==> (#[trigger] items[i]).0 <= items[i].1 && items[i].0
                    <= count
            &&& forall|i: int, j: int|
                0 <= i < j < items.len() ==> (#[trigger] items[i]).0 <= (#[trigger] items[j]).0
        },
        items_fit(0, Seq::empty()),
        items_fit(count, Seq::empty()),
{
}

/// A source is cut along its items where the grammar of its language finds them
/// within it, into windows where there is no grammar or it does not parse, and
/// not at all where an item lies outside; a line of an item, or any line where
/// there are none, stands in some chunk.
pub proof fn law_sources_are_cut_by_their_items(
    extension: &str,
    source: &str,
    chunks: Option<Vec<Chunk>>,
    row: int,
)
    requires
        call_ensures(try_chunk_source, (extension, source), chunks),
        0 <= row < lines_of(source@).len(),
        source_items(extension@, source@) matches Some(items) ==> exists|k: int|
            0 <= k < items.len() && (#[trigger] items[k]).0 <= row <= items[k].1,
    ensures
        chunks is None <==> !rows_fit(source@, source_items(extension@, source@)),
        chunks matches Some(list) ==> exists|i: int|
            0 <= i < list@.len() && holds_line(
                (#[trigger] list@[i])@,
                row,
                lines_of(source@)[row],
            ),
{
    if let Some(list) = chunks {
        let items = source_items(extension@, source@);
        law_every_line_stands_in_a_chunk(source@, items, row);
        let all = source_chunks(source@, items);
        let i = choose|i: int|
            0 <= i < all.len() && holds_line(#[trigger] all[i], row, lines_of(source@)[row]);
        assert(chunk_models(list@)[i] == list@[i]@);
    }
}

} // verus!
