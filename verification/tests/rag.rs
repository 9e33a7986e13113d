//! Chunking, lexical ranking, embedding batches, the store and the indexer.

use claus::json::Json;
use claus::order::order_by_key;
use claus::rag::bm25::{best_of, rank, tokenize, DocumentCounts};
use claus::rag::chunker::{
    chunk_by_rows, chunk_source, chunk_windows, try_chunk_source, Chunk, MAX_CHUNK_CHARS,
};
use claus::rag::embedder::{
    error_message, plan_batches, reply_order, request_body, InputType, Limited, RateLimit,
};
use claus::rag::indexer::{
    collection_name, content_hash, embedding_text, hex_text, is_entered, is_indexable, is_indexed,
    IndexReport, IndexRun, Manifest, Visit,
};
use claus::rag::store::{payload, point_id, SearchHit};
use claus::tools::rag::{fuse_results, top, Found, Fusion, RagSearch};

const K1: f32 = 1.2;
const B: f32 = 0.75;

fn bm25_score(counts: &DocumentCounts) -> u32 {
    let total_docs = counts.documents as f32;
    let average_length = counts.corpus_terms as f32 / total_docs;
    let doc_length = counts.document_terms as f32;
    let score: f32 = counts
        .query_terms
        .iter()
        .map(|term| {
            let df = term.documents as f32;
            let tf = term.occurrences as f32;
            if df == 0.0 || tf == 0.0 {
                return 0.0;
            }
            let idf = ((total_docs - df + 0.5) / (df + 0.5) + 1.0).ln();
            idf * (tf * (K1 + 1.0)) / (tf + K1 * (1.0 - B + B * doc_length / average_length.max(1.0)))
        })
        .sum();
    if score > 0.0 {
        score.to_bits()
    } else {
        0
    }
}

#[test]
fn ranks_exact_term_matches_first() {
    let docs = vec![
        "fn retry_request with exponential backoff".to_string(),
        "fn render_status_bar for the tui".to_string(),
        "retry retry retry everywhere".to_string(),
    ];
    let results = rank(&docs, "retry backoff", 3, bm25_score);
    assert!(!results.is_empty());
    // Doc 0 matches both terms; it must beat doc 2 (one term, repeated).
    assert_eq!(results[0].0, 0);
    // Doc 1 matches nothing and is filtered out.
    assert!(results.iter().all(|(index, _)| *index != 1));
}

#[test]
fn empty_query_or_corpus_returns_nothing() {
    assert!(rank(&[], "query", 5, bm25_score).is_empty());
    assert!(rank(&["doc".to_string()], "", 5, bm25_score).is_empty());
}

#[test]
fn tokenizer_splits_identifiers() {
    assert_eq!(tokenize("read_file(path)"), vec!["read", "file", "path"]);
}

#[test]
fn tokenizer_lowers_case_and_drops_short_terms() {
    assert_eq!(tokenize("HttpClient a 42 x1"), vec!["httpclient", "42", "x1"]);
    // One character of two bytes is long enough.
    assert_eq!(tokenize("É b"), vec!["é"]);
    assert_eq!(tokenize("STRASSE ΟΔΟΣ"), vec!["strasse", "οδος"]);
}

#[test]
fn ranking_sees_the_counts_of_each_document() {
    let docs = vec!["aa bb aa".to_string(), "bb".to_string(), "cc".to_string()];
    let results = rank(&docs, "aa bb", 10, |counts: &DocumentCounts| {
        assert_eq!(counts.documents, 3);
        assert_eq!(counts.corpus_terms, 5);
        assert_eq!(counts.query_terms[0].documents, 1);
        assert_eq!(counts.query_terms[1].documents, 2);
        (counts.query_terms[0].occurrences * 10 + counts.query_terms[1].occurrences) as u32
    });
    assert_eq!(results, vec![(0, 21), (1, 1)]);
}

#[test]
fn best_scores_come_first_and_ties_keep_their_order() {
    assert_eq!(best_of(&[3, 0, 7, 3, 7], 10), vec![(2, 7), (4, 7), (0, 3), (3, 3)]);
    assert_eq!(best_of(&[3, 0, 7, 3, 7], 3), vec![(2, 7), (4, 7), (0, 3)]);
    assert_eq!(order_by_key(&[2, -1, 2, 0]), vec![1, 3, 0, 2]);
}

#[test]
fn windows_cover_whole_file_with_overlap() {
    let source = (1..=200).map(|i| format!("line {i}")).collect::<Vec<_>>().join("\n");
    let chunks = chunk_windows(&source);
    assert!(chunks.len() > 1);
    assert_eq!(chunks.first().unwrap().start_line, 1);
    assert_eq!(chunks.last().unwrap().end_line, 200);
    // Consecutive windows overlap so no boundary context is lost.
    assert!(chunks[1].start_line < chunks[0].end_line);
}

#[test]
fn rust_items_are_grouped_by_syntax() {
    let source = "fn a() -> u32 {\n    1\n}\n\nfn b() -> u32 {\n    2\n}\n";
    let chunks = chunk_source("rs", source);
    assert_eq!(chunks.len(), 1);
    assert!(chunks[0].text.contains("fn a"));
    assert!(chunks[0].text.contains("fn b"));
}

#[test]
fn oversized_function_is_split() {
    let body = (0..300)
        .map(|i| format!("    let x{i} = {i};"))
        .collect::<Vec<_>>()
        .join("\n");
    let source = format!("fn big() {{\n{body}\n}}\n");
    let chunks = chunk_source("rs", &source);
    assert!(chunks.len() > 1);
}

#[test]
fn unknown_extension_falls_back_to_windows() {
    let chunks = chunk_source("md", "# title\n\nsome text\n");
    assert_eq!(chunks.len(), 1);
    assert_eq!(chunks[0].start_line, 1);
}

#[test]
fn windows_have_eighty_lines_and_share_ten() {
    let source = (1..=200).map(|i| format!("line {i}")).collect::<Vec<_>>().join("\n");
    let spans: Vec<(usize, usize)> =
        chunk_windows(&source).iter().map(|c| (c.start_line, c.end_line)).collect();
    assert_eq!(spans, vec![(1, 80), (71, 150), (141, 200)]);
    assert!(chunk_windows("").is_empty());
}

#[test]
fn python_items_become_chunks() {
    let source = "import os\n\ndef f():\n    return 1\n";
    let chunks = try_chunk_source("py", source).unwrap();
    assert_eq!(chunks.len(), 1);
    assert_eq!((chunks[0].start_line, chunks[0].end_line), (1, 4));
    assert!(chunks[0].text.starts_with("import os\n"));
}

#[test]
fn groups_end_where_a_chunk_is_full() {
    let line = "x".repeat(999);
    let source = [line.as_str(); 7].join("\n");
    // Three lines of a thousand bytes fill a chunk; the fourth starts another.
    let rows: Vec<(usize, usize)> = (0..7).map(|i| (i, i)).collect();
    let spans: Vec<(usize, usize)> = chunk_by_rows(&source, Some(rows))
        .iter()
        .map(|c| (c.start_line, c.end_line))
        .collect();
    assert_eq!(MAX_CHUNK_CHARS, 3000);
    assert_eq!(spans, vec![(1, 3), (4, 6), (7, 7)]);
    let one: Vec<Chunk> = chunk_by_rows(&source, Some(vec![(0, 6)]));
    assert_eq!((one.len(), one[0].start_line, one[0].end_line), (1, 1, 7));
}

#[test]
fn batches_are_bounded_and_keep_their_order() {
    let texts: Vec<String> = (0..300).map(|i| format!("t{i}")).collect();
    let batches = plan_batches(&texts);
    let sizes: Vec<usize> = batches.iter().map(Vec::len).collect();
    assert_eq!(sizes, vec![128, 128, 44]);
    assert_eq!(batches.concat(), texts);

    let large = vec!["x".repeat(40_000), "y".repeat(20_000), "z".repeat(10_000), "w".to_string()];
    let sizes: Vec<usize> = plan_batches(&large).iter().map(Vec::len).collect();
    assert_eq!(sizes, vec![1, 2, 1]);
    assert!(plan_batches(&[]).is_empty());
}

#[test]
fn embedding_requests_name_model_and_use() {
    let body = request_body(&["a".to_string()], InputType::Query);
    assert_eq!(
        body.to_text(),
        "{\"input\":[\"a\"],\"input_type\":\"query\",\"model\":\"voyage-code-3\"}"
    );
    assert_eq!(InputType::Document.as_str(), "document");
    assert_eq!(
        error_message("429 Too Many Requests", "slow"),
        "voyage API error 429 Too Many Requests: slow"
    );
}

#[test]
fn replies_are_ordered_by_index() {
    assert_eq!(reply_order(&[2, 0, 1, 0]), vec![1, 3, 2, 0]);
    // A reply that carries each index once is put in the order of the request.
    let indexes = [3, 0, 2, 1];
    let order = reply_order(&indexes);
    let handed: Vec<usize> = order.iter().map(|place| indexes[*place]).collect();
    assert_eq!(handed, vec![0, 1, 2, 3]);
}

#[test]
fn rate_limits_are_waited_out_eight_times() {
    let mut limit = RateLimit::new();
    assert_eq!(limit.on_status(None), Limited::Fail);
    // What the body of another failure says does not matter.
    assert_eq!(limit.on_status(Some(500)), Limited::Fail);
    for _ in 0..8 {
        assert!(limit.try_again().is_ok());
        assert_eq!(limit.on_status(Some(429)), Limited::Wait(21));
    }
    assert_eq!(
        limit.try_again(),
        Err("voyage API still rate-limited after 8 retries".to_string())
    );
}

fn chunk(text: &str, start_line: usize, end_line: usize) -> Chunk {
    Chunk { text: text.to_string(), start_line, end_line }
}

#[test]
fn point_ids_come_from_the_location() {
    let expected = u64::from_le_bytes(
        blake3::hash(b"src/a.rs:7").as_bytes()[..8].try_into().unwrap(),
    );
    assert_eq!(point_id("src/a.rs", &chunk("x", 7, 9)), expected);
    assert_eq!(point_id("src/a.rs", &chunk("y", 7, 8)), expected);
    assert_ne!(point_id("src/a.rs", &chunk("x", 8, 9)), expected);
}

#[test]
fn payloads_hold_the_chunk() {
    assert_eq!(
        payload("a.rs", &chunk("fn", 1, 2)).to_text(),
        "{\"end_line\":2,\"path\":\"a.rs\",\"start_line\":1,\"text\":\"fn\"}"
    );
    let hit = SearchHit::from_fields(None, Some(3), None, Some("t".to_string()), 7);
    assert_eq!((hit.path.as_str(), hit.start_line, hit.end_line), ("", 3, 0));
    assert_eq!((hit.text.as_str(), hit.score_bits), ("t", 7));
}

#[test]
fn hashes_are_hexadecimal() {
    assert_eq!(hex_text(&[0, 15, 160, 255]), "000fa0ff");
    assert_eq!(
        content_hash(""),
        "af1349b9f5f9a1a6a0404dea36dcc9499bcb25c9adc112b7cc9a93cae41f3262"
    );
    assert_eq!(collection_name(""), "claus-af1349b9f5f9");
    assert_ne!(collection_name("/a"), collection_name("/b"));
}

#[test]
fn only_text_files_outside_skipped_directories_are_indexed() {
    assert!(is_entered("src"));
    assert!(is_entered("."));
    assert!(!is_entered(".github"));
    assert!(!is_entered("qdrant_storage"));
    assert!(!is_entered("target"));
    assert!(is_indexed(true, Some(1_000_000), Some("rs")));
    assert!(!is_indexed(true, Some(1_000_001), Some("rs")));
    assert!(!is_indexed(false, Some(1), Some("rs")));
    assert!(!is_indexed(true, None, Some("rs")));
    assert!(!is_indexed(true, Some(1), Some("png")));
    assert!(!is_indexed(true, Some(1), None));
    let names = vec!["src".to_string(), "a.rs".to_string()];
    assert!(is_indexable(&names, Some("rs")));
    assert!(!is_indexable(&names, Some("lock")));
    let names = vec!["target".to_string(), "a.rs".to_string()];
    assert!(!is_indexable(&names, Some("rs")));
}

#[test]
fn manifests_read_back() {
    let mut manifest = Manifest::new();
    manifest.insert("a".to_string(), "1".to_string());
    manifest.insert("b".to_string(), "2".to_string());
    manifest.insert("a".to_string(), "3".to_string());
    assert_eq!(manifest.to_text(), "{\n  \"a\": \"3\",\n  \"b\": \"2\"\n}");
    let read = Manifest::from_text(&manifest.to_text());
    assert!(read.holds("a", "3"));
    assert!(read.holds("b", "2"));
    assert!(!read.holds("a", "1"));
    assert!(!Manifest::from_text("{\"a\": 1}").holds("a", "1"));
    assert!(!Manifest::from_text("nonsense").holds("a", "1"));
    assert!(!Manifest::from_document(Some(Json::Null)).holds("a", "1"));
}

#[test]
fn a_second_run_leaves_unchanged_files_alone() {
    let mut run = IndexRun::new(Manifest::new());
    let work = match run.visit("a.md", "md", "# title\n") {
        Visit::Index { hash, chunks, texts } => {
            assert_eq!(texts, vec!["// a.md:1\n# title".to_string()]);
            assert_eq!(chunks.len(), 1);
            hash
        }
        other => panic!("unexpected {other:?}"),
    };
    run.mark_indexed("a.md".to_string(), work, 1);
    assert!(matches!(run.visit("empty.md", "md", ""), Visit::Empty));
    assert_eq!(
        run.report.summary(),
        "indexed 1 file(s) (1 chunks), 0 unchanged, 0 removed"
    );
    assert_eq!(run.report.note(), Some("reindexed 1 changed file(s)".to_string()));

    let mut again = IndexRun::new(run.manifest);
    assert!(matches!(again.visit("a.md", "md", "# title\n"), Visit::Unchanged));
    assert!(matches!(again.visit("empty.md", "md", ""), Visit::Empty));
    assert!(again.gone().is_empty());
    assert_eq!(
        again.report,
        IndexReport { indexed_files: 0, removed_files: 0, unchanged_files: 1, chunks: 0 }
    );
    assert_eq!(again.report.note(), None);
    assert!(matches!(again.visit("a.md", "md", "# other\n"), Visit::Index { .. }));
}

#[test]
fn files_that_are_gone_are_purged() {
    let mut manifest = Manifest::new();
    manifest.insert("a.md".to_string(), "1".to_string());
    manifest.insert("b.md".to_string(), "2".to_string());
    let mut run = IndexRun::new(manifest);
    run.visit("b.md", "md", "text");
    assert_eq!(run.gone(), vec!["a.md".to_string()]);
    run.mark_removed("a.md");
    assert!(run.gone().is_empty());
    assert_eq!(run.report.removed_files, 1);
    assert_eq!(IndexReport::default().note(), None);
}

#[test]
fn embedded_texts_begin_with_their_place() {
    assert_eq!(embedding_text("src/a.rs", &chunk("fn a() {}", 3, 3)), "// src/a.rs:3\nfn a() {}");
}

fn found(path: &str, start_line: usize, text: &str) -> Found {
    Found { path: path.to_string(), start_line, end_line: start_line + 1, text: text.to_string() }
}

#[test]
fn chunks_found_twice_are_one_candidate() {
    let hits = vec![found("a.rs", 1, "alpha term"), found("b.rs", 5, "beta")];
    let corpus = vec![found("c.rs", 2, "nothing"), found("a.rs", 1, "alpha term")];
    let fusion = fuse_results("alpha", &hits, &corpus, bm25_score);
    let keys: Vec<&str> = fusion.candidates.iter().map(|c| c.key.as_str()).collect();
    assert_eq!(keys, vec!["a.rs:1", "b.rs:5"]);
    assert_eq!(fusion.candidates[0].ranks, vec![0, 0]);
    assert_eq!(fusion.candidates[1].ranks, vec![1]);
    let shown = vec!["0.0333".to_string(), "0.0164".to_string()];
    assert_eq!(
        fusion.answer(&[20, 10], &shown, 8),
        "--- a.rs:1-2 (rrf 0.0333)\nalpha term\n\n--- b.rs:5-6 (rrf 0.0164)\nbeta"
    );
    assert_eq!(
        fusion.answer(&[10, 20], &shown, 1),
        "--- b.rs:5-6 (rrf 0.0164)\nbeta"
    );
}

#[test]
fn a_find_with_text_fills_one_without() {
    let mut fusion = Fusion::new();
    fusion.add(0, found("a.rs", 1, ""));
    fusion.add(4, found("a.rs", 1, "text"));
    fusion.add(5, found("a.rs", 1, "later"));
    assert_eq!(fusion.candidates.len(), 1);
    assert_eq!(fusion.candidates[0].found.text, "text");
    assert_eq!(fusion.candidates[0].ranks, vec![0, 4, 5]);
}

#[test]
fn a_search_without_candidates_says_so() {
    assert_eq!(
        Fusion::new().answer(&[], &[], 8),
        "no results; has the project been indexed with `claus index`?"
    );
    assert_eq!(top(&[1, 3, 2, 3], 3), vec![1, 3, 2]);
    let request = RagSearch.request(&Json::object().with("query", Json::text("q"))).unwrap();
    assert_eq!((request.query.as_str(), request.limit), ("q", 8));
    assert_eq!(
        RagSearch.request(&Json::object()).unwrap_err(),
        "missing required parameter: query"
    );
}
