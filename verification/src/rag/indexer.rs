//! Incremental indexing: which files are indexed, what changed since the last
//! run, and what is left to purge.

use vstd::prelude::*;
use vstd::string::*;
use vstd::utf8::*;

use crate::json::{
    document_of_text, entry_models, lemma_object_model, pretty_text_of_document, text_map, Json,
    JsonModel,
};
use crate::keyed::{distinct_keys, has_key, lemma_one_more_key, listed_in, value_of, Keyed};
use crate::rag::chunker::{
    chunk_models, rows_fit, source_chunks, source_items, try_chunk_source, Chunk, ChunkModel,
};
use crate::rag::store::{digest, hash_bytes};
use crate::text::number::{decimal, decimal_of, decimal_text};
use crate::text::search::{begins_with, one_of, slice_texts, starts_with};
use crate::text::{
    byte_len, lemma_utf8_len_bounds, lemma_utf8_len_push, same_text, texts, utf8_len, utf8_width,
};

verus! {

broadcast use {
    vstd::string::group_string_axioms,
    vstd::seq_lib::group_seq_properties,
};

/// Larger files are not indexed.
pub const MAX_FILE_BYTES: u64 = 1_000_000;

// ---------------------------------------------------------------------------
// Which files are indexed
// ---------------------------------------------------------------------------

/// Directories that hold nothing worth indexing.
pub open spec fn skip_dirs() -> Seq<Seq<char>> {
    seq![
        ".git"@,
        "target"@,
        "node_modules"@,
        ".venv"@,
        "__pycache__"@,
        ".claus"@,
        "qdrant_storage"@,
    ]
}

/// Extensions of the files that are indexed.
pub open spec fn text_extensions() -> Seq<Seq<char>> {
    seq![
        "rs"@, "py"@, "js"@, "jsx"@, "ts"@, "tsx"@, "go"@, "java"@, "kt"@, "c"@, "h"@,
        "cpp"@, "hpp"@, "md"@, "toml"@, "yaml"@, "yml"@, "json"@, "sh"@, "sql"@, "html"@,
        "css"@,
    ]
}

/// Whether an entry with a name is entered: it is neither listed nor hidden. A
/// name of one character is never hidden.
pub open spec fn enters(name: Seq<char>) -> bool {
    !skip_dirs().contains(name) && (!begins_with(name, "."@) || utf8_len(name) <= 1)
}

/// Whether an entry with a name is entered.
pub fn is_entered(name: &str) -> (res: bool)
    ensures
        res == enters(name@),
{
    let listed: [&str; 7] = [
        ".git",
        "target",
        "node_modules",
        ".venv",
        "__pycache__",
        ".claus",
        "qdrant_storage",
    ];
    assert(slice_texts(listed@) == skip_dirs());
    !one_of(name, listed.as_slice()) && (!starts_with(name, ".") || byte_len(name) <= 1)
}

/// Whether files with an extension are indexed.
pub fn is_text_extension(extension: &str) -> (res: bool)
    ensures
        res == text_extensions().contains(extension@),
{
    let listed: [&str; 22] = [
        "rs", "py", "js", "jsx", "ts", "tsx", "go", "java", "kt", "c", "h", "cpp", "hpp", "md",
        "toml", "yaml", "yml", "json", "sh", "sql", "html", "css",
    ];
    assert(slice_texts(listed@) == text_extensions());
    one_of(extension, listed.as_slice())
}

/// Whether an entry of the walk is indexed, given its size, where that is
/// known, and its extension, where it has one.
pub fn is_indexed(is_file: bool, size: Option<u64>, extension: Option<&str>) -> (res: bool)
    ensures
        res == (is_file && (size matches Some(n) && n <= MAX_FILE_BYTES) && (
        extension matches Some(e) && text_extensions().contains(e@))),
{
    let small: bool = match size {
        Some(n) => n <= MAX_FILE_BYTES,
        None => false,
    };
    match extension {
        Some(e) => is_file && small && is_text_extension(e),
        None => false,
    }
}

/// Whether every one of several names is entered.
pub open spec fn all_entered(names: Seq<Seq<char>>) -> bool {
    forall|i: int| 0 <= i < names.len() ==> enters(#[trigger] names[i])
}

/// Whether a change to a file can change the index, given the names on its way
/// from the root and its extension, where it has one.
pub fn is_indexable(names: &[String], extension: Option<&str>) -> (res: bool)
    ensures
        res == ((forall|i: int| 0 <= i < names@.len() ==> enters((#[trigger] names@[i])@)) && (
        extension matches Some(e) && text_extensions().contains(e@))),
        res == (all_entered(texts(names@)) && (extension matches Some(e)
            && text_extensions().contains(e@))),
{
    let mut i: usize = 0;
    while i < names.len()
        invariant
            i <= names@.len(),
            forall|k: int| 0 <= k < i ==> enters((#[trigger] names@[k])@),
        decreases names@.len() - i,
    {
        if !is_entered(names[i].as_str()) {
            assert(!enters(texts(names@)[i as int]));
            return false;
        }
        i += 1;
    }
    match extension {
        Some(e) => is_text_extension(e),
        None => false,
    }
}

// ---------------------------------------------------------------------------
// Hashes
// ---------------------------------------------------------------------------

/// A hexadecimal digit.
pub open spec fn hex_digit(d: int) -> char {
    if d < 10 {
        (48 + d) as char
    } else {
        (87 + d) as char
    }
}

/// Bytes in hexadecimal, two digits each, in lower case.
pub open spec fn hex(bytes: Seq<u8>) -> Seq<char> {
    Seq::new(
        2 * bytes.len(),
        |i: int|
            hex_digit(
                if i % 2 == 0 {
                    bytes[i / 2] as int / 16
                } else {
                    bytes[i / 2] as int % 16
                },
            ),
    )
}

fn hex_char(d: u8) -> (c: char)
    requires
        d < 16,
    ensures
        c == hex_digit(d as int),
{
    if d < 10 {
        (48 + d) as char
    } else {
        (87 + d) as char
    }
}

/// Writes bytes in hexadecimal.
pub fn hex_text(bytes: &[u8]) -> (out: String)
    ensures
        out@ == hex(bytes@),
{
    let mut out: String = String::new();
    let mut i: usize = 0;
    while i < bytes.len()
        invariant
            i <= bytes@.len(),
            out@ == hex(bytes@.take(i as int)),
        decreases bytes@.len() - i,
    {
        let ghost before = out@;
        let b: u8 = bytes[i];
        out.push(hex_char(b / 16));
        out.push(hex_char(b % 16));
        assert(out@ == hex(bytes@.take(i + 1)));
        i += 1;
    }
    assert(bytes@.take(i as int) == bytes@);
    out
}

/// The hash of a text: its digest in hexadecimal.
pub open spec fn hash_of(text: Seq<char>) -> Seq<char> {
    hex(digest(encode_utf8(text)))
}

/// The hash of a text.
pub fn content_hash(text: &str) -> (hash: String)
    ensures
        hash@ == hash_of(text@),
{
    let bytes: [u8; 32] = hash_bytes(text.as_bytes());
    hex_text(bytes.as_slice())
}

/// Name the per-project collection after the absolute project path so
/// different checkouts never share vectors: a prefix, and the first twelve
/// digits of the path's hash.
pub fn collection_name(project_root: &str) -> (name: String)
    ensures
        name@ == "claus-"@ + hash_of(project_root@).take(12),
{
    let bytes: [u8; 32] = hash_bytes(project_root.as_bytes());
    let head: &[u8] = vstd::slice::slice_subrange(bytes.as_slice(), 0, 6);
    let digits: String = hex_text(head);
    assert(digits@ == hash_of(project_root@).take(12));
    "claus-".to_owned().concat(digits.as_str())
}

// ---------------------------------------------------------------------------
// The manifest
// ---------------------------------------------------------------------------

/// The hash of each indexed file, by its path from the root.
#[derive(Debug)]
pub struct Manifest {
    pub hashes: Keyed<String>,
}

impl View for Manifest {
    type V = Map<Seq<char>, Seq<char>>;

    open spec fn view(&self) -> Map<Seq<char>, Seq<char>> {
        self.hashes@.map_values(|hash: String| hash@)
    }
}

impl Manifest {
    /// Every file is listed once.
    pub open spec fn wf(&self) -> bool {
        self.hashes.wf()
    }

    /// A manifest without entries.
    pub fn new() -> (manifest: Manifest)
        ensures
            manifest.wf(),
            manifest@ == Map::<Seq<char>, Seq<char>>::empty(),
    {
        let manifest: Manifest = Manifest { hashes: Keyed::new() };
        assert(manifest@ == Map::<Seq<char>, Seq<char>>::empty());
        manifest
    }

    /// Whether a file is listed with a hash.
    pub fn holds(&self, path: &str, hash: &str) -> (res: bool)
        requires
            self.wf(),
        ensures
            res == (self@.contains_key(path@) && self@[path@] == hash@),
    {
        match self.hashes.get(path) {
            Some(listed) => same_text(listed.as_str(), hash),
            None => false,
        }
    }

    /// Lists a file with a hash, in place of the one that it was listed with.
    pub fn insert(&mut self, path: String, hash: String)
        requires
            old(self).wf(),
        ensures
            final(self).wf(),
            final(self)@ == old(self)@.insert(path@, hash@),
    {
        let ghost before = self@;
        self.hashes.insert(path, hash);
        assert(self@ == before.insert(path@, hash@));
    }

    /// Drops a file from the list.
    pub fn remove(&mut self, path: &str)
        requires
            old(self).wf(),
        ensures
            final(self).wf(),
            final(self)@ == old(self)@.remove(path@),
    {
        let ghost before = self@;
        self.hashes.remove(path);
        assert(self@ == before.remove(path@));
    }
}

// ---------------------------------------------------------------------------
// The manifest as a document
// ---------------------------------------------------------------------------

/// The manifest that a document holds; an empty one where it holds none.
pub open spec fn manifest_of(document: Option<JsonModel>) -> Map<Seq<char>, Seq<char>> {
    match document {
        Some(JsonModel::Object(entries)) => match text_map(entries) {
            Some(listed) => listed,
            None => Map::empty(),
        },
        _ => Map::empty(),
    }
}

/// What an optional document stands for.
pub open spec fn optional_model(document: Option<Json>) -> Option<JsonModel> {
    match document {
        Some(d) => Some(d@),
        None => None,
    }
}

/// The entries of the document that a manifest is kept as.
pub open spec fn manifest_entries(entries: Seq<(String, String)>) -> Seq<(Seq<char>, JsonModel)> {
    entries.map_values(|e: (String, String)| (e.0@, JsonModel::Text(e.1@)))
}

impl Manifest {
    /// The manifest that a document holds; an empty one where there is no
    /// document or it holds something else.
    pub fn from_document(document: Option<Json>) -> (manifest: Manifest)
        ensures
            manifest.wf(),
            manifest@ == manifest_of(optional_model(document)),
    {
        broadcast use lemma_object_model;

        match document {
            Some(Json::Object(entries)) => {
                let ghost all = entry_models(entries@);
                let mut manifest: Manifest = Manifest::new();
                let mut i: usize = 0;
                assert(all.take(0) == Seq::<(Seq<char>, JsonModel)>::empty());
                while i < entries.len()
                    invariant
                        i <= entries@.len(),
                        all == entry_models(entries@),
                        optional_model(document) == Some(JsonModel::Object(all)),
                        manifest.wf(),
                        text_map(all.take(i as int)) == Some(manifest@),
                    decreases entries@.len() - i,
                {
                    assert(all.take(i + 1).drop_last() == all.take(i as int));
                    assert(all.take(i + 1).last() == (entries@[i as int].0@, entries@[i as int].1@));
                    match &entries[i].1 {
                        Json::Text(hash) => {
                            manifest.insert(entries[i].0.clone(), hash.clone());
                        },
                        _ => {
                            proof {
                                lemma_entries_need_texts(all, i + 1);
                            }
                            return Manifest::new();
                        },
                    }
                    i += 1;
                }
                assert(all.take(i as int) == all);
                manifest
            },
            _ => Manifest::new(),
        }
    }

    /// The manifest that a text holds; an empty one where it holds none.
    pub fn from_text(text: &str) -> (manifest: Manifest)
        ensures
            manifest.wf(),
            manifest@ == manifest_of(document_of_text(text@)),
    {
        Manifest::from_document(Json::parse(text))
    }

    /// The document that the manifest is kept as.
    pub fn to_document(&self) -> (document: Json)
        ensures
            document@ == JsonModel::Object(manifest_entries(self.hashes.entries@)),
    {
        broadcast use lemma_object_model;

        let mut entries: Vec<(String, Json)> = Vec::new();
        let mut i: usize = 0;
        while i < self.hashes.entries.len()
            invariant
                i <= self.hashes.entries@.len(),
                entries@.len() == i,
                forall|k: int|
                    0 <= k < i ==> (#[trigger] entries@[k]).0@ == self.hashes.entries@[k].0@
                        && entries@[k].1@ == JsonModel::Text(self.hashes.entries@[k].1@),
            decreases self.hashes.entries@.len() - i,
        {
            let entry: &(String, String) = &self.hashes.entries[i];
            entries.push((entry.0.clone(), Json::text(entry.1.as_str())));
            i += 1;
        }
        assert(entry_models(entries@) == manifest_entries(self.hashes.entries@));
        Json::Object(entries)
    }

    /// The text that the manifest is kept as. It reads back as the manifest
    /// that was written.
    pub fn to_text(&self) -> (text: String)
        requires
            self.wf(),
        ensures
            text@ == pretty_text_of_document(
                JsonModel::Object(manifest_entries(self.hashes.entries@)),
            ),
            manifest_of(document_of_text(text@)) == self@,
    {
        proof {
            law_manifest_reads_back(*self);
        }
        self.to_document().to_pretty_text()
    }
}

proof fn lemma_entries_need_texts(entries: Seq<(Seq<char>, JsonModel)>, n: int)
    requires
        0 <= n <= entries.len(),
        text_map(entries.take(n)) is None,
    ensures
        text_map(entries) is None,
    decreases entries.len() - n,
{
    if n == entries.len() {
        assert(entries.take(n) == entries);
    } else {
        assert(entries.take(n + 1).drop_last() == entries.take(n));
        lemma_entries_need_texts(entries, n + 1);
    }
}

/// A manifest reads back from the document that it is kept as.
pub proof fn law_manifest_reads_back(manifest: Manifest)
    requires
        manifest.wf(),
    ensures
        text_map(manifest_entries(manifest.hashes.entries@)) == Some(manifest@),
        manifest_of(Some(JsonModel::Object(manifest_entries(manifest.hashes.entries@)))) == manifest@,
{
    let entries = manifest.hashes.entries@;
    assert(entries.take(entries.len() as int) == entries);
    lemma_prefix_reads_back(entries, entries.len() as int);
    let listed = text_map(manifest_entries(entries))->Some_0;
    assert(listed == manifest@);
}

proof fn lemma_prefix_reads_back(entries: Seq<(String, String)>, n: int)
    requires
        distinct_keys(entries),
        0 <= n <= entries.len(),
    ensures
        ({
            let listed = text_map(manifest_entries(entries.take(n)));
            &&& listed is Some
            &&& forall|key: Seq<char>|
                #[trigger] listed->Some_0.contains_key(key) <==> has_key(entries.take(n), key)
            &&& forall|key: Seq<char>|
                has_key(entries.take(n), key) ==> #[trigger] listed->Some_0[key] == value_of(
                    entries.take(n),
                    key,
                )@
        }),
    decreases n,
{
    let now = entries.take(n);
    assert(distinct_keys(now)) by {
        assert forall|i: int, j: int| 0 <= i < j < now.len() implies (#[trigger] now[i]).0@ != (
        #[trigger] now[j]).0@ by {
            assert(now[i] == entries[i] && now[j] == entries[j]);
        }
    }
    if n == 0 {
        assert(manifest_entries(now) == Seq::<(Seq<char>, JsonModel)>::empty());
    } else {
        lemma_prefix_reads_back(entries, n - 1);
        let before = entries.take(n - 1);
        assert(distinct_keys(before)) by {
            assert forall|i: int, j: int| 0 <= i < j < before.len() implies (
            #[trigger] before[i]).0@ != (#[trigger] before[j]).0@ by {
                assert(before[i] == entries[i] && before[j] == entries[j]);
            }
        }
        assert(now.drop_last() == before);
        assert(manifest_entries(now).drop_last() == manifest_entries(before));
        lemma_one_more_key(before, now);
        assert forall|i: int| 0 <= i < before.len() implies (#[trigger] before[i]).0@
            != now.last().0@ by {
            assert(now[i].0@ != now[n - 1].0@);
        }
        let listed = text_map(manifest_entries(now))->Some_0;
        assert forall|key: Seq<char>| has_key(now, key) implies #[trigger] listed[key] == value_of(
            now,
            key,
        )@ by {
            if key != now.last().0@ {
                assert(has_key(before, key));
            }
        }
    }
}

// ---------------------------------------------------------------------------
// One run
// ---------------------------------------------------------------------------

/// What a run of the indexer did.
#[derive(Clone, Copy, Debug, PartialEq, Eq, Structural)]
pub struct IndexReport {
    pub indexed_files: usize,
    pub removed_files: usize,
    pub unchanged_files: usize,
    pub chunks: usize,
}

impl Default for IndexReport {
    fn default() -> (report: IndexReport)
        ensures
            report == (IndexReport {
                indexed_files: 0,
                removed_files: 0,
                unchanged_files: 0,
                chunks: 0,
            }),
    {
        IndexReport { indexed_files: 0, removed_files: 0, unchanged_files: 0, chunks: 0 }
    }
}

impl IndexReport {
    /// The report in words.
    pub fn summary(&self) -> (words: String)
        ensures
            words@ == "indexed "@ + decimal(self.indexed_files as nat) + " file(s) ("@ + decimal(
                self.chunks as nat,
            ) + " chunks), "@ + decimal(self.unchanged_files as nat) + " unchanged, "@ + decimal(
                self.removed_files as nat,
            ) + " removed"@,
    {
        let indexed: String = decimal_of(self.indexed_files);
        let chunks: String = decimal_of(self.chunks);
        let unchanged: String = decimal_of(self.unchanged_files);
        let removed: String = decimal_of(self.removed_files);
        "indexed ".to_owned().concat(indexed.as_str()).concat(" file(s) (").concat(
            chunks.as_str(),
        ).concat(" chunks), ").concat(unchanged.as_str()).concat(" unchanged, ").concat(
            removed.as_str(),
        ).concat(" removed")
    }

    /// What a background run tells the user: how many files it changed, and
    /// nothing where it changed none.
    pub fn note(&self) -> (note: Option<String>)
        ensures
            match note {
                Some(words) => {
                    &&& self.indexed_files + self.removed_files > 0
                    &&& words@ == "reindexed "@ + decimal(
                        (self.indexed_files + self.removed_files) as nat,
                    ) + " changed file(s)"@
                },
                None => self.indexed_files + self.removed_files == 0,
            },
    {
        let changed: u128 = self.indexed_files as u128 + self.removed_files as u128;
        if changed > 0 {
            let count: String = decimal_text(changed);
            Some("reindexed ".to_owned().concat(count.as_str()).concat(" changed file(s)"))
        } else {
            None
        }
    }
}

/// The text of a chunk that is embedded: where it is, and what it says.
pub open spec fn embedded_text(path: Seq<char>, chunk: ChunkModel) -> Seq<char> {
    "// "@ + path + ":"@ + decimal(chunk.start_line as nat) + "\n"@ + chunk.text
}

/// The text of a chunk that is embedded.
pub fn embedding_text(path: &str, chunk: &Chunk) -> (text: String)
    ensures
        text@ == embedded_text(path@, chunk@),
{
    let line: String = decimal_of(chunk.start_line);
    "// ".to_owned().concat(path).concat(":").concat(line.as_str()).concat("\n").concat(
        chunk.text.as_str(),
    )
}

/// What is to be done for a file.
#[derive(Debug)]
pub enum Visit {
    /// It is as it was when it was last indexed.
    Unchanged,
    /// It makes no chunks.
    Empty,
    /// Its items do not lie within it.
    Misplaced,
    /// Its chunks are to be embedded, each as the text beside it, and to take
    /// the place of those that are stored.
    Index { hash: String, chunks: Vec<Chunk>, texts: Vec<String> },
}

/// What a [`Visit`] stands for.
pub ghost enum VisitModel {
    Unchanged,
    Empty,
    Misplaced,
    Index { hash: Seq<char>, chunks: Seq<ChunkModel>, texts: Seq<Seq<char>> },
}

impl View for Visit {
    type V = VisitModel;

    open spec fn view(&self) -> VisitModel {
        match *self {
            Visit::Unchanged => VisitModel::Unchanged,
            Visit::Empty => VisitModel::Empty,
            Visit::Misplaced => VisitModel::Misplaced,
            Visit::Index { hash, chunks, texts: list } => VisitModel::Index {
                hash: hash@,
                chunks: chunk_models(chunks@),
                texts: texts(list@),
            },
        }
    }
}

/// What is to be done for a file, given the manifest and its items.
pub open spec fn visited(
    manifest: Map<Seq<char>, Seq<char>>,
    path: Seq<char>,
    content: Seq<char>,
    items: Option<Seq<(usize, usize)>>,
) -> VisitModel {
    if manifest.contains_key(path) && manifest[path] == hash_of(content) {
        VisitModel::Unchanged
    } else if !rows_fit(content, items) {
        VisitModel::Misplaced
    } else if source_chunks(content, items).len() == 0 {
        VisitModel::Empty
    } else {
        VisitModel::Index {
            hash: hash_of(content),
            chunks: source_chunks(content, items),
            texts: source_chunks(content, items).map_values(
                |c: ChunkModel| embedded_text(path, c),
            ),
        }
    }
}

/// A file whose content has the hash that it was indexed with is left alone;
/// one whose hash changed, or that is new, is not.
pub proof fn law_only_changed_files_are_indexed(
    manifest: Map<Seq<char>, Seq<char>>,
    path: Seq<char>,
    content: Seq<char>,
    items: Option<Seq<(usize, usize)>>,
)
    ensures
        visited(manifest, path, content, items) is Unchanged <==> manifest.contains_key(path)
            && manifest[path] == hash_of(content),
        visited(manifest.insert(path, hash_of(content)), path, content, items) is Unchanged,
{
}

/// A run of the indexer over the files of a project.
#[derive(Debug)]
pub struct IndexRun {
    pub manifest: Manifest,
    pub seen: Vec<String>,
    pub report: IndexReport,
}

/// What an [`IndexRun`] stands for: the manifest, the files that were seen, and
/// the counts of the report.
pub ghost struct RunModel {
    pub manifest: Map<Seq<char>, Seq<char>>,
    pub seen: Seq<Seq<char>>,
    pub indexed: nat,
    pub removed: nat,
    pub unchanged: nat,
    pub chunks: nat,
}

impl View for IndexRun {
    type V = RunModel;

    open spec fn view(&self) -> RunModel {
        RunModel {
            manifest: self.manifest@,
            seen: texts(self.seen@),
            indexed: self.report.indexed_files as nat,
            removed: self.report.removed_files as nat,
            unchanged: self.report.unchanged_files as nat,
            chunks: self.report.chunks as nat,
        }
    }
}

/// A run that has seen nothing yet.
pub open spec fn started(manifest: Map<Seq<char>, Seq<char>>) -> RunModel {
    RunModel {
        manifest,
        seen: Seq::empty(),
        indexed: 0,
        removed: 0,
        unchanged: 0,
        chunks: 0,
    }
}

/// A run after it looked at a file.
pub open spec fn after_visit(run: RunModel, path: Seq<char>, visit: VisitModel) -> RunModel {
    RunModel {
        seen: run.seen.push(path),
        unchanged: run.unchanged + if visit is Unchanged {
            1nat
        } else {
            0nat
        },
        ..run
    }
}

/// A run after a file was embedded and stored.
pub open spec fn after_indexed(
    run: RunModel,
    path: Seq<char>,
    hash: Seq<char>,
    chunks: nat,
) -> RunModel {
    RunModel {
        manifest: run.manifest.insert(path, hash),
        indexed: run.indexed + 1,
        chunks: run.chunks + chunks,
        ..run
    }
}

/// A run after a file that is gone was dropped from the store.
pub open spec fn after_removed(run: RunModel, path: Seq<char>) -> RunModel {
    RunModel { manifest: run.manifest.remove(path), removed: run.removed + 1, ..run }
}

/// Whether a list holds just the files that a manifest lists and that were not
/// seen, each once.
pub open spec fn are_gone(
    paths: Seq<Seq<char>>,
    manifest: Map<Seq<char>, Seq<char>>,
    seen: Seq<Seq<char>>,
) -> bool {
    &&& forall|path: Seq<char>|
        #[trigger] paths.contains(path) <==> manifest.contains_key(path) && !seen.contains(path)
    &&& paths.no_duplicates()
}

impl IndexRun {
    /// The manifest lists each file once, and no more files are counted than
    /// were seen.
    pub open spec fn wf(&self) -> bool {
        &&& self.manifest.wf()
        &&& self.report.unchanged_files + self.report.indexed_files <= self.seen@.len()
    }

    /// A run that has seen nothing yet.
    pub fn new(manifest: Manifest) -> (run: IndexRun)
        requires
            manifest.wf(),
        ensures
            run.wf(),
            run.manifest == manifest,
            run@ == started(manifest@),
    {
        let run: IndexRun = IndexRun {
            manifest,
            seen: Vec::new(),
            report: IndexReport::default(),
        };
        assert(run@.seen == Seq::<Seq<char>>::empty());
        run
    }

    /// Looks at a file: what is to be done for it.
    pub fn visit(&mut self, path: &str, extension: &str, content: &str) -> (visit: Visit)
        requires
            old(self).wf(),
        ensures
            final(self).wf(),
            visit@ == visited(
                old(self).manifest@,
                path@,
                content@,
                source_items(extension@, content@),
            ),
            final(self)@ == after_visit(old(self)@, path@, visit@),
            visit@ is Index ==> final(self).report.unchanged_files
                + final(self).report.indexed_files < final(self).seen@.len(),
    {
        let hash: String = content_hash(content);
        let copy: String = path.to_owned();
        self.seen.push(copy);
        let count: usize = self.seen.len();
        assert(texts(self.seen@) == texts(old(self).seen@).push(path@));
        if self.manifest.holds(path, hash.as_str()) {
            assert(self.report.unchanged_files < count);
            self.report.unchanged_files = self.report.unchanged_files + 1;
            return Visit::Unchanged;
        }
        match try_chunk_source(extension, content) {
            Some(chunks) => {
                if chunks.len() == 0 {
                    assert(chunk_models(chunks@).len() == 0);
                    return Visit::Empty;
                }
                let list: Vec<String> = embedding_texts(path, chunks.as_slice());
                assert(chunk_models(chunks@).len() > 0);
                Visit::Index { hash, chunks, texts: list }
            },
            None => Visit::Misplaced,
        }
    }

    /// Takes note that a file was embedded and stored.
    pub fn mark_indexed(&mut self, path: String, hash: String, chunks: usize)
        requires
            old(self).wf(),
            old(self).report.unchanged_files + old(self).report.indexed_files < old(
                self,
            ).seen@.len(),
            old(self).report.chunks + chunks <= usize::MAX,
        ensures
            final(self).wf(),
            final(self)@ == after_indexed(old(self)@, path@, hash@, chunks as nat),
    {
        let count: usize = self.seen.len();
        assert(self.report.indexed_files < count);
        self.manifest.insert(path, hash);
        self.report.indexed_files = self.report.indexed_files + 1;
        self.report.chunks = self.report.chunks + chunks;
    }

    /// The files that are listed but were not seen.
    pub fn gone(&self) -> (paths: Vec<String>)
        requires
            self.wf(),
        ensures
            are_gone(texts(paths@), self@.manifest, self@.seen),
    {
        let ghost entries = self.manifest.hashes.entries@;
        let mut paths: Vec<String> = Vec::new();
        let mut i: usize = 0;
        while i < self.manifest.hashes.entries.len()
            invariant
                self.wf(),
                entries == self.manifest.hashes.entries@,
                i <= entries.len(),
                forall|k: int|
                    0 <= k < paths@.len() ==> has_key(entries.take(i as int), (
                    #[trigger] paths@[k])@) && !texts(self.seen@).contains(paths@[k]@),
                forall|k: int|
                    0 <= k < i && !texts(self.seen@).contains((#[trigger] entries[k]).0@)
                        ==> texts(paths@).contains(entries[k].0@),
                texts(paths@).no_duplicates(),
            decreases entries.len() - i,
        {
            let key: &String = &self.manifest.hashes.entries[i].0;
            let ghost before = paths@;
            proof {
                lemma_prefix_keys(entries, i as int);
            }
            if !listed_in(key.as_str(), self.seen.as_slice()) {
                proof {
                    if texts(before).contains(key@) {
                        let k = choose|k: int|
                            0 <= k < texts(before).len() && texts(before)[k] == key@;
                        assert(before[k]@ == key@);
                        assert(has_key(entries.take(i as int), key@));
                    }
                }
                paths.push(key.clone());
                assert(texts(paths@) == texts(before).push(key@));
                assert(texts(paths@)[before.len() as int] == key@);
                assert forall|k: int|
                    0 <= k < i + 1 && !texts(self.seen@).contains(
                        (#[trigger] entries[k]).0@,
                    ) implies texts(paths@).contains(entries[k].0@) by {
                    if k < i {
                        let j = choose|j: int|
                            0 <= j < texts(before).len() && texts(before)[j] == entries[k].0@;
                        assert(texts(paths@)[j] == entries[k].0@);
                    }
                }
            }
            i += 1;
        }
        assert(entries.take(i as int) == entries);
        assert forall|path: Seq<char>| #[trigger] texts(paths@).contains(path) <==> (
        self.manifest@.contains_key(path) && !texts(self.seen@).contains(path)) by {
            if texts(paths@).contains(path) {
                let k = choose|k: int| 0 <= k < texts(paths@).len() && texts(paths@)[k] == path;
                assert(paths@[k]@ == path);
            }
            if self.manifest@.contains_key(path) && !texts(self.seen@).contains(path) {
                let k = choose|k: int| 0 <= k < entries.len() && (#[trigger] entries[k]).0@ == path;
                assert(texts(paths@).contains(entries[k].0@));
            }
        }
        paths
    }

    /// Takes note that a file that is gone was dropped from the store.
    pub fn mark_removed(&mut self, path: &str)
        requires
            old(self).wf(),
            old(self).report.removed_files < usize::MAX,
        ensures
            final(self).wf(),
            final(self)@ == after_removed(old(self)@, path@),
    {
        self.manifest.remove(path);
        self.report.removed_files = self.report.removed_files + 1;
    }
}

proof fn lemma_prefix_keys(entries: Seq<(String, String)>, i: int)
    requires
        distinct_keys(entries),
        0 <= i < entries.len(),
    ensures
        !has_key(entries.take(i), entries[i].0@),
        has_key(entries.take(i + 1), entries[i].0@),
        forall|key: Seq<char>| has_key(entries.take(i), key) ==> has_key(entries.take(i + 1), key),
{
    if has_key(entries.take(i), entries[i].0@) {
        let k = choose|k: int|
            0 <= k < i && (#[trigger] entries.take(i)[k]).0@ == entries[i].0@;
        assert(entries[k].0@ != entries[i].0@);
    }
    assert(entries.take(i + 1)[i] == entries[i]);
    assert forall|key: Seq<char>| has_key(entries.take(i), key) implies has_key(
        entries.take(i + 1),
        key,
    ) by {
        let k = choose|k: int| 0 <= k < i && (#[trigger] entries.take(i)[k]).0@ == key;
        assert(entries.take(i + 1)[k] == entries.take(i)[k]);
    }
}

/// The texts of chunks that are embedded.
fn embedding_texts(path: &str, chunks: &[Chunk]) -> (list: Vec<String>)
    ensures
        texts(list@) == chunk_models(chunks@).map_values(
            |c: ChunkModel| embedded_text(path@, c),
        ),
{
    let mut list: Vec<String> = Vec::new();
    let mut i: usize = 0;
    while i < chunks.len()
        invariant
            i <= chunks@.len(),
            list@.len() == i,
            forall|k: int|
                0 <= k < i ==> (#[trigger] list@[k])@ == embedded_text(path@, chunks@[k]@),
        decreases chunks@.len() - i,
    {
        list.push(embedding_text(path, &chunks[i]));
        i += 1;
    }
    assert(texts(list@) == chunk_models(chunks@).map_values(
        |c: ChunkModel| embedded_text(path@, c),
    ));
    list
}

/// A manifest without some files.
pub open spec fn purged(manifest: Map<Seq<char>, Seq<char>>, paths: Seq<Seq<char>>) -> Map<
    Seq<char>,
    Seq<char>,
>
    decreases paths.len(),
{
    if paths.len() == 0 {
        manifest
    } else {
        purged(manifest, paths.drop_last()).remove(paths.last())
    }
}

/// Once every file that is gone was dropped, the manifest lists just the files
/// that it listed and that were seen, as it listed them.
pub proof fn law_purge_leaves_seen_files(
    manifest: Map<Seq<char>, Seq<char>>,
    seen: Seq<Seq<char>>,
    gone: Seq<Seq<char>>,
)
    requires
        are_gone(gone, manifest, seen),
    ensures
        forall|path: Seq<char>|
            #[trigger] purged(manifest, gone).contains_key(path) <==> manifest.contains_key(path)
                && seen.contains(path),
        forall|path: Seq<char>|
            #[trigger] purged(manifest, gone).contains_key(path) ==> purged(manifest, gone)[path]
                == manifest[path],
{
    lemma_purged(manifest, gone);
    assert forall|path: Seq<char>| #[trigger] purged(manifest, gone).contains_key(path) <==> (
    manifest.contains_key(path) && seen.contains(path)) by {
        assert(gone.contains(path) <==> manifest.contains_key(path) && !seen.contains(path));
    }
}

proof fn lemma_purged(manifest: Map<Seq<char>, Seq<char>>, paths: Seq<Seq<char>>)
    ensures
        forall|path: Seq<char>|
            #[trigger] purged(manifest, paths).contains_key(path) <==> manifest.contains_key(path)
                && !paths.contains(path),
        forall|path: Seq<char>|
            #[trigger] purged(manifest, paths).contains_key(path) ==> purged(manifest, paths)[path]
                == manifest[path],
    decreases paths.len(),
{
    if paths.len() > 0 {
        let front = paths.drop_last();
        lemma_purged(manifest, front);
        assert forall|path: Seq<char>| paths.contains(path) <==> (front.contains(path) || path
            == paths.last()) by {
            if paths.contains(path) {
                let k = choose|k: int| 0 <= k < paths.len() && paths[k] == path;
                if k < front.len() {
                    assert(front[k] == path);
                }
            }
            if front.contains(path) {
                let k = choose|k: int| 0 <= k < front.len() && front[k] == path;
                assert(paths[k] == path);
            }
            if path == paths.last() {
                assert(paths[paths.len() - 1] == path);
            }
        }
        assert forall|path: Seq<char>| {
            &&& #[trigger] purged(manifest, paths).contains_key(path) <==> (manifest.contains_key(
                path,
            ) && !paths.contains(path))
            &&& purged(manifest, paths).contains_key(path) ==> purged(manifest, paths)[path]
                == manifest[path]
        } by {
            assert(purged(manifest, front).contains_key(path) <==> (manifest.contains_key(path)
                && !front.contains(path)));
            assert(paths.contains(path) <==> (front.contains(path) || path == paths.last()));
        }
    }
}

// ---------------------------------------------------------------------------
// A second run
// ---------------------------------------------------------------------------

/// A file of a project.
pub ghost struct FileModel {
    pub path: Seq<char>,
    pub extension: Seq<char>,
    pub content: Seq<char>,
}

/// What is to be done for a file, given the manifest.
pub open spec fn visit_of(manifest: Map<Seq<char>, Seq<char>>, file: FileModel) -> VisitModel {
    visited(manifest, file.path, file.content, source_items(file.extension, file.content))
}

/// A run after one more file: it is looked at, and embedded and stored where
/// that is to be done.
pub open spec fn run_step(run: RunModel, file: FileModel) -> RunModel {
    let visit = visit_of(run.manifest, file);
    let looked = after_visit(run, file.path, visit);
    match visit {
        VisitModel::Index { hash, chunks, .. } => after_indexed(
            looked,
            file.path,
            hash,
            chunks.len(),
        ),
        _ => looked,
    }
}

/// A run over several files.
pub open spec fn run_over(manifest: Map<Seq<char>, Seq<char>>, files: Seq<FileModel>) -> RunModel
    decreases files.len(),
{
    if files.len() == 0 {
        started(manifest)
    } else {
        run_step(run_over(manifest, files.drop_last()), files.last())
    }
}

/// A run after several files that are gone were dropped from the store.
pub open spec fn run_purged(run: RunModel, gone: Seq<Seq<char>>) -> RunModel
    decreases gone.len(),
{
    if gone.len() == 0 {
        run
    } else {
        after_removed(run_purged(run, gone.drop_last()), gone.last())
    }
}

/// Whether no two files have the same path.
pub open spec fn distinct_paths(files: Seq<FileModel>) -> bool {
    forall|i: int, j: int|
        0 <= i < j < files.len() ==> (#[trigger] files[i]).path != (#[trigger] files[j]).path
}

/// How many files are listed with the hash of their content.
pub open spec fn listed_as_they_are(
    manifest: Map<Seq<char>, Seq<char>>,
    files: Seq<FileModel>,
) -> nat
    decreases files.len(),
{
    if files.len() == 0 {
        0
    } else {
        listed_as_they_are(manifest, files.drop_last()) + if visit_of(
            manifest,
            files.last(),
        ) is Unchanged {
            1nat
        } else {
            0nat
        }
    }
}

/// Whether there is nothing to index among files.
spec fn nothing_to_index(manifest: Map<Seq<char>, Seq<char>>, files: Seq<FileModel>) -> bool {
    forall|i: int| 0 <= i < files.len() ==> !(visit_of(manifest, #[trigger] files[i]) is Index)
}

proof fn lemma_same_listing(
    one: Map<Seq<char>, Seq<char>>,
    other: Map<Seq<char>, Seq<char>>,
    files: Seq<FileModel>,
)
    requires
        forall|i: int|
            0 <= i < files.len() ==> {
                let path = (#[trigger] files[i]).path;
                &&& one.contains_key(path) == other.contains_key(path)
                &&& one.contains_key(path) ==> one[path] == other[path]
            },
    ensures
        listed_as_they_are(one, files) == listed_as_they_are(other, files),
        nothing_to_index(one, files) == nothing_to_index(other, files),
    decreases files.len(),
{
    assert forall|i: int| 0 <= i < files.len() implies visit_of(one, #[trigger] files[i])
        == visit_of(other, files[i]) by {
        assert(one.contains_key(files[i].path) == other.contains_key(files[i].path));
    }
    if files.len() > 0 {
        let front = files.drop_last();
        assert forall|i: int| 0 <= i < front.len() implies {
            let path = (#[trigger] front[i]).path;
            &&& one.contains_key(path) == other.contains_key(path)
            &&& one.contains_key(path) ==> one[path] == other[path]
        } by {
            assert(front[i] == files[i]);
        }
        lemma_same_listing(one, other, front);
        assert(files[files.len() - 1] == files.last());
    }
    if nothing_to_index(one, files) {
        assert forall|i: int| 0 <= i < files.len() implies !(visit_of(
            other,
            #[trigger] files[i],
        ) is Index) by {
            assert(visit_of(one, files[i]) == visit_of(other, files[i]));
        }
    }
    if nothing_to_index(other, files) {
        assert forall|i: int| 0 <= i < files.len() implies !(visit_of(
            one,
            #[trigger] files[i],
        ) is Index) by {
            assert(visit_of(one, files[i]) == visit_of(other, files[i]));
        }
    }
}

proof fn lemma_run_settles(manifest: Map<Seq<char>, Seq<char>>, files: Seq<FileModel>)
    requires
        distinct_paths(files),
    ensures
        ({
            let run = run_over(manifest, files);
            &&& run.seen == files.map_values(|f: FileModel| f.path)
            &&& run.removed == 0
            &&& nothing_to_index(run.manifest, files)
            &&& run.unchanged + run.indexed == listed_as_they_are(run.manifest, files)
        }),
    decreases files.len(),
{
    let run = run_over(manifest, files);
    if files.len() == 0 {
        assert(run.seen == files.map_values(|f: FileModel| f.path));
    } else {
        let front = files.drop_last();
        let last = files.last();
        assert(distinct_paths(front)) by {
            assert forall|i: int, j: int| 0 <= i < j < front.len() implies (
            #[trigger] front[i]).path != (#[trigger] front[j]).path by {
                assert(front[i] == files[i] && front[j] == files[j]);
            }
        }
        lemma_run_settles(manifest, front);
        let before = run_over(manifest, front);
        assert(run.seen == files.map_values(|f: FileModel| f.path));
        assert forall|i: int| 0 <= i < front.len() implies {
            let path = (#[trigger] front[i]).path;
            &&& before.manifest.contains_key(path) == run.manifest.contains_key(path)
            &&& before.manifest.contains_key(path) ==> before.manifest[path] == run.manifest[path]
        } by {
            assert(files[i] == front[i]);
            assert(files[i].path != files[files.len() - 1].path);
        }
        lemma_same_listing(before.manifest, run.manifest, front);
        assert forall|i: int| 0 <= i < files.len() implies !(visit_of(
            run.manifest,
            #[trigger] files[i],
        ) is Index) by {
            if i < front.len() {
                assert(front[i] == files[i]);
                assert(!(visit_of(run.manifest, front[i]) is Index));
            }
        }
    }
}

proof fn lemma_settled_run(manifest: Map<Seq<char>, Seq<char>>, files: Seq<FileModel>)
    requires
        nothing_to_index(manifest, files),
    ensures
        run_over(manifest, files) == (RunModel {
            seen: files.map_values(|f: FileModel| f.path),
            unchanged: listed_as_they_are(manifest, files),
            ..started(manifest)
        }),
    decreases files.len(),
{
    if files.len() == 0 {
        assert(files.map_values(|f: FileModel| f.path) == Seq::<Seq<char>>::empty());
    } else {
        let front = files.drop_last();
        assert(nothing_to_index(manifest, front)) by {
            assert forall|i: int| 0 <= i < front.len() implies !(visit_of(
                manifest,
                #[trigger] front[i],
            ) is Index) by {
                assert(front[i] == files[i]);
            }
        }
        lemma_settled_run(manifest, front);
        assert(!(visit_of(manifest, files[files.len() - 1]) is Index));
        assert(files.map_values(|f: FileModel| f.path) == front.map_values(
            |f: FileModel| f.path,
        ).push(files.last().path));
    }
}

proof fn lemma_run_purged(run: RunModel, gone: Seq<Seq<char>>)
    ensures
        run_purged(run, gone) == (RunModel {
            manifest: purged(run.manifest, gone),
            removed: run.removed + gone.len(),
            ..run
        }),
    decreases gone.len(),
{
    if gone.len() > 0 {
        lemma_run_purged(run, gone.drop_last());
    }
}

/// A second run over the same files does nothing: it embeds no file, drops none
/// from the store, counts as unchanged just the files that the first run
/// indexed or found unchanged, and leaves the manifest as it is.
pub proof fn law_second_run_does_nothing(
    manifest: Map<Seq<char>, Seq<char>>,
    files: Seq<FileModel>,
    gone: Seq<Seq<char>>,
    gone_then: Seq<Seq<char>>,
)
    requires
        distinct_paths(files),
        are_gone(gone, run_over(manifest, files).manifest, run_over(manifest, files).seen),
        ({
            let first = run_purged(run_over(manifest, files), gone);
            let second = run_over(first.manifest, files);
            are_gone(gone_then, second.manifest, second.seen)
        }),
    ensures
        ({
            let first = run_purged(run_over(manifest, files), gone);
            let second = run_purged(run_over(first.manifest, files), gone_then);
            &&& forall|i: int|
                0 <= i < files.len() ==> !(visit_of(
                    run_over(first.manifest, files.take(i)).manifest,
                    #[trigger] files[i],
                ) is Index)
            &&& gone_then.len() == 0
            &&& second.indexed == 0
            &&& second.removed == 0
            &&& second.chunks == 0
            &&& second.unchanged == first.indexed + first.unchanged
            &&& second.manifest == first.manifest
        }),
{
    let walked = run_over(manifest, files);
    let first = run_purged(walked, gone);
    lemma_run_settles(manifest, files);
    lemma_run_purged(walked, gone);
    law_purge_leaves_seen_files(walked.manifest, walked.seen, gone);
    assert forall|i: int| 0 <= i < files.len() implies {
        let path = (#[trigger] files[i]).path;
        &&& walked.manifest.contains_key(path) == first.manifest.contains_key(path)
        &&& walked.manifest.contains_key(path) ==> walked.manifest[path] == first.manifest[path]
    } by {
        let path = files[i].path;
        assert(walked.seen[i] == path);
        assert(walked.seen.contains(path));
        assert(purged(walked.manifest, gone).contains_key(path) <==> walked.manifest.contains_key(
            path,
        ));
    }
    lemma_same_listing(walked.manifest, first.manifest, files);
    lemma_settled_run(first.manifest, files);
    let again = run_over(first.manifest, files);
    assert(gone_then.len() == 0) by {
        if gone_then.len() > 0 {
            let path = gone_then[0];
            assert(gone_then.contains(path));
            assert(again.manifest.contains_key(path) && !again.seen.contains(path));
            assert(purged(walked.manifest, gone).contains_key(path));
        }
    }
    assert forall|i: int| 0 <= i < files.len() implies !(visit_of(
        run_over(first.manifest, files.take(i)).manifest,
        #[trigger] files[i],
    ) is Index) by {
        let front = files.take(i);
        assert(nothing_to_index(first.manifest, front)) by {
            assert forall|k: int| 0 <= k < front.len() implies !(visit_of(
                first.manifest,
                #[trigger] front[k],
            ) is Index) by {
                assert(front[k] == files[k]);
            }
        }
        lemma_settled_run(first.manifest, front);
    }
}

// ---------------------------------------------------------------------------
// What is indexed
// ---------------------------------------------------------------------------

/// The walk stays out of everything that is hidden, and out of what is built,
/// fetched, cached or stored; nothing else is left out.
pub proof fn law_hidden_and_built_are_not_entered(name: Seq<char>)
    ensures
        enters(name) <==> {
            ||| name == seq!['.']
            ||| (name.len() == 0 || name[0] != '.') && name != "target"@ && name
                != "node_modules"@ && name != "__pycache__"@ && name != "qdrant_storage"@
        },
{
    reveal_strlit(".");
    reveal_strlit(".git");
    reveal_strlit(".venv");
    reveal_strlit(".claus");
    reveal_strlit("target");
    reveal_strlit("node_modules");
    reveal_strlit("__pycache__");
    reveal_strlit("qdrant_storage");
    assert("."@ == seq!['.']);
    assert(".git"@[0] == '.' && ".venv"@[0] == '.' && ".claus"@[0] == '.');
    assert(".git"@.len() == 4 && ".venv"@.len() == 5 && ".claus"@.len() == 6);
    assert("target"@[0] == 't' && "node_modules"@[0] == 'n');
    assert("__pycache__"@[0] == '_' && "qdrant_storage"@[0] == 'q');
    let list = skip_dirs();
    assert(list[0] == ".git"@ && list[1] == "target"@ && list[2] == "node_modules"@ && list[3]
        == ".venv"@ && list[4] == "__pycache__"@ && list[5] == ".claus"@ && list[6]
        == "qdrant_storage"@);
    lemma_utf8_len_bounds(name);
    if name.len() > 0 {
        assert(name.subrange(0, 1) == seq![name[0]]);
    }
    assert(begins_with(name, "."@) <==> name.len() > 0 && name[0] == '.') by {
        if begins_with(name, "."@) {
            assert(name.subrange(0, 1)[0] == "."@[0]);
        }
    }
    if name.len() == 1 && name[0] == '.' {
        assert(name == seq!['.']);
        assert(Seq::<char>::empty().push('.') == name);
        lemma_utf8_len_push(Seq::empty(), '.');
        lemma_utf8_len_bounds(Seq::empty());
        lemma_dot_is_one_byte();
    }
}

proof fn lemma_dot_is_one_byte()
    ensures
        utf8_width('.') == 1,
{
    broadcast use vstd::utf8::group_utf8_lib;

    assert(('.' as u32) == 46);
}

/// Just files of these kinds are indexed: code, and the text around it.
pub proof fn law_code_and_text_is_indexed(extension: Seq<char>)
    ensures
        text_extensions().contains(extension) <==> {
            ||| extension == "rs"@ || extension == "py"@ || extension == "js"@ || extension
                == "jsx"@ || extension == "ts"@ || extension == "tsx"@
            ||| extension == "go"@ || extension == "java"@ || extension == "kt"@ || extension
                == "c"@ || extension == "h"@ || extension == "cpp"@
            ||| extension == "hpp"@ || extension == "md"@ || extension == "toml"@ || extension
                == "yaml"@ || extension == "yml"@ || extension == "json"@
            ||| extension == "sh"@ || extension == "sql"@ || extension == "html"@ || extension
                == "css"@
        },
{
    let all = text_extensions();
    assert(all.len() == 22);
    assert(all[0] == "rs"@ && all[1] == "py"@ && all[2] == "js"@ && all[3] == "jsx"@ && all[4]
        == "ts"@ && all[5] == "tsx"@);
    assert(all[6] == "go"@ && all[7] == "java"@ && all[8] == "kt"@ && all[9] == "c"@ && all[10]
        == "h"@ && all[11] == "cpp"@);
    assert(all[12] == "hpp"@ && all[13] == "md"@ && all[14] == "toml"@ && all[15] == "yaml"@
        && all[16] == "yml"@ && all[17] == "json"@);
    assert(all[18] == "sh"@ && all[19] == "sql"@ && all[20] == "html"@ && all[21] == "css"@);
}

/// The number that a hexadecimal digit stands for.
pub open spec fn hex_value(c: char) -> int {
    if '0' <= c <= '9' {
        c as int - '0' as int
    } else {
        c as int - 'a' as int + 10
    }
}

proof fn lemma_hex_digit(d: int)
    requires
        0 <= d < 16,
    ensures
        hex_value(hex_digit(d)) == d,
        '0' <= hex_digit(d) <= '9' || 'a' <= hex_digit(d) <= 'f',
{
}

/// Hexadecimal notation has two digits for each byte, in order, of which the
/// first counts sixteen times; the bytes can be told from it.
pub proof fn law_hex_is_read_back(bytes: Seq<u8>)
    ensures
        hex(bytes).len() == 2 * bytes.len(),
        forall|i: int|
            0 <= i < hex(bytes).len() ==> {
                let c = #[trigger] hex(bytes)[i];
                '0' <= c <= '9' || 'a' <= c <= 'f'
            },
        forall|i: int|
            0 <= i < bytes.len() ==> #[trigger] bytes[i] == 16 * hex_value(hex(bytes)[2 * i])
                + hex_value(hex(bytes)[2 * i + 1]),
{
    assert forall|i: int| 0 <= i < bytes.len() implies #[trigger] bytes[i] == 16 * hex_value(
        hex(bytes)[2 * i],
    ) + hex_value(hex(bytes)[2 * i + 1]) by {
        assert((2 * i) / 2 == i && (2 * i) % 2 == 0);
        assert((2 * i + 1) / 2 == i && (2 * i + 1) % 2 == 1);
        let byte = bytes[i] as int;
        assert(hex(bytes)[2 * i] == hex_digit(byte / 16));
        assert(hex(bytes)[2 * i + 1] == hex_digit(byte % 16));
        lemma_hex_digit(byte / 16);
        lemma_hex_digit(byte % 16);
    }
    assert forall|i: int| 0 <= i < hex(bytes).len() implies {
        let c = #[trigger] hex(bytes)[i];
        '0' <= c <= '9' || 'a' <= c <= 'f'
    } by {
        let byte = bytes[i / 2] as int;
        lemma_hex_digit(byte / 16);
        lemma_hex_digit(byte % 16);
    }
}

/// A file that is new or changed is indexed whole: all its chunks, in order,
/// under the hash of its content, and with each the text that is embedded for
/// it, which says where the chunk is and all that it holds.
pub proof fn law_changed_file_is_indexed_whole(
    manifest: Map<Seq<char>, Seq<char>>,
    path: Seq<char>,
    content: Seq<char>,
    items: Option<Seq<(usize, usize)>>,
)
    requires
        !(manifest.contains_key(path) && manifest[path] == hash_of(content)),
        rows_fit(content, items),
    ensures
        ({
            let visit = visited(manifest, path, content, items);
            let all = source_chunks(content, items);
            &&& all.len() == 0 <==> visit is Empty
            &&& all.len() > 0 ==> {
                &&& visit matches VisitModel::Index { hash, chunks, texts }
                &&& hash == hash_of(content)
                &&& chunks == all
                &&& texts.len() == all.len()
                &&& forall|i: int|
                    0 <= i < all.len() ==> #[trigger] texts[i] == "// "@ + path + ":"@ + decimal(
                        all[i].start_line as nat,
                    ) + "\n"@ + all[i].text
            }
        }),
{
}

/// Each step of a run changes what it says and nothing else: a look lists the
/// file as seen, and counts it where it is unchanged; storing lists it with its
/// hash and counts it and its chunks; dropping takes it off the list and counts
/// it.
pub proof fn law_steps_of_a_run(
    run: RunModel,
    path: Seq<char>,
    visit: VisitModel,
    hash: Seq<char>,
    chunks: nat,
    other: Seq<char>,
)
    ensures
        ({
            let looked = after_visit(run, path, visit);
            &&& looked.seen == run.seen + seq![path]
            &&& visit is Unchanged ==> looked.unchanged == run.unchanged + 1
            &&& !(visit is Unchanged) ==> looked.unchanged == run.unchanged
            &&& looked.manifest == run.manifest && looked.indexed == run.indexed
            &&& looked.removed == run.removed && looked.chunks == run.chunks
        }),
        ({
            let stored = after_indexed(run, path, hash, chunks);
            &&& stored.manifest.contains_key(path) && stored.manifest[path] == hash
            &&& other != path ==> {
                &&& stored.manifest.contains_key(other) == run.manifest.contains_key(other)
                &&& stored.manifest[other] == run.manifest[other]
            }
            &&& stored.indexed == run.indexed + 1 && stored.chunks == run.chunks + chunks
            &&& stored.seen == run.seen && stored.unchanged == run.unchanged
            &&& stored.removed == run.removed
        }),
        ({
            let dropped = after_removed(run, path);
            &&& !dropped.manifest.contains_key(path)
            &&& other != path ==> {
                &&& dropped.manifest.contains_key(other) == run.manifest.contains_key(other)
                &&& run.manifest.contains_key(other) ==> dropped.manifest[other]
                    == run.manifest[other]
            }
            &&& dropped.removed == run.removed + 1
            &&& dropped.seen == run.seen && dropped.unchanged == run.unchanged
            &&& dropped.indexed == run.indexed && dropped.chunks == run.chunks
        }),
{
}

/// A run indexes just the files that are new or changed and make chunks, lists
/// each with the hash of its content, and leaves the entries of all other files
/// as they are.
pub proof fn law_run_lists_what_it_indexes(
    manifest: Map<Seq<char>, Seq<char>>,
    files: Seq<FileModel>,
)
    requires
        distinct_paths(files),
    ensures
        ({
            let run = run_over(manifest, files);
            &&& run.seen.len() == files.len()
            &&& forall|i: int| 0 <= i < files.len() ==> run.seen[i] == (#[trigger] files[i]).path
            &&& forall|i: int|
                0 <= i < files.len() ==> {
                    let path = (#[trigger] files[i]).path;
                    let visit = visit_of(manifest, files[i]);
                    if visit is Index || visit is Unchanged {
                        run.manifest.contains_key(path) && run.manifest[path] == hash_of(
                            files[i].content,
                        )
                    } else {
                        &&& run.manifest.contains_key(path) == manifest.contains_key(path)
                        &&& run.manifest[path] == manifest[path]
                    }
                }
            &&& forall|path: Seq<char>|
                (forall|i: int| 0 <= i < files.len() ==> (#[trigger] files[i]).path != path) ==> {
                    &&& #[trigger] run.manifest.contains_key(path) == manifest.contains_key(path)
                    &&& run.manifest[path] == manifest[path]
                }
            &&& run.indexed == files.filter(
                |f: FileModel| visit_of(manifest, f) is Index,
            ).len()
            &&& run.unchanged == files.filter(
                |f: FileModel| visit_of(manifest, f) is Unchanged,
            ).len()
        }),
    decreases files.len(),
{
    reveal(Seq::filter);
    let run = run_over(manifest, files);
    if files.len() > 0 {
        let front = files.drop_last();
        let last = files.last();
        assert(distinct_paths(front)) by {
            assert forall|i: int, j: int| 0 <= i < j < front.len() implies (
            #[trigger] front[i]).path != (#[trigger] front[j]).path by {
                assert(front[i] == files[i] && front[j] == files[j]);
            }
        }
        law_run_lists_what_it_indexes(manifest, front);
        let before = run_over(manifest, front);
        assert forall|i: int| 0 <= i < front.len() implies (#[trigger] front[i]).path
            != last.path by {
            assert(files[i] == front[i]);
            assert(files[i].path != files[files.len() - 1].path);
        }
        assert(before.manifest.contains_key(last.path) == manifest.contains_key(last.path));
        assert(visit_of(before.manifest, last) == visit_of(manifest, last));
        assert forall|i: int| 0 <= i < files.len() implies {
            let path = (#[trigger] files[i]).path;
            let visit = visit_of(manifest, files[i]);
            if visit is Index || visit is Unchanged {
                run.manifest.contains_key(path) && run.manifest[path] == hash_of(files[i].content)
            } else {
                &&& run.manifest.contains_key(path) == manifest.contains_key(path)
                &&& run.manifest[path] == manifest[path]
            }
        } by {
            if i < front.len() {
                assert(front[i] == files[i]);
                assert(front[i].path != last.path);
            }
        }
        assert forall|i: int| 0 <= i < files.len() implies run.seen[i] == (
        #[trigger] files[i]).path by {
            if i < front.len() {
                assert(front[i] == files[i]);
            }
        }
        assert forall|path: Seq<char>|
            (forall|i: int| 0 <= i < files.len() ==> (#[trigger] files[i]).path != path) implies {
            &&& #[trigger] run.manifest.contains_key(path) == manifest.contains_key(path)
            &&& run.manifest[path] == manifest[path]
        } by {
            assert(files[files.len() - 1].path != path);
            assert forall|i: int| 0 <= i < front.len() implies (#[trigger] front[i]).path
                != path by {
                assert(files[i] == front[i]);
            }
            assert(before.manifest.contains_key(path) == manifest.contains_key(path));
        }
    }
}

/// Just files of the right kind that are not too large are indexed; one whose
/// size is not known is not.
pub proof fn law_large_files_are_not_indexed(
    is_file: bool,
    size: Option<u64>,
    extension: Option<&str>,
    indexed: bool,
)
    requires
        call_ensures(is_indexed, (is_file, size, extension), indexed),
    ensures
        !is_file ==> !indexed,
        size is None ==> !indexed,
        extension is None ==> !indexed,
        size matches Some(n) ==> (n > 1_000_000 ==> !indexed),
        extension matches Some(e) ==> (!text_extensions().contains(e@) ==> !indexed),
        is_file && (size matches Some(n) && n <= 1_000_000) && (extension matches Some(e)
            && text_extensions().contains(e@)) ==> indexed,
{
}

/// A change to a file counts just if the walk would reach the file: every name
/// on its way is entered, and it is of the right kind.
pub proof fn law_changes_out_of_reach_do_not_count(
    names: &[String],
    extension: Option<&str>,
    counts: bool,
)
    requires
        call_ensures(is_indexable, (names, extension), counts),
    ensures
        forall|i: int|
            0 <= i < names@.len() && !enters((#[trigger] names@[i])@) ==> !counts,
        extension is None ==> !counts,
        extension matches Some(e) ==> (!text_extensions().contains(e@) ==> !counts),
        (forall|i: int| 0 <= i < names@.len() ==> enters((#[trigger] names@[i])@)) && (
        extension matches Some(e) && text_extensions().contains(e@)) ==> counts,
{
    assert forall|i: int|
        0 <= i < names@.len() && !enters((#[trigger] names@[i])@) implies !counts by {
        assert(!enters(texts(names@)[i]));
    }
}

/// A background run that changed files tells how many, and one that changed none
/// tells nothing.
pub proof fn law_only_changes_are_told(report: IndexReport, note: Option<String>)
    requires
        call_ensures(IndexReport::note, (&report,), note),
    ensures
        note is None <==> report.indexed_files == 0 && report.removed_files == 0,
        note matches Some(words) ==> words@ == "reindexed "@ + decimal(
            (report.indexed_files + report.removed_files) as nat,
        ) + " changed file(s)"@,
{
}

/// A run starts from the manifest as it is and has counted nothing, and a report
/// tells each of its counts.
pub proof fn law_runs_start_from_nothing(
    manifest: Map<Seq<char>, Seq<char>>,
    report: IndexReport,
    words: String,
)
    requires
        call_ensures(IndexReport::summary, (&report,), words),
    ensures
        started(manifest).manifest == manifest,
        started(manifest).seen.len() == 0,
        started(manifest).indexed == 0 && started(manifest).removed == 0,
        started(manifest).unchanged == 0 && started(manifest).chunks == 0,
        words@ == "indexed "@ + decimal(report.indexed_files as nat) + " file(s) ("@ + decimal(
            report.chunks as nat,
        ) + " chunks), "@ + decimal(report.unchanged_files as nat) + " unchanged, "@ + decimal(
            report.removed_files as nat,
        ) + " removed"@,
{
}

/// The manifest that a document holds is that of its texts, and there is none in
/// a document that holds anything else.
pub proof fn law_other_documents_hold_no_manifest(document: JsonModel)
    ensures
        manifest_of(None) == Map::<Seq<char>, Seq<char>>::empty(),
        !(document is Object) ==> manifest_of(Some(document)) == Map::<
            Seq<char>,
            Seq<char>,
        >::empty(),
        document matches JsonModel::Object(entries) ==> (text_map(entries) is None
            ==> manifest_of(Some(document)) == Map::<Seq<char>, Seq<char>>::empty()),
        document matches JsonModel::Object(entries) ==> (text_map(entries) matches Some(listed)
            ==> manifest_of(Some(document)) == listed),
{
}

/// The hash of a text and the name of a project's collection are made of the
/// digest of the text and of the path.
pub proof fn law_hashes_are_hexadecimal_digests(text: &str, hash: String, root: &str, name: String)
    requires
        call_ensures(content_hash, (text,), hash),
        call_ensures(collection_name, (root,), name),
    ensures
        hash@ == hex(digest(encode_utf8(text@))),
        name@ == "claus-"@ + hex(digest(encode_utf8(root@))).take(12),
{
}

} // verus!
