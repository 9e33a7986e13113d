//! Literal search over the files of a directory.

use vstd::prelude::*;
use vstd::string::*;

use crate::api::types::{DefinitionModel, ToolDefinition};
use crate::json::{as_text, at, Json, JsonModel};
use crate::text::layout::{
    feed_pieces, law_joined_lines_part_again, lines, lines_of, trim, trimmed,
};
use crate::text::number::{decimal, decimal_of};
use crate::text::search::{
    begins_with, contains, occurs_at, occurs_in, one_of, slice_texts, starts_with,
};
use crate::text::{join, joined, same_text, texts, utf8_len};
use crate::tools::schema::{
    missing_words, optional_str, parameter, parameter_model, parameter_models, required_str,
    schema, schema_model, text_or, Parameter,
};
use crate::tools::{clip, clipped};

verus! {

broadcast use {
    vstd::string::group_string_axioms,
    vstd::seq_lib::group_seq_properties,
};

/// Longer output is clipped.
pub const MAX_OUTPUT: usize = 30_000;

/// The search ends with this many matches.
pub const MAX_MATCHES: usize = 200;

/// Directories that are not searched.
pub open spec fn unsearched_dirs() -> Seq<Seq<char>> {
    seq![".git"@, "target"@, "node_modules"@, ".venv"@, "__pycache__"@, ".claus"@]
}

/// Whether the search enters an entry with a name: it is neither listed nor
/// hidden, or it is the current directory.
pub open spec fn searches(name: Seq<char>) -> bool {
    (!unsearched_dirs().contains(name) && !begins_with(name, "."@)) || name == "."@
}

/// Whether the search enters an entry with a name.
pub fn is_searched(name: &str) -> (res: bool)
    ensures
        res == searches(name@),
{
    let listed: [&str; 6] = [".git", "target", "node_modules", ".venv", "__pycache__", ".claus"];
    assert(slice_texts(listed@) == unsearched_dirs());
    (!one_of(name, listed.as_slice()) && !starts_with(name, ".")) || same_text(name, ".")
}

/// A match as it is reported: where it is, and the line without the white
/// space around it.
pub open spec fn match_words(path: Seq<char>, row: int, line: Seq<char>) -> Seq<char> {
    path + ":"@ + decimal((row + 1) as nat) + ": "@ + trimmed(line)
}

/// The matches in the first `n` lines of a file.
pub open spec fn matches_in(
    path: Seq<char>,
    all: Seq<Seq<char>>,
    query: Seq<char>,
    n: int,
) -> Seq<Seq<char>>
    decreases n,
{
    if n <= 0 {
        Seq::empty()
    } else if occurs_in(all[n - 1], query) {
        matches_in(path, all, query, n - 1).push(match_words(path, n - 1, all[n - 1]))
    } else {
        matches_in(path, all, query, n - 1)
    }
}

/// The matches in a file.
pub open spec fn file_matches(path: Seq<char>, content: Seq<char>, query: Seq<char>) -> Seq<
    Seq<char>,
> {
    matches_in(path, lines_of(content), query, lines_of(content).len() as int)
}

/// The first matches, no more than are reported.
pub open spec fn first_matches(all: Seq<Seq<char>>) -> Seq<Seq<char>> {
    if all.len() <= MAX_MATCHES {
        all
    } else {
        all.take(MAX_MATCHES as int)
    }
}

/// The matches that a search reports after it looked at one more file.
pub open spec fn after_scan(
    matches: Seq<Seq<char>>,
    path: Seq<char>,
    content: Seq<char>,
    query: Seq<char>,
) -> Seq<Seq<char>> {
    first_matches(matches + file_matches(path, content, query))
}

/// What a search answers, given the matches that it reports.
pub open spec fn found_words(matches: Seq<Seq<char>>) -> Seq<char> {
    if matches.len() == 0 {
        "no matches"@
    } else {
        clipped(joined(matches, "\n"@), MAX_OUTPUT as nat)
    }
}

/// Searches files for a literal substring.
#[derive(Clone, Copy, Debug)]
pub struct SearchText;

/// What a call of [`SearchText`] asks for.
#[derive(Debug)]
pub struct SearchRequest {
    pub query: String,
    pub root: String,
}

/// A search under way.
#[derive(Debug)]
pub struct Search {
    pub query: String,
    pub matches: Vec<String>,
}

impl SearchText {
    /// What the model is told of the tool.
    pub open spec fn told() -> DefinitionModel {
        DefinitionModel {
            name: "search_text"@,
            description: "Search files recursively for a literal substring; returns path:line matches. For meaning-based lookup over the indexed codebase prefer rag_search."@,
            input_schema: schema_model(
                seq![
                    parameter_model("query"@, "string"@, "Literal substring to look for"@),
                    parameter_model(
                        "path"@,
                        "string"@,
                        "Root directory (default: current directory)"@,
                    ),
                ],
                seq!["query"@],
            ),
        }
    }

    /// The name of the tool.
    pub fn name(&self) -> (name: &'static str)
        ensures
            name@ == Self::told().name,
    {
        "search_text"
    }

    /// What the tool does, for the model.
    pub fn description(&self) -> (text: &'static str)
        ensures
            text@ == Self::told().description,
    {
        "Search files recursively for a literal substring; returns path:line matches. For meaning-based lookup over the indexed codebase prefer rag_search."
    }

    /// What the model is told of the tool.
    pub fn definition(&self) -> (definition: ToolDefinition)
        ensures
            definition@ == Self::told(),
    {
        ToolDefinition {
            name: self.name().to_owned(),
            description: self.description().to_owned(),
            input_schema: self.input_schema(),
        }
    }

    /// What the tool takes, for the model.
    pub fn input_schema(&self) -> (document: Json)
        ensures
            document@ == Self::told().input_schema,
    {
        let parameters: [Parameter; 2] = [
            parameter("query", "string", "Literal substring to look for"),
            parameter("path", "string", "Root directory (default: current directory)"),
        ];
        let required: [&str; 1] = ["query"];
        let document: Json = schema(parameters.as_slice(), required.as_slice());
        assert(parameter_models(parameters@) == seq![
            parameter_model("query"@, "string"@, "Literal substring to look for"@),
            parameter_model("path"@, "string"@, "Root directory (default: current directory)"@),
        ]);
        assert(slice_texts(required@) == seq!["query"@]);
        document
    }

    /// What a call asks for.
    pub fn request(&self, input: &Json) -> (res: Result<SearchRequest, String>)
        ensures
            match res {
                Ok(request) => {
                    &&& as_text(at(input@, "query"@)) == Some(request.query@)
                    &&& request.root@ == text_or(at(input@, "path"@), "."@)
                },
                Err(error) => {
                    &&& as_text(at(input@, "query"@)) is None
                    &&& error@ == missing_words("query"@)
                },
            },
    {
        match required_str(input, "query") {
            Ok(query) => Ok(
                SearchRequest {
                    query: query.to_owned(),
                    root: optional_str(input, "path", "."),
                },
            ),
            Err(error) => Err(error),
        }
    }
}

impl Search {
    /// A search that has looked at no file.
    pub fn new(query: &str) -> (search: Search)
        ensures
            search.query@ == query@,
            texts(search.matches@) == Seq::<Seq<char>>::empty(),
    {
        let search: Search = Search { query: query.to_owned(), matches: Vec::new() };
        assert(texts(search.matches@) == Seq::<Seq<char>>::empty());
        search
    }

    /// Looks at a file. The result tells whether the search has all the matches
    /// that it reports, so that it ends.
    pub fn scan(&mut self, path: &str, content: &str) -> (done: bool)
        requires
            old(self).matches@.len() < MAX_MATCHES,
        ensures
            final(self).query == old(self).query,
            texts(final(self).matches@) == after_scan(
                texts(old(self).matches@),
                path@,
                content@,
                old(self).query@,
            ),
            done == (final(self).matches@.len() >= MAX_MATCHES),
    {
        let all: Vec<String> = lines(content);
        let ghost rows = lines_of(content@);
        let ghost before = texts(self.matches@);
        let ghost query = self.query@;
        let count: usize = all.len();
        let mut i: usize = 0;
        assert(before + matches_in(path@, rows, query, 0) == before);
        while i < count
            invariant
                i <= count,
                count == all@.len(),
                rows == texts(all@),
                rows == lines_of(content@),
                before == texts(old(self).matches@),
                query == old(self).query@,
                self.query == old(self).query,
                texts(self.matches@) == before + matches_in(path@, rows, query, i as int),
                self.matches@.len() < MAX_MATCHES,
            decreases count - i,
        {
            let ghost now = self.matches@;
            if contains(all[i].as_str(), self.query.as_str()) {
                let number: String = decimal_of(i + 1);
                let line: String = trim(all[i].as_str());
                let words: String = path.to_owned().concat(":").concat(number.as_str()).concat(
                    ": ",
                ).concat(line.as_str());
                self.matches.push(words);
                assert(texts(self.matches@) == texts(now).push(words@));
                assert(texts(self.matches@) == before + matches_in(path@, rows, query, i + 1));
                if self.matches.len() >= MAX_MATCHES {
                    proof {
                        lemma_more_matches(path@, rows, query, i + 1, count as int);
                        let found = before + matches_in(path@, rows, query, count as int);
                        assert(found.take(MAX_MATCHES as int) == texts(self.matches@));
                        if found.len() == MAX_MATCHES {
                            assert(found == texts(self.matches@));
                        }
                    }
                    return true;
                }
            }
            i += 1;
        }
        false
    }

    /// What the search answers.
    pub fn answer(&self) -> (output: String)
        ensures
            output@ == found_words(texts(self.matches@)),
    {
        if self.matches.len() == 0 {
            "no matches".to_owned()
        } else {
            clip(join(self.matches.as_slice(), "\n"), MAX_OUTPUT)
        }
    }
}

proof fn lemma_more_matches(
    path: Seq<char>,
    all: Seq<Seq<char>>,
    query: Seq<char>,
    n: int,
    m: int,
)
    requires
        0 <= n <= m,
    ensures
        matches_in(path, all, query, n).is_prefix_of(matches_in(path, all, query, m)),
    decreases m - n,
{
    if n < m {
        lemma_more_matches(path, all, query, n, m - 1);
        let few = matches_in(path, all, query, n);
        let some = matches_in(path, all, query, m - 1);
        let more = matches_in(path, all, query, m);
        assert(few == some.take(few.len() as int));
        assert(some.take(few.len() as int) == more.take(few.len() as int));
    }
}

/// The matches in several files, in order.
pub open spec fn all_matches(files: Seq<(Seq<char>, Seq<char>)>, query: Seq<char>) -> Seq<
    Seq<char>,
>
    decreases files.len(),
{
    if files.len() == 0 {
        Seq::empty()
    } else {
        all_matches(files.drop_last(), query) + file_matches(
            files.last().0,
            files.last().1,
            query,
        )
    }
}

/// A search that goes on file by file reports the first matches of all the
/// files together: one more file adds its matches at the end, and a search
/// that has ended misses nothing that it would report.
pub proof fn law_search_reports_the_first_matches(
    files: Seq<(Seq<char>, Seq<char>)>,
    file: (Seq<char>, Seq<char>),
    query: Seq<char>,
)
    ensures
        ({
            let so_far = first_matches(all_matches(files, query));
            let then = first_matches(all_matches(files.push(file), query));
            if so_far.len() < MAX_MATCHES {
                then == first_matches(so_far + file_matches(file.0, file.1, query))
            } else {
                then == so_far
            }
        }),
{
    let before = all_matches(files, query);
    assert(files.push(file).drop_last() == files);
    let after = all_matches(files.push(file), query);
    assert(after == before + file_matches(file.0, file.1, query));
    if before.len() >= MAX_MATCHES {
        assert(after.take(MAX_MATCHES as int) == before.take(MAX_MATCHES as int));
        assert(before.take(MAX_MATCHES as int).len() == MAX_MATCHES);
        assert(first_matches(after) == first_matches(before));
    }
}

/// Just the lines in which the query stands are matches: one match for each
/// line that holds the query at some position, with the number of the line and
/// the line without the white space around it, in the order of the lines, and
/// none for any other. The rows of these lines are returned.
pub proof fn law_matches_are_the_lines_with_the_query(
    path: Seq<char>,
    content: Seq<char>,
    query: Seq<char>,
) -> (rows: Seq<int>)
    ensures
        ({
            let all = lines_of(content);
            let found = file_matches(path, content, query);
            &&& found.len() == rows.len()
            &&& forall|k: int|
                0 <= k < rows.len() ==> {
                    &&& 0 <= #[trigger] rows[k] < all.len()
                    &&& found[k] == path + ":"@ + decimal((rows[k] + 1) as nat) + ": "@ + trimmed(
                        all[rows[k]],
                    )
                }
            &&& forall|k: int, l: int|
                0 <= k < l < rows.len() ==> #[trigger] rows[k] < #[trigger] rows[l]
            &&& forall|row: int|
                0 <= row < all.len() ==> (#[trigger] rows.contains(row) <==> exists|at: int|
                    0 <= at && at + query.len() <= all[row].len() && #[trigger] all[row].subrange(
                        at,
                        at + query.len(),
                    ) == query)
        }),
{
    lemma_matching_rows(path, lines_of(content), query, lines_of(content).len() as int)
}

proof fn lemma_matching_rows(
    path: Seq<char>,
    all: Seq<Seq<char>>,
    query: Seq<char>,
    n: int,
) -> (rows: Seq<int>)
    requires
        0 <= n <= all.len(),
    ensures
        ({
            let found = matches_in(path, all, query, n);
            &&& found.len() == rows.len()
            &&& forall|k: int|
                0 <= k < rows.len() ==> {
                    &&& 0 <= #[trigger] rows[k] < n
                    &&& found[k] == path + ":"@ + decimal((rows[k] + 1) as nat) + ": "@ + trimmed(
                        all[rows[k]],
                    )
                }
            &&& forall|k: int, l: int|
                0 <= k < l < rows.len() ==> #[trigger] rows[k] < #[trigger] rows[l]
            &&& forall|row: int|
                0 <= row < n ==> (#[trigger] rows.contains(row) <==> exists|at: int|
                    0 <= at && at + query.len() <= all[row].len() && #[trigger] all[row].subrange(
                        at,
                        at + query.len(),
                    ) == query)
        }),
    decreases n,
{
    if n == 0 {
        Seq::empty()
    } else {
        let before = lemma_matching_rows(path, all, query, n - 1);
        let line = all[n - 1];
        let here = exists|at: int|
            0 <= at && at + query.len() <= line.len() && #[trigger] line.subrange(
                at,
                at + query.len(),
            ) == query;
        assert(here <==> occurs_in(line, query)) by {
            if here {
                let at = choose|at: int|
                    0 <= at && at + query.len() <= line.len() && #[trigger] line.subrange(
                        at,
                        at + query.len(),
                    ) == query;
                assert(occurs_at(line, query, at));
            }
            if occurs_in(line, query) {
                let at = choose|at: int| occurs_at(line, query, at);
                assert(line.subrange(at, at + query.len()) == query);
            }
        }
        let rows = if here {
            before.push(n - 1)
        } else {
            before
        };
        assert forall|row: int| 0 <= row < n implies (#[trigger] rows.contains(row) <==> exists|
            at: int,
        |
            0 <= at && at + query.len() <= all[row].len() && #[trigger] all[row].subrange(
                at,
                at + query.len(),
            ) == query) by {
            if row < n - 1 {
                assert(rows.contains(row) <==> before.contains(row)) by {
                    if before.contains(row) {
                        let k = choose|k: int| 0 <= k < before.len() && before[k] == row;
                        assert(rows[k] == row);
                    }
                    if rows.contains(row) {
                        let k = choose|k: int| 0 <= k < rows.len() && rows[k] == row;
                        assert(before[k] == row);
                    }
                }
            } else {
                if here {
                    assert(rows[before.len() as int] == row);
                }
                if rows.contains(row) {
                    let k = choose|k: int| 0 <= k < rows.len() && rows[k] == row;
                    if k < before.len() {
                        assert(before[k] < n - 1);
                    }
                }
            }
        }
        rows
    }
}

/// A line that holds the query with anything before it and anything after it
/// is a match.
pub proof fn law_query_anywhere_in_a_line_matches(
    path: Seq<char>,
    content: Seq<char>,
    before: Seq<char>,
    query: Seq<char>,
    after: Seq<char>,
    row: int,
)
    requires
        0 <= row < lines_of(content).len(),
        lines_of(content)[row] == before + query + after,
    ensures
        file_matches(path, content, query).contains(
            path + ":"@ + decimal((row + 1) as nat) + ": "@ + trimmed(before + query + after),
        ),
{
    let rows = law_matches_are_the_lines_with_the_query(path, content, query);
    let line = lines_of(content)[row];
    let at = before.len() as int;
    assert(line.subrange(at, at + query.len()) == query);
    assert(rows.contains(row));
    let k = choose|k: int| 0 <= k < rows.len() && rows[k] == row;
    assert(file_matches(path, content, query)[k] == path + ":"@ + decimal((row + 1) as nat)
        + ": "@ + trimmed(line));
}

/// What a search reports of its matches are the first two hundred, in order, or
/// all of them where there are fewer.
pub proof fn law_no_more_than_the_first_are_reported(all: Seq<Seq<char>>)
    ensures
        first_matches(all).is_prefix_of(all),
        all.len() <= 200 ==> first_matches(all) == all,
        all.len() > 200 ==> first_matches(all).len() == 200,
{
}

/// A search stays out of everything that is hidden, and out of what is built,
/// fetched or cached; nothing else is left out.
pub proof fn law_hidden_and_built_are_not_searched(name: Seq<char>)
    ensures
        searches(name) <==> {
            ||| name == seq!['.']
            ||| (name.len() == 0 || name[0] != '.') && name != "target"@ && name
                != "node_modules"@ && name != "__pycache__"@
        },
{
    reveal_strlit(".");
    reveal_strlit(".git");
    reveal_strlit(".venv");
    reveal_strlit(".claus");
    assert("."@ == seq!['.']);
    assert(".git"@[0] == '.' && ".venv"@[0] == '.' && ".claus"@[0] == '.');
    let list = unsearched_dirs();
    assert(list[0] == ".git"@ && list[1] == "target"@ && list[2] == "node_modules"@ && list[3]
        == ".venv"@ && list[4] == "__pycache__"@ && list[5] == ".claus"@);
    if name.len() > 0 {
        assert(name.subrange(0, 1) == seq![name[0]]);
    }
    assert(begins_with(name, "."@) <==> name.len() > 0 && name[0] == '.') by {
        if begins_with(name, "."@) {
            assert(name.subrange(0, 1)[0] == "."@[0]);
        }
    }
}

/// What a search answers is every match that it reports, line by line and in
/// order.
pub proof fn law_every_match_is_shown(matches: Seq<Seq<char>>)
    requires
        matches.len() > 0,
        forall|k: int| 0 <= k < matches.len() ==> !(#[trigger] matches[k]).contains('\n'),
        utf8_len(joined(matches, "\n"@)) <= 30_000,
    ensures
        feed_pieces(found_words(matches)) == matches,
        found_words(Seq::empty()) == "no matches"@,
{
    law_joined_lines_part_again(matches);
}

/// A search looks for the text that a call gives, as it is, from the current
/// directory on unless the call names another.
pub proof fn law_queries_are_taken_as_they_are(
    tool: SearchText,
    input: Json,
    res: Result<SearchRequest, String>,
)
    requires
        call_ensures(SearchText::request, (&tool, &input), res),
    ensures
        at(input@, "query"@) is Text <==> res is Ok,
        res matches Ok(request) ==> {
            &&& at(input@, "query"@) == JsonModel::Text(request.query@)
            &&& at(input@, "path"@) matches JsonModel::Text(root) ==> request.root@ == root
            &&& !(at(input@, "path"@) is Text) ==> request.root@ == "."@
        },
{
}

/// One more file adds its matches, in order, behind those that there are, as far
/// as the limit of two hundred lets them; none that there is goes away.
pub proof fn law_files_add_their_matches(
    matches: Seq<Seq<char>>,
    path: Seq<char>,
    content: Seq<char>,
    query: Seq<char>,
)
    requires
        matches.len() < 200,
    ensures
        ({
            let more = file_matches(path, content, query);
            let now = after_scan(matches, path, content, query);
            &&& now.take(matches.len() as int) == matches
            &&& now.len() == if matches.len() + more.len() < 200 {
                matches.len() + more.len()
            } else {
                200
            }
            &&& forall|i: int|
                matches.len() <= i < now.len() ==> #[trigger] now[i] == more[i - matches.len()]
        }),
{
    let more = file_matches(path, content, query);
    let now = after_scan(matches, path, content, query);
    assert(now.take(matches.len() as int) == matches);
}

/// What a search answers is clipped at thirty thousand bytes.
pub proof fn law_shown_matches_are_clipped(matches: Seq<Seq<char>>)
    requires
        matches.len() > 0,
    ensures
        found_words(matches) == clipped(joined(matches, "\n"@), 30_000),
{
}

/// What a search answers are its matches, or that there are none.
pub proof fn law_search_answers_with_its_matches(search: Search, output: String)
    requires
        call_ensures(Search::answer, (&search,), output),
    ensures
        search.matches@.len() == 0 ==> output@ == "no matches"@,
        search.matches@.len() > 0 ==> output@ == clipped(
            joined(texts(search.matches@), "\n"@),
            30_000,
        ),
{
}

} // verus!
