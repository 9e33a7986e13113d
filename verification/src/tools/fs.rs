//! Tools over files: reading with line numbers, writing, editing, listing.

use vstd::prelude::*;
use vstd::string::*;

use crate::api::types::{DefinitionModel, ToolDefinition};
use crate::json::{
    as_count, as_text, at, count_or, count_or_at, is_true, is_true_at, Json, JsonModel,
};
use crate::order::{law_sorted_texts, not_after, sort_texts, sorted_texts};
use crate::text::layout::{
    feed_pieces, law_joined_lines_part_again, law_lines_hold_no_feed, lines, lines_of,
};
use crate::text::number::{
    decimal, decimal_of, decimal_text, law_decimal_is_plain, law_padding_is_on_the_left, pad_left,
    padded_left,
};
use crate::text::search::{
    begins_with, count_occurrences, law_contained_between,
    law_replacing_keeps_what_stands_between, occurrences, occurs_at, occurs_in, replace_all,
    replace_first, replaced_all, replaced_first, slice_texts,
};
use crate::text::{byte_len, join, joined, law_joined_in_parts, texts, utf8_len};
use crate::tools::schema::{
    missing_words, optional_str, parameter, parameter_model, parameter_models, schema,
    schema_model, text_or, Parameter,
};
pub use crate::tools::schema::required_str;
use crate::tools::{clip, clipped};

verus! {

broadcast use {
    vstd::string::group_string_axioms,
    vstd::seq_lib::group_seq_properties,
};

/// Longer output is clipped.
pub const MAX_OUTPUT: usize = 50_000;

// ---------------------------------------------------------------------------
// Reading
// ---------------------------------------------------------------------------

/// Reads a text file.
#[derive(Clone, Copy, Debug)]
pub struct ReadFile;

/// What a call of [`ReadFile`] asks for.
#[derive(Debug)]
pub struct ReadRequest {
    pub path: String,
    /// 1-based line to start from.
    pub offset: usize,
    /// Maximum number of lines.
    pub limit: usize,
}

/// Lines with their 1-based numbers, from a line on and up to a limit.
pub open spec fn numbered(all: Seq<Seq<char>>, offset: int, limit: int) -> Seq<Seq<char>> {
    let left = all.len() - (offset - 1);
    Seq::new(
        (if left < 0 {
            0
        } else if left < limit {
            left
        } else {
            limit
        }) as nat,
        |i: int| padded_left(decimal((offset + i) as nat), 5) + "\t"@ + all[offset - 1 + i],
    )
}

/// What reading a file shows.
pub open spec fn read_words(content: Seq<char>, offset: int, limit: int) -> Seq<char> {
    clipped(joined(numbered(lines_of(content), offset, limit), "\n"@), MAX_OUTPUT as nat)
}

/// The line that a call starts from: the first where it names none or zero.
pub open spec fn start_line(count: u64) -> u64 {
    if count < 1 {
        1
    } else {
        count
    }
}

impl ReadFile {
    /// What the model is told of the tool.
    pub open spec fn told() -> DefinitionModel {
        DefinitionModel {
            name: "read_file"@,
            description: "Read a UTF-8 text file and return its content with 1-based line numbers."@,
            input_schema: schema_model(
                seq![
                    parameter_model("path"@, "string"@, "Path to the file"@),
                    parameter_model(
                        "offset"@,
                        "integer"@,
                        "1-based line to start from (optional)"@,
                    ),
                    parameter_model(
                        "limit"@,
                        "integer"@,
                        "Maximum number of lines (optional)"@,
                    ),
                ],
                seq!["path"@],
            ),
        }
    }

    /// The name of the tool.
    pub fn name(&self) -> (name: &'static str)
        ensures
            name@ == Self::told().name,
    {
        "read_file"
    }

    /// What the tool does, for the model.
    pub fn description(&self) -> (text: &'static str)
        ensures
            text@ == Self::told().description,
    {
        "Read a UTF-8 text file and return its content with 1-based line numbers."
    }

    /// What the model is told of the tool.
    pub fn definition(&self) -> (definition: ToolDefinition)
        ensures
            definition@ == Self::told(),
    {
        ToolDefinition {
            name: self.name().to_owned(),
            description: self.description().to_owned(),
            input_schema: self.input_schema(),
        }
    }

    /// What the tool takes, for the model.
    pub fn input_schema(&self) -> (document: Json)
        ensures
            document@ == Self::told().input_schema,
    {
        let parameters: [Parameter; 3] = [
            parameter("path", "string", "Path to the file"),
            parameter("offset", "integer", "1-based line to start from (optional)"),
            parameter("limit", "integer", "Maximum number of lines (optional)"),
        ];
        let required: [&str; 1] = ["path"];
        let document: Json = schema(parameters.as_slice(), required.as_slice());
        assert(parameter_models(parameters@) == seq![
            parameter_model("path"@, "string"@, "Path to the file"@),
            parameter_model("offset"@, "integer"@, "1-based line to start from (optional)"@),
            parameter_model("limit"@, "integer"@, "Maximum number of lines (optional)"@),
        ]);
        assert(slice_texts(required@) == seq!["path"@]);
        document
    }

    /// What a call asks for.
    pub fn request(&self, input: &Json) -> (res: Result<ReadRequest, String>)
        ensures
            match res {
                Ok(request) => {
                    &&& as_text(at(input@, "path"@)) == Some(request.path@)
                    &&& request.offset == start_line(count_or(at(input@, "offset"@), 1)) as usize
                    &&& request.limit == count_or(at(input@, "limit"@), 2000) as usize
                },
                Err(error) => {
                    &&& as_text(at(input@, "path"@)) is None
                    &&& error@ == missing_words("path"@)
                },
            },
    {
        let path: String = match required_str(input, "path") {
            Ok(path) => path.to_owned(),
            Err(error) => {
                return Err(error);
            },
        };
        let asked: u64 = count_or_at(input.get("offset"), 1);
        let first: u64 = if asked < 1 {
            1
        } else {
            asked
        };
        let limit: u64 = count_or_at(input.get("limit"), 2000);
        Ok(ReadRequest { path, offset: first as usize, limit: limit as usize })
    }

    /// What a call answers, given the content of the file.
    pub fn answer(&self, request: &ReadRequest, content: &str) -> (output: String)
        requires
            request.offset >= 1,
        ensures
            output@ == read_words(content@, request.offset as int, request.limit as int),
    {
        let all: Vec<String> = lines(content);
        let ghost rows = lines_of(content@);
        let mut listed: Vec<String> = Vec::new();
        let mut i: usize = request.offset - 1;
        let mut count: usize = 0;
        while i < all.len() && count < request.limit
            invariant
                request.offset >= 1,
                rows == texts(all@),
                i == request.offset - 1 + count,
                count <= request.limit,
                count > 0 ==> i <= all@.len(),
                listed@.len() == count,
                forall|k: int|
                    0 <= k < count ==> (#[trigger] listed@[k])@ == padded_left(
                        decimal((request.offset + k) as nat),
                        5,
                    ) + "\t"@ + rows[request.offset - 1 + k],
            decreases request.limit - count,
        {
            let number: String = decimal_of(i + 1);
            let line: String = pad_left(number.as_str(), 5).concat("\t").concat(all[i].as_str());
            listed.push(line);
            i += 1;
            count += 1;
        }
        assert(texts(listed@) == numbered(rows, request.offset as int, request.limit as int));
        clip(join(listed.as_slice(), "\n"), MAX_OUTPUT)
    }
}

// ---------------------------------------------------------------------------
// Writing
// ---------------------------------------------------------------------------

/// Creates or overwrites a file.
#[derive(Clone, Copy, Debug)]
pub struct WriteFile;

/// What a call of [`WriteFile`] asks for.
#[derive(Debug)]
pub struct WriteRequest {
    pub path: String,
    pub content: String,
}

impl WriteFile {
    /// What the model is told of the tool.
    pub open spec fn told() -> DefinitionModel {
        DefinitionModel {
            name: "write_file"@,
            description: "Create or overwrite a file with the given content, creating parent directories as needed."@,
            input_schema: schema_model(
                seq![
                    parameter_model("path"@, "string"@, "Path to the file"@),
                    parameter_model("content"@, "string"@, "Full file content"@),
                ],
                seq!["path"@, "content"@],
            ),
        }
    }

    /// The name of the tool.
    pub fn name(&self) -> (name: &'static str)
        ensures
            name@ == Self::told().name,
    {
        "write_file"
    }

    /// What the tool does, for the model.
    pub fn description(&self) -> (text: &'static str)
        ensures
            text@ == Self::told().description,
    {
        "Create or overwrite a file with the given content, creating parent directories as needed."
    }

    /// What the model is told of the tool.
    pub fn definition(&self) -> (definition: ToolDefinition)
        ensures
            definition@ == Self::told(),
    {
        ToolDefinition {
            name: self.name().to_owned(),
            description: self.description().to_owned(),
            input_schema: self.input_schema(),
        }
    }

    /// What the tool takes, for the model.
    pub fn input_schema(&self) -> (document: Json)
        ensures
            document@ == Self::told().input_schema,
    {
        let parameters: [Parameter; 2] = [
            parameter("path", "string", "Path to the file"),
            parameter("content", "string", "Full file content"),
        ];
        let required: [&str; 2] = ["path", "content"];
        let document: Json = schema(parameters.as_slice(), required.as_slice());
        assert(parameter_models(parameters@) == seq![
            parameter_model("path"@, "string"@, "Path to the file"@),
            parameter_model("content"@, "string"@, "Full file content"@),
        ]);
        assert(slice_texts(required@) == seq!["path"@, "content"@]);
        document
    }

    /// What a call asks for; the first parameter that is missing is reported.
    pub fn request(&self, input: &Json) -> (res: Result<WriteRequest, String>)
        ensures
            match res {
                Ok(request) => {
                    &&& as_text(at(input@, "path"@)) == Some(request.path@)
                    &&& as_text(at(input@, "content"@)) == Some(request.content@)
                },
                Err(error) => if as_text(at(input@, "path"@)) is None {
                    error@ == missing_words("path"@)
                } else {
                    &&& as_text(at(input@, "content"@)) is None
                    &&& error@ == missing_words("content"@)
                },
            },
    {
        let path: String = match required_str(input, "path") {
            Ok(path) => path.to_owned(),
            Err(error) => {
                return Err(error);
            },
        };
        match required_str(input, "content") {
            Ok(content) => Ok(WriteRequest { path, content: content.to_owned() }),
            Err(error) => Err(error),
        }
    }

    /// What a call answers once the file is written.
    pub fn answer(&self, request: &WriteRequest) -> (output: String)
        ensures
            output@ == "wrote "@ + decimal(utf8_len(request.content@)) + " bytes to "@
                + request.path@,
    {
        let size: String = decimal_of(byte_len(request.content.as_str()));
        "wrote ".to_owned().concat(size.as_str()).concat(" bytes to ").concat(
            request.path.as_str(),
        )
    }
}

// ---------------------------------------------------------------------------
// Editing
// ---------------------------------------------------------------------------

/// Replaces an exact string in a file.
#[derive(Clone, Copy, Debug)]
pub struct EditFile;

/// What a call of [`EditFile`] asks for.
#[derive(Debug)]
pub struct EditRequest {
    pub path: String,
    pub old_string: String,
    pub new_string: String,
    pub replace_all: bool,
}

/// The outcome of an edit: the new content of the file, and the answer.
#[derive(Debug)]
pub struct Edited {
    pub content: String,
    pub answer: String,
}

/// Whether an edit goes through: the old string is there, and just once unless
/// every occurrence is to be replaced.
pub open spec fn edit_applies(content: Seq<char>, old_string: Seq<char>, all: bool) -> bool {
    occurrences(content, old_string) == 1 || (all && occurrences(content, old_string) > 0)
}

/// The content after an edit.
pub open spec fn edited_content(
    content: Seq<char>,
    old_string: Seq<char>,
    new_string: Seq<char>,
    all: bool,
) -> Seq<char> {
    if all {
        replaced_all(content, old_string, new_string)
    } else {
        replaced_first(content, old_string, new_string)
    }
}

/// The answer to an edit that goes through.
pub open spec fn edit_words(count: nat, path: Seq<char>) -> Seq<char> {
    "replaced "@ + decimal(count) + " occurrence(s) in "@ + path
}

/// The error of an edit that does not go through.
pub open spec fn edit_error_words(count: nat, path: Seq<char>) -> Seq<char> {
    if count == 0 {
        "old_string not found in "@ + path
    } else {
        "old_string appears "@ + decimal(count) + " times in "@ + path
            + "; pass replace_all or add context"@
    }
}

proof fn lemma_nothing_to_replace(content: Seq<char>, old_string: Seq<char>, new_string: Seq<char>)
    requires
        occurrences(content, old_string) == 0,
    ensures
        replaced_all(content, old_string, new_string) == content,
        replaced_first(content, old_string, new_string) == content,
    decreases content.len(),
{
    if content.len() > 0 {
        lemma_nothing_to_replace(content.drop_first(), old_string, new_string);
        assert(seq![content[0]] + content.drop_first() == content);
    }
}

/// An edit of a string that is not there would change nothing.
pub proof fn law_missing_string_changes_nothing(
    content: Seq<char>,
    old_string: Seq<char>,
    new_string: Seq<char>,
    all: bool,
)
    requires
        occurrences(content, old_string) == 0,
    ensures
        !edit_applies(content, old_string, all),
        edited_content(content, old_string, new_string, all) == content,
{
    lemma_nothing_to_replace(content, old_string, new_string);
}

/// Whether a text is another with the string at a place replaced.
pub open spec fn replaced_at(
    content: Seq<char>,
    old_string: Seq<char>,
    new_string: Seq<char>,
    place: int,
    result: Seq<char>,
) -> bool {
    &&& occurs_at(content, old_string, place)
    &&& result == content.take(place) + new_string + content.skip(place + old_string.len())
}

/// An edit of a string that is there once replaces it in its place and leaves
/// all before it and after it as it was, whether or not every occurrence is to
/// be replaced.
pub proof fn law_single_edit_touches_one_place(
    content: Seq<char>,
    old_string: Seq<char>,
    new_string: Seq<char>,
) -> (place: int)
    requires
        occurrences(content, old_string) == 1,
    ensures
        replaced_at(
            content,
            old_string,
            new_string,
            place,
            edited_content(content, old_string, new_string, false),
        ),
        edited_content(content, old_string, new_string, true) == edited_content(
            content,
            old_string,
            new_string,
            false,
        ),
    decreases content.len(),
{
    if old_string.len() == 0 {
        assert(content.subrange(0, 0) == old_string);
        assert(content.take(0) + new_string + content.skip(0) == new_string);
        assert(new_string + content.skip(0) == new_string);
        0
    } else if begins_with(content, old_string) {
        let rest = content.skip(old_string.len() as int);
        lemma_nothing_to_replace(rest, old_string, new_string);
        assert(content.take(0) + new_string + rest == new_string + rest);
        0
    } else {
        let rest = content.drop_first();
        let place = law_single_edit_touches_one_place(rest, old_string, new_string);
        let here = place + 1;
        let head = seq![content[0]];
        assert(content.subrange(here, here + old_string.len()) == rest.subrange(
            place,
            place + old_string.len(),
        ));
        assert(content.take(here) == head + rest.take(place));
        assert(content.skip(here + old_string.len()) == rest.skip(place + old_string.len()));
        assert(head + (rest.take(place) + new_string + rest.skip(place + old_string.len()))
            == content.take(here) + new_string + content.skip(here + old_string.len()));
        here
    }
}

impl EditFile {
    /// What the model is told of the tool.
    pub open spec fn told() -> DefinitionModel {
        DefinitionModel {
            name: "edit_file"@,
            description: "Replace an exact string in a file. The old string must appear exactly once unless replace_all is true."@,
            input_schema: schema_model(
                seq![
                    parameter_model("path"@, "string"@, "Path to the file"@),
                    parameter_model("old_string"@, "string"@, "Exact text to replace"@),
                    parameter_model("new_string"@, "string"@, "Replacement text"@),
                    parameter_model(
                        "replace_all"@,
                        "boolean"@,
                        "Replace every occurrence (default false)"@,
                    ),
                ],
                seq!["path"@, "old_string"@, "new_string"@],
            ),
        }
    }

    /// The name of the tool.
    pub fn name(&self) -> (name: &'static str)
        ensures
            name@ == Self::told().name,
    {
        "edit_file"
    }

    /// What the tool does, for the model.
    pub fn description(&self) -> (text: &'static str)
        ensures
            text@ == Self::told().description,
    {
        "Replace an exact string in a file. The old string must appear exactly once unless replace_all is true."
    }

    /// What the model is told of the tool.
    pub fn definition(&self) -> (definition: ToolDefinition)
        ensures
            definition@ == Self::told(),
    {
        ToolDefinition {
            name: self.name().to_owned(),
            description: self.description().to_owned(),
            input_schema: self.input_schema(),
        }
    }

    /// What the tool takes, for the model.
    pub fn input_schema(&self) -> (document: Json)
        ensures
            document@ == Self::told().input_schema,
    {
        let parameters: [Parameter; 4] = [
            parameter("path", "string", "Path to the file"),
            parameter("old_string", "string", "Exact text to replace"),
            parameter("new_string", "string", "Replacement text"),
            parameter("replace_all", "boolean", "Replace every occurrence (default false)"),
        ];
        let required: [&str; 3] = ["path", "old_string", "new_string"];
        let document: Json = schema(parameters.as_slice(), required.as_slice());
        assert(parameter_models(parameters@) == seq![
            parameter_model("path"@, "string"@, "Path to the file"@),
            parameter_model("old_string"@, "string"@, "Exact text to replace"@),
            parameter_model("new_string"@, "string"@, "Replacement text"@),
            parameter_model(
                "replace_all"@,
                "boolean"@,
                "Replace every occurrence (default false)"@,
            ),
        ]);
        assert(slice_texts(required@) == seq!["path"@, "old_string"@, "new_string"@]);
        document
    }

    /// What a call asks for; the first parameter that is missing is reported.
    pub fn request(&self, input: &Json) -> (res: Result<EditRequest, String>)
        ensures
            match res {
                Ok(request) => {
                    &&& as_text(at(input@, "path"@)) == Some(request.path@)
                    &&& as_text(at(input@, "old_string"@)) == Some(request.old_string@)
                    &&& as_text(at(input@, "new_string"@)) == Some(request.new_string@)
                    &&& request.replace_all == is_true(at(input@, "replace_all"@))
                },
                Err(error) => if as_text(at(input@, "path"@)) is None {
                    error@ == missing_words("path"@)
                } else if as_text(at(input@, "old_string"@)) is None {
                    error@ == missing_words("old_string"@)
                } else {
                    &&& as_text(at(input@, "new_string"@)) is None
                    &&& error@ == missing_words("new_string"@)
                },
            },
    {
        let path: String = match required_str(input, "path") {
            Ok(path) => path.to_owned(),
            Err(error) => {
                return Err(error);
            },
        };
        let old_string: String = match required_str(input, "old_string") {
            Ok(text) => text.to_owned(),
            Err(error) => {
                return Err(error);
            },
        };
        match required_str(input, "new_string") {
            Ok(text) => Ok(
                EditRequest {
                    path,
                    old_string,
                    new_string: text.to_owned(),
                    replace_all: is_true_at(input.get("replace_all")),
                },
            ),
            Err(error) => Err(error),
        }
    }

    /// Edits the content of a file.
    pub fn apply(&self, request: &EditRequest, content: &str) -> (res: Result<Edited, String>)
        ensures
            match res {
                Ok(edited) => {
                    &&& edit_applies(content@, request.old_string@, request.replace_all)
                    &&& edited.content@ == edited_content(
                        content@,
                        request.old_string@,
                        request.new_string@,
                        request.replace_all,
                    )
                    &&& edited.answer@ == edit_words(
                        occurrences(content@, request.old_string@),
                        request.path@,
                    )
                },
                Err(error) => {
                    &&& !edit_applies(content@, request.old_string@, request.replace_all)
                    &&& error@ == edit_error_words(
                        occurrences(content@, request.old_string@),
                        request.path@,
                    )
                },
            },
    {
        let old_string: &str = request.old_string.as_str();
        let new_string: &str = request.new_string.as_str();
        let count: u128 = count_occurrences(content, old_string);
        if count == 0 {
            return Err("old_string not found in ".to_owned().concat(request.path.as_str()));
        }
        let number: String = decimal_text(count);
        if count != 1 && !request.replace_all {
            return Err(
                "old_string appears ".to_owned().concat(number.as_str()).concat(
                    " times in ",
                ).concat(request.path.as_str()).concat("; pass replace_all or add context"),
            );
        }
        let updated: String = if request.replace_all {
            replace_all(content, old_string, new_string)
        } else {
            replace_first(content, old_string, new_string)
        };
        let answer: String = "replaced ".to_owned().concat(number.as_str()).concat(
            " occurrence(s) in ",
        ).concat(request.path.as_str());
        Ok(Edited { content: updated, answer })
    }
}

// ---------------------------------------------------------------------------
// Listing
// ---------------------------------------------------------------------------

/// Lists a directory.
#[derive(Clone, Copy, Debug)]
pub struct ListDir;

/// The name of an entry as it is listed: directories end in a slash.
pub open spec fn entry_name(entry: (String, bool)) -> Seq<char> {
    if entry.1 {
        entry.0@.push('/')
    } else {
        entry.0@
    }
}

/// What listing a directory shows.
pub open spec fn listing_words(entries: Seq<(String, bool)>) -> Seq<char> {
    clipped(
        joined(sorted_texts(entries.map_values(|e: (String, bool)| entry_name(e))), "\n"@),
        MAX_OUTPUT as nat,
    )
}

impl ListDir {
    /// What the model is told of the tool.
    pub open spec fn told() -> DefinitionModel {
        DefinitionModel {
            name: "list_dir"@,
            description: "List directory entries; directories are marked with a trailing slash."@,
            input_schema: schema_model(
                seq![
                    parameter_model(
                        "path"@,
                        "string"@,
                        "Directory path (default: current directory)"@,
                    ),
                ],
                Seq::empty(),
            ),
        }
    }

    /// The name of the tool.
    pub fn name(&self) -> (name: &'static str)
        ensures
            name@ == Self::told().name,
    {
        "list_dir"
    }

    /// What the tool does, for the model.
    pub fn description(&self) -> (text: &'static str)
        ensures
            text@ == Self::told().description,
    {
        "List directory entries; directories are marked with a trailing slash."
    }

    /// What the model is told of the tool.
    pub fn definition(&self) -> (definition: ToolDefinition)
        ensures
            definition@ == Self::told(),
    {
        ToolDefinition {
            name: self.name().to_owned(),
            description: self.description().to_owned(),
            input_schema: self.input_schema(),
        }
    }

    /// What the tool takes, for the model.
    pub fn input_schema(&self) -> (document: Json)
        ensures
            document@ == Self::told().input_schema,
    {
        let parameters: [Parameter; 1] = [
            parameter("path", "string", "Directory path (default: current directory)"),
        ];
        let required: [&str; 0] = [];
        let document: Json = schema(parameters.as_slice(), required.as_slice());
        assert(parameter_models(parameters@) == seq![
            parameter_model("path"@, "string"@, "Directory path (default: current directory)"@),
        ]);
        assert(slice_texts(required@) == Seq::<Seq<char>>::empty());
        document
    }

    /// The directory that a call asks for.
    pub fn request(&self, input: &Json) -> (path: String)
        ensures
            path@ == text_or(at(input@, "path"@), "."@),
    {
        optional_str(input, "path", ".")
    }

    /// What a call answers, given the entries of the directory and which of
    /// them are directories.
    pub fn answer(&self, entries: Vec<(String, bool)>) -> (output: String)
        ensures
            output@ == listing_words(entries@),
    {
        let mut names: Vec<String> = Vec::new();
        let mut i: usize = 0;
        while i < entries.len()
            invariant
                i <= entries@.len(),
                names@.len() == i,
                forall|k: int| 0 <= k < i ==> (#[trigger] names@[k])@ == entry_name(entries@[k]),
            decreases entries@.len() - i,
        {
            let mut name: String = entries[i].0.clone();
            if entries[i].1 {
                name.push('/');
            }
            names.push(name);
            i += 1;
        }
        assert(texts(names@) == entries@.map_values(|e: (String, bool)| entry_name(e)));
        let sorted: Vec<String> = sort_texts(names);
        clip(join(sorted.as_slice(), "\n"), MAX_OUTPUT)
    }
}

// ---------------------------------------------------------------------------
// What the tools show and change
// ---------------------------------------------------------------------------

/// Reading shows the lines of a file from the one that a call starts from, as
/// many as it asks for or there are, each behind its number and a tab and in
/// order: parted at the line feeds, what is shown and not clipped is just these.
pub proof fn law_read_shows_the_lines_in_order(content: Seq<char>, offset: int, limit: int)
    requires
        1 <= offset <= lines_of(content).len(),
        limit >= 1,
        utf8_len(joined(numbered(lines_of(content), offset, limit), "\n"@)) <= 50_000,
    ensures
        ({
            let all = lines_of(content);
            let shown = feed_pieces(read_words(content, offset, limit));
            &&& shown.len() == if all.len() - offset + 1 < limit {
                all.len() - offset + 1
            } else {
                limit
            }
            &&& forall|i: int|
                0 <= i < shown.len() ==> {
                    let line = all[offset - 1 + i];
                    let number = decimal((offset + i) as nat);
                    let front = (#[trigger] shown[i]).len() - line.len() - 1;
                    &&& front == if number.len() < 5 {
                        5
                    } else {
                        number.len() as int
                    }
                    &&& shown[i].skip(front + 1) == line
                    &&& shown[i][front] == '\t'
                    &&& shown[i].subrange(front - number.len(), front) == number
                    &&& forall|k: int|
                        0 <= k < front - number.len() ==> #[trigger] shown[i][k] == ' '
                }
        }),
{
    let all = lines_of(content);
    let listed = numbered(all, offset, limit);
    law_lines_hold_no_feed(content);
    reveal_strlit("\t");
    assert forall|i: int| 0 <= i < listed.len() implies {
        let line = all[offset - 1 + i];
        let number = decimal((offset + i) as nat);
        let front = (#[trigger] listed[i]).len() - line.len() - 1;
        &&& front == if number.len() < 5 {
            5
        } else {
            number.len() as int
        }
        &&& listed[i].skip(front + 1) == line
        &&& listed[i][front] == '\t'
        &&& listed[i].subrange(front - number.len(), front) == number
        &&& forall|k: int| 0 <= k < front - number.len() ==> #[trigger] listed[i][k] == ' '
        &&& !listed[i].contains('\n')
    } by {
        let line = all[offset - 1 + i];
        let number = decimal((offset + i) as nat);
        let padded = padded_left(number, 5);
        let whole = padded + "\t"@ + line;
        assert(listed[i] == whole);
        law_padding_is_on_the_left(number, 5);
        law_decimal_is_plain((offset + i) as nat, 0);
        let front = padded.len() as int;
        assert(whole.skip(front + 1) == line);
        assert(whole.subrange(front - number.len(), front) == padded.skip(
            padded.len() - number.len(),
        ));
        if whole.contains('\n') {
            let k = choose|k: int| 0 <= k < whole.len() && whole[k] == '\n';
            if k > front {
                assert(line[k - front - 1] == '\n');
                assert(line.contains('\n'));
            } else if k < front {
                let gap = padded.len() - number.len();
                if k >= gap {
                    assert(padded.skip(gap)[k - gap] == padded[k]);
                    assert('0' <= number[k - gap] <= '9');
                } else {
                    assert(padded[k] == ' ');
                }
            }
        }
    }
    assert(listed.len() > 0);
    law_joined_lines_part_again(listed);
}

/// Reading on where a reading stopped shows what reading all at once shows.
pub proof fn law_reading_goes_on(all: Seq<Seq<char>>, offset: int, first: int, second: int)
    requires
        offset >= 1,
        first >= 0,
        second >= 0,
    ensures
        numbered(all, offset, first) + numbered(all, offset + first, second) == numbered(
            all,
            offset,
            first + second,
        ),
{
}

/// A reading starts from the first line unless a call names a later one.
pub proof fn law_lines_are_counted_from_one(count: u64)
    ensures
        start_line(count) >= 1,
        count >= 1 ==> start_line(count) == count,
        start_line(0) == 1,
{
}

proof fn lemma_occurrence_is_counted(s: Seq<char>, old: Seq<char>, at: int)
    requires
        old.len() > 0,
        occurs_at(s, old, at),
    ensures
        occurrences(s, old) >= 1,
    decreases s.len(),
{
    if !begins_with(s, old) {
        let rest = s.drop_first();
        assert(s.subrange(at, at + old.len()) == rest.subrange(at - 1, at - 1 + old.len()));
        lemma_occurrence_is_counted(rest, old, at - 1);
    }
}

proof fn lemma_two_occurrences_are_counted(s: Seq<char>, old: Seq<char>, one: int, other: int)
    requires
        old.len() > 0,
        occurs_at(s, old, one),
        occurs_at(s, old, other),
        one + old.len() <= other,
    ensures
        occurrences(s, old) >= 2,
    decreases s.len(),
{
    if begins_with(s, old) {
        let width = old.len() as int;
        let rest = s.skip(width);
        assert(s.subrange(other, other + width) == rest.subrange(other - width, other));
        lemma_occurrence_is_counted(rest, old, other - width);
    } else {
        let rest = s.drop_first();
        assert(s.subrange(one, one + old.len()) == rest.subrange(one - 1, one - 1 + old.len()));
        assert(s.subrange(other, other + old.len()) == rest.subrange(
            other - 1,
            other - 1 + old.len(),
        ));
        lemma_two_occurrences_are_counted(rest, old, one - 1, other - 1);
    }
}

/// An edit of every occurrence goes through just if the old string stands in
/// the file; one of a single occurrence does not where it stands at two places
/// that have nothing in common, and never where it does not stand at all.
pub proof fn law_edit_needs_its_string(
    content: Seq<char>,
    old_string: Seq<char>,
    one: int,
    other: int,
)
    requires
        old_string.len() > 0,
    ensures
        edit_applies(content, old_string, true) <==> occurs_in(content, old_string),
        edit_applies(content, old_string, false) ==> occurs_in(content, old_string),
        occurs_at(content, old_string, one) && occurs_at(content, old_string, other) && one
            + old_string.len() <= other ==> !edit_applies(content, old_string, false),
        occurrences(content, old_string) == 0 <==> !occurs_in(content, old_string),
{
    let parts = law_replacing_keeps_what_stands_between(content, old_string, Seq::empty());
    if occurs_in(content, old_string) {
        let at = choose|at: int| occurs_at(content, old_string, at);
        lemma_occurrence_is_counted(content, old_string, at);
    } else if occurrences(content, old_string) > 0 {
        let rest = parts.drop_first();
        assert(parts == seq![parts[0]] + rest);
        law_joined_in_parts(seq![parts[0]], rest, parts[0], old_string);
        law_contained_between(parts[0], old_string, joined(rest, old_string));
    }
    if occurs_at(content, old_string, one) && occurs_at(content, old_string, other) && one
        + old_string.len() <= other {
        lemma_two_occurrences_are_counted(content, old_string, one, other);
    }
}

/// An edit of every occurrence puts the new string in the place of each, as
/// many as are counted, and leaves all that stands between them as it is. What
/// stands between them is returned.
pub proof fn law_edit_replaces_every_occurrence(
    content: Seq<char>,
    old_string: Seq<char>,
    new_string: Seq<char>,
) -> (between: Seq<Seq<char>>)
    requires
        old_string.len() > 0,
    ensures
        content == joined(between, old_string),
        edited_content(content, old_string, new_string, true) == joined(between, new_string),
        between.len() == occurrences(content, old_string) + 1,
        forall|i: int, at: int|
            0 <= i < between.len() - 1 && 0 <= at < between[i].len() ==> !#[trigger] occurs_at(
                between[i] + old_string,
                old_string,
                at,
            ),
        !occurs_in(between.last(), old_string),
{
    law_replacing_keeps_what_stands_between(content, old_string, new_string)
}

/// A listing shows every entry of a directory once, in ascending order, and
/// marks directories, and only these, with a slash: parted at the line feeds,
/// what is shown and not clipped is just that.
pub proof fn law_listing_shows_every_entry(entries: Seq<(String, bool)>)
    requires
        entries.len() > 0,
        forall|i: int| 0 <= i < entries.len() ==> !(#[trigger] entries[i]).0@.contains('\n'),
        utf8_len(
            joined(sorted_texts(entries.map_values(|e: (String, bool)| entry_name(e))), "\n"@),
        ) <= 50_000,
    ensures
        ({
            let shown = feed_pieces(listing_words(entries));
            let names = Seq::new(
                entries.len(),
                |i: int|
                    if entries[i].1 {
                        entries[i].0@ + seq!['/']
                    } else {
                        entries[i].0@
                    },
            );
            &&& shown.to_multiset() == names.to_multiset()
            &&& forall|i: int, j: int|
                0 <= i < j < shown.len() ==> not_after(#[trigger] shown[i], #[trigger] shown[j])
        }),
{
    let names = entries.map_values(|e: (String, bool)| entry_name(e));
    let marked = Seq::new(
        entries.len(),
        |i: int|
            if entries[i].1 {
                entries[i].0@ + seq!['/']
            } else {
                entries[i].0@
            },
    );
    assert forall|i: int| 0 <= i < entries.len() implies names[i] == marked[i] by {
        assert(entries[i].0@.push('/') == entries[i].0@ + seq!['/']);
    }
    assert(names == marked);
    let sorted = sorted_texts(names);
    law_sorted_texts(names);
    names.to_multiset_ensures();
    sorted.to_multiset_ensures();
    assert(sorted.len() == names.len());
    assert forall|k: int| 0 <= k < sorted.len() implies !(#[trigger] sorted[k]).contains(
        '\n',
    ) by {
        let name = sorted[k];
        assert(sorted.contains(name));
        assert(names.to_multiset().contains(name));
        assert(names.contains(name));
        let i = choose|i: int| 0 <= i < names.len() && names[i] == name;
        if name.contains('\n') {
            let p = choose|p: int| 0 <= p < name.len() && name[p] == '\n';
            assert(entries[i].0@[p] == '\n');
            assert(entries[i].0@.contains('\n'));
        }
    }
    law_joined_lines_part_again(sorted);
}

/// A call to read names a file; it starts from the first line and shows two
/// thousand, unless it says otherwise. A call that names no file is told so.
pub proof fn law_reading_takes_defaults(
    tool: ReadFile,
    input: Json,
    res: Result<ReadRequest, String>,
)
    requires
        call_ensures(ReadFile::request, (&tool, &input), res),
    ensures
        at(input@, "path"@) is Text <==> res is Ok,
        res matches Err(words) ==> words@ == "missing required parameter: path"@,
        res matches Ok(request) ==> {
            &&& at(input@, "path"@) == JsonModel::Text(request.path@)
            &&& as_count(at(input@, "offset"@)) is None ==> request.offset == 1
            &&& as_count(at(input@, "offset"@)) matches Some(n) ==> (1 <= n <= usize::MAX
                ==> request.offset == n)
            &&& as_count(at(input@, "limit"@)) is None ==> request.limit == 2000
            &&& as_count(at(input@, "limit"@)) matches Some(n) ==> (n <= usize::MAX
                ==> request.limit == n)
        },
{
    reveal_strlit("missing required parameter: path");
    reveal_strlit("missing required parameter: ");
    reveal_strlit("path");
    assert("missing required parameter: "@ + "path"@ == "missing required parameter: path"@);
}

/// A call to edit gives a file, the old string and the new one, each as it is,
/// and asks for every occurrence just if it says so.
pub proof fn law_editing_takes_its_strings(
    tool: EditFile,
    input: Json,
    res: Result<EditRequest, String>,
)
    requires
        call_ensures(EditFile::request, (&tool, &input), res),
    ensures
        res is Ok <==> at(input@, "path"@) is Text && at(input@, "old_string"@) is Text && at(
            input@,
            "new_string"@,
        ) is Text,
        res matches Ok(request) ==> {
            &&& at(input@, "path"@) == JsonModel::Text(request.path@)
            &&& at(input@, "old_string"@) == JsonModel::Text(request.old_string@)
            &&& at(input@, "new_string"@) == JsonModel::Text(request.new_string@)
            &&& request.replace_all <==> at(input@, "replace_all"@) == JsonModel::Bool(true)
        },
{
}

/// A call to write gives a file and its whole content, each as it is, and is
/// answered with how many bytes that is.
pub proof fn law_writing_takes_the_content(
    tool: WriteFile,
    input: Json,
    res: Result<WriteRequest, String>,
    request: WriteRequest,
    answer: String,
)
    requires
        call_ensures(WriteFile::request, (&tool, &input), res),
        call_ensures(WriteFile::answer, (&tool, &request), answer),
    ensures
        res is Ok <==> at(input@, "path"@) is Text && at(input@, "content"@) is Text,
        res matches Ok(given) ==> {
            &&& at(input@, "path"@) == JsonModel::Text(given.path@)
            &&& at(input@, "content"@) == JsonModel::Text(given.content@)
        },
        answer@ == "wrote "@ + decimal(utf8_len(request.content@)) + " bytes to "@ + request.path@,
{
}

/// An edit that goes through hands back the edited content, says how many
/// occurrences it replaced and where, and one that does not says why: the string
/// is not there, or it is there more than once.
pub proof fn law_edits_are_told(
    tool: EditFile,
    request: EditRequest,
    content: &str,
    res: Result<Edited, String>,
)
    requires
        call_ensures(EditFile::apply, (&tool, &request, content), res),
        request.old_string@.len() > 0,
    ensures
        ({
            let count = occurrences(content@, request.old_string@);
            &&& !occurs_in(content@, request.old_string@) ==> (res matches Err(words) && words@
                == "old_string not found in "@ + request.path@)
            &&& count > 1 && !request.replace_all ==> (res matches Err(words) && words@
                == "old_string appears "@ + decimal(count) + " times in "@ + request.path@
                + "; pass replace_all or add context"@)
            &&& count == 1 || (count > 1 && request.replace_all) ==> (res matches Ok(edited) && {
                &&& edited.content@ == edited_content(
                    content@,
                    request.old_string@,
                    request.new_string@,
                    request.replace_all,
                )
                &&& edited.answer@ == "replaced "@ + decimal(count) + " occurrence(s) in "@
                    + request.path@
            })
        }),
{
    law_edit_needs_its_string(content@, request.old_string@, 0, 0);
}

/// What is shown of a file or a directory is clipped at fifty thousand bytes.
pub proof fn law_shown_files_are_clipped(
    content: Seq<char>,
    offset: int,
    limit: int,
    entries: Seq<(String, bool)>,
)
    ensures
        read_words(content, offset, limit) == clipped(
            joined(numbered(lines_of(content), offset, limit), "\n"@),
            50_000,
        ),
        listing_words(entries) == clipped(
            joined(sorted_texts(entries.map_values(|e: (String, bool)| entry_name(e))), "\n"@),
            50_000,
        ),
{
}

/// A directory is listed from the current one unless a call names another.
pub proof fn law_listing_takes_its_path(tool: ListDir, input: Json, path: String)
    requires
        call_ensures(ListDir::request, (&tool, &input), path),
    ensures
        at(input@, "path"@) matches JsonModel::Text(given) ==> path@ == given,
        !(at(input@, "path"@) is Text) ==> path@ == "."@,
{
}

/// What is answered to a reading are the lines of the content from the one that
/// was asked for, numbered; what is answered to a listing are its entries.
pub proof fn law_answers_are_of_what_was_asked(
    read: ReadFile,
    request: ReadRequest,
    content: &str,
    shown: String,
    list: ListDir,
    entries: Vec<(String, bool)>,
    listed: String,
)
    requires
        request.offset >= 1,
        call_ensures(ReadFile::answer, (&read, &request, content), shown),
        call_ensures(ListDir::answer, (&list, entries), listed),
    ensures
        shown@ == read_words(content@, request.offset as int, request.limit as int),
        listed@ == listing_words(entries@),
{
}

} // verus!
