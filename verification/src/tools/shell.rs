//! The shell tool, and which commands run without the user's approval.

use vstd::prelude::*;
use vstd::string::*;
use vstd::utf8::*;

use crate::api::types::{DefinitionModel, ToolDefinition};
use crate::json::{
    as_count, as_text, at, count_or, count_or_at, signed_decimal, signed_text, Json, JsonModel,
};
use crate::text::layout::{
    law_words_are_parted_by_white_space, trim, trimmed, words, words_of,
};
use crate::text::number::{decimal, decimal_text};
use crate::text::search::{one_of, slice_texts};
use crate::text::{from_lossy, lossy_text, same_text, texts};
use crate::tools::schema::{
    missing_words, parameter, parameter_model, parameter_models, required_str, schema,
    schema_model, Parameter,
};
use crate::tools::{clip, clipped};

verus! {

broadcast use {
    vstd::string::group_string_axioms,
    vstd::seq_lib::group_seq_properties,
};

/// Longer output is clipped.
pub const MAX_OUTPUT: usize = 30_000;

/// How long a command may take, unless the call says otherwise.
pub const DEFAULT_TIMEOUT_SECS: u64 = 120;

// ---------------------------------------------------------------------------
// Read-only commands
// ---------------------------------------------------------------------------

/// Anything that can chain, redirect or substitute makes a command opaque.
pub open spec fn is_metacharacter(c: char) -> bool {
    c == ';' || c == '&' || c == '|' || c == '>' || c == '<' || c == '`' || c == '$' || c == '('
        || c == ')' || c == '\n'
}

/// Commands whose first word is listed here never touch state.
pub open spec fn read_only_commands() -> Seq<Seq<char>> {
    seq![
        "ls"@, "cat"@, "head"@, "tail"@, "grep"@, "rg"@, "find"@, "wc"@, "file"@, "stat"@,
        "pwd"@, "which"@, "du"@, "df"@, "sort"@, "uniq"@, "cut"@, "tr"@, "date"@, "uname"@,
        "basename"@, "dirname"@, "tree"@,
    ]
}

/// The subcommands of git that never touch state.
pub open spec fn read_only_git() -> Seq<Seq<char>> {
    seq![
        "status"@,
        "log"@,
        "diff"@,
        "show"@,
        "branch"@,
        "blame"@,
        "remote"@,
        "ls-files"@,
    ]
}

/// The subcommands of cargo that are let through.
pub open spec fn read_only_cargo() -> Seq<Seq<char>> {
    seq![
        "check"@,
        "build"@,
        "test"@,
        "fmt"@,
        "clippy"@,
        "tree"@,
        "metadata"@,
        "--version"@,
    ]
}

/// Whether a command holds a metacharacter.
pub open spec fn is_opaque(command: Seq<char>) -> bool {
    exists|i: int| 0 <= i < command.len() && is_metacharacter(#[trigger] command[i])
}

/// Whether the words of a command are those of a read-only one: its program is
/// listed, or for git and cargo its subcommand.
pub open spec fn allowed(list: Seq<Seq<char>>) -> bool {
    if list.len() == 0 {
        false
    } else if list[0] == "git"@ {
        list.len() > 1 && read_only_git().contains(list[1])
    } else if list[0] == "cargo"@ {
        list.len() > 1 && read_only_cargo().contains(list[1])
    } else {
        read_only_commands().contains(list[0])
    }
}

/// Whether a command is read-only.
pub open spec fn read_only(command: Seq<char>) -> bool {
    !is_opaque(command) && allowed(words_of(command))
}

fn has_metacharacter(command: &str) -> (found: bool)
    ensures
        found == is_opaque(command@),
{
    let mut found: bool = false;
    for c in it: command.chars()
        invariant
            it.seq() == command@,
            found == exists|i: int| 0 <= i < it.index() && is_metacharacter(#[trigger] command@[i]),
    {
        let ghost index = it.index();
        if c == ';' || c == '&' || c == '|' || c == '>' || c == '<' || c == '`' || c == '$' || c
            == '(' || c == ')' || c == '\n' {
            assert(is_metacharacter(command@[index as int]));
            found = true;
        } else {
            assert(!is_metacharacter(command@[index as int]));
        }
    }
    found
}

fn is_git_read(sub: &str) -> (res: bool)
    ensures
        res == read_only_git().contains(sub@),
{
    let listed: [&str; 8] = [
        "status",
        "log",
        "diff",
        "show",
        "branch",
        "blame",
        "remote",
        "ls-files",
    ];
    assert(slice_texts(listed@) == read_only_git());
    one_of(sub, listed.as_slice())
}

fn is_cargo_read(sub: &str) -> (res: bool)
    ensures
        res == read_only_cargo().contains(sub@),
{
    let listed: [&str; 8] = [
        "check",
        "build",
        "test",
        "fmt",
        "clippy",
        "tree",
        "metadata",
        "--version",
    ];
    assert(slice_texts(listed@) == read_only_cargo());
    one_of(sub, listed.as_slice())
}

fn is_plain_read(program: &str) -> (res: bool)
    ensures
        res == read_only_commands().contains(program@),
{
    let listed: [&str; 23] = [
        "ls", "cat", "head", "tail", "grep", "rg", "find", "wc", "file", "stat", "pwd", "which",
        "du", "df", "sort", "uniq", "cut", "tr", "date", "uname", "basename", "dirname", "tree",
    ];
    assert(slice_texts(listed@) == read_only_commands());
    one_of(program, listed.as_slice())
}

/// Conservative classifier: a command is read-only when it has no shell
/// metacharacters and its program (plus subcommand for git/cargo) is
/// allowlisted. Everything else requires approval.
pub fn is_read_only(command: &str) -> (res: bool)
    ensures
        res == read_only(command@),
{
    if has_metacharacter(command) {
        return false;
    }
    let list: Vec<String> = words(command);
    let ghost all = texts(list@);
    assert(all.len() == list@.len());
    if list.len() == 0 {
        return false;
    }
    assert(all[0] == list@[0]@);
    let program: &str = list[0].as_str();
    if same_text(program, "git") {
        list.len() > 1 && is_git_read(list[1].as_str())
    } else if same_text(program, "cargo") {
        list.len() > 1 && is_cargo_read(list[1].as_str())
    } else {
        is_plain_read(program)
    }
}

/// Nothing that chains, redirects or substitutes is taken for read-only,
/// whatever stands before it or after it.
pub proof fn law_metacharacters_need_approval(before: Seq<char>, c: char, after: Seq<char>)
    requires
        is_metacharacter(c),
    ensures
        !read_only(before + seq![c] + after),
{
    let command = before + seq![c] + after;
    assert(command[before.len() as int] == c);
}

// ---------------------------------------------------------------------------
// Approval
// ---------------------------------------------------------------------------

/// Decides whether a non-read-only shell command may run.
pub trait PermissionGate {
    /// Whether the user lets a command run.
    fn approve(&self, command: &str) -> bool;
}

/// Stdin y/N prompt for non-interactive (`claus ask`) sessions.
#[derive(Clone, Copy, Debug)]
pub struct ConsoleGate;

impl ConsoleGate {
    /// What the user is asked before a command runs.
    pub fn question(&self, command: &str) -> (text: String)
        ensures
            text@ == "\n[claus] shell wants to run: "@ + command@ + "\n[claus] allow? [y/N] "@,
    {
        "\n[claus] shell wants to run: ".to_owned().concat(command).concat(
            "\n[claus] allow? [y/N] ",
        )
    }

    /// Whether a line that the user typed lets the command run.
    pub fn is_approval(&self, line: &str) -> (res: bool)
        ensures
            res == (trimmed(line@) == "y"@ || trimmed(line@) == "Y"@ || trimmed(line@) == "yes"@),
    {
        let answer: String = trim(line);
        same_text(answer.as_str(), "y") || same_text(answer.as_str(), "Y") || same_text(
            answer.as_str(),
            "yes",
        )
    }
}

/// What a permission gate says of a command.
#[derive(Clone, Copy, Debug, PartialEq, Eq, Structural)]
pub enum Approval {
    /// There is no gate to ask.
    NoGate,
    /// The user denied the command.
    Denied,
    /// The user approved the command.
    Approved,
}

/// Shell tool guarded by a permission gate: read-only commands run directly,
/// anything state-changing must be approved by the user first.
pub struct Shell<G> {
    pub gate: Option<G>,
}

/// What a call of [`Shell`] asks for.
#[derive(Debug)]
pub struct ShellRequest {
    pub command: String,
    pub timeout_secs: u64,
}

/// The error for a command that may not run.
pub open spec fn refusal(command: Seq<char>, approval: Approval) -> Option<Seq<char>> {
    if read_only(command) {
        None
    } else {
        match approval {
            Approval::Approved => None,
            Approval::Denied => Some("the user denied this command"@),
            Approval::NoGate => Some(
                "command requires approval and no permission gate is available"@,
            ),
        }
    }
}

/// Whether a command runs, given what its permission gate says.
pub fn permit(command: &str, approval: Approval) -> (res: Result<(), String>)
    ensures
        match res {
            Ok(_) => refusal(command@, approval) is None,
            Err(error) => refusal(command@, approval) == Some(error@),
        },
{
    if is_read_only(command) {
        return Ok(());
    }
    match approval {
        Approval::Approved => Ok(()),
        Approval::Denied => Err("the user denied this command".to_owned()),
        Approval::NoGate => Err(
            "command requires approval and no permission gate is available".to_owned(),
        ),
    }
}

/// A command runs only if it is read-only or the user approved it; a read-only
/// one runs whatever a gate would say.
pub proof fn law_commands_need_approval(command: Seq<char>, approval: Approval)
    ensures
        refusal(command, approval) is None <==> read_only(command) || approval
            == Approval::Approved,
{
}

impl<G: PermissionGate> Shell<G> {
    /// A shell with a gate, or without one.
    pub fn new(gate: Option<G>) -> (shell: Shell<G>)
        ensures
            shell.gate == gate,
    {
        Shell { gate }
    }

    /// Whether a command runs. A read-only one runs without asking; of any
    /// other one its gate decides, which is asked about that command, and
    /// without a gate it does not run.
    pub fn authorize(&self, command: &str) -> (res: Result<(), String>)
        ensures
            read_only(command@) ==> res is Ok,
            !read_only(command@) && self.gate is None ==> (res matches Err(error) && refusal(
                command@,
                Approval::NoGate,
            ) == Some(error@)),
            !read_only(command@) && self.gate is Some ==> match res {
                Ok(_) => refusal(command@, Approval::Approved) is None,
                Err(error) => refusal(command@, Approval::Denied) == Some(error@),
            },
            !read_only(command@) ==> (self.gate matches Some(gate) ==> call_ensures(
                G::approve,
                (&gate, command),
                res is Ok,
            )),
    {
        if is_read_only(command) {
            return Ok(());
        }
        let approval: Approval = match &self.gate {
            Some(gate) => if gate.approve(command) {
                Approval::Approved
            } else {
                Approval::Denied
            },
            None => Approval::NoGate,
        };
        permit(command, approval)
    }
}

// ---------------------------------------------------------------------------
// Running a command
// ---------------------------------------------------------------------------

impl<G> Shell<G> {
    /// What the model is told of the tool.
    pub open spec fn told() -> DefinitionModel {
        DefinitionModel {
            name: "shell"@,
            description: "Run a shell command with `sh -c` and return its exit code, stdout and stderr. Read-only commands run directly; anything else asks the user for approval first."@,
            input_schema: schema_model(
                seq![
                    parameter_model("command"@, "string"@, "Command line to execute"@),
                    parameter_model(
                        "timeout_secs"@,
                        "integer"@,
                        "Timeout in seconds (default 120)"@,
                    ),
                ],
                seq!["command"@],
            ),
        }
    }

    /// The name of the tool.
    pub fn name(&self) -> (name: &'static str)
        ensures
            name@ == Self::told().name,
    {
        "shell"
    }

    /// What the tool does, for the model.
    pub fn description(&self) -> (text: &'static str)
        ensures
            text@ == Self::told().description,
    {
        "Run a shell command with `sh -c` and return its exit code, stdout and stderr. Read-only commands run directly; anything else asks the user for approval first."
    }

    /// What the model is told of the tool.
    pub fn definition(&self) -> (definition: ToolDefinition)
        ensures
            definition@ == Self::told(),
    {
        ToolDefinition {
            name: self.name().to_owned(),
            description: self.description().to_owned(),
            input_schema: self.input_schema(),
        }
    }

    /// What the tool takes, for the model.
    pub fn input_schema(&self) -> (document: Json)
        ensures
            document@ == Self::told().input_schema,
    {
        let parameters: [Parameter; 2] = [
            parameter("command", "string", "Command line to execute"),
            parameter("timeout_secs", "integer", "Timeout in seconds (default 120)"),
        ];
        let required: [&str; 1] = ["command"];
        let document: Json = schema(parameters.as_slice(), required.as_slice());
        assert(parameter_models(parameters@) == seq![
            parameter_model("command"@, "string"@, "Command line to execute"@),
            parameter_model("timeout_secs"@, "integer"@, "Timeout in seconds (default 120)"@),
        ]);
        assert(slice_texts(required@) == seq!["command"@]);
        document
    }

    /// What a call asks for.
    pub fn request(&self, input: &Json) -> (res: Result<ShellRequest, String>)
        ensures
            match res {
                Ok(request) => {
                    &&& as_text(at(input@, "command"@)) == Some(request.command@)
                    &&& request.timeout_secs == count_or(
                        at(input@, "timeout_secs"@),
                        DEFAULT_TIMEOUT_SECS,
                    )
                },
                Err(error) => {
                    &&& as_text(at(input@, "command"@)) is None
                    &&& error@ == missing_words("command"@)
                },
            },
    {
        match required_str(input, "command") {
            Ok(command) => Ok(
                ShellRequest {
                    command: command.to_owned(),
                    timeout_secs: count_or_at(input.get("timeout_secs"), DEFAULT_TIMEOUT_SECS),
                },
            ),
            Err(error) => Err(error),
        }
    }
}

/// The report of a command that ended, from the text of its output.
pub open spec fn report_words(code: int, stdout: Seq<char>, stderr: Seq<char>) -> Seq<char> {
    "exit code: "@ + signed_decimal(code) + "\n"@ + (if stdout.len() > 0 {
        "stdout:\n"@ + stdout
    } else {
        Seq::empty()
    }) + (if stderr.len() > 0 {
        "stderr:\n"@ + stderr
    } else {
        Seq::empty()
    })
}

/// The exit code that is reported: of a command that a signal ended, -1.
pub open spec fn exit_code(code: Option<i32>) -> int {
    match code {
        Some(n) => n as int,
        None => -1,
    }
}

/// The report of a command that ended, from the text of its output.
pub fn report_text(code: Option<i32>, stdout: &str, stderr: &str) -> (output: String)
    ensures
        output@ == clipped(
            report_words(exit_code(code), stdout@, stderr@),
            MAX_OUTPUT as nat,
        ),
{
    let number: i64 = match code {
        Some(n) => n as i64,
        None => -1,
    };
    let digits: String = signed_text(number);
    let mut report: String = "exit code: ".to_owned().concat(digits.as_str()).concat("\n");
    let ghost head = report@;
    assert(head + Seq::<char>::empty() == head);
    if !stdout.is_empty() {
        report.append("stdout:\n");
        report.append(stdout);
        assert(report@ == head + ("stdout:\n"@ + stdout@));
    }
    let ghost body = report@;
    assert(body + Seq::<char>::empty() == body);
    if !stderr.is_empty() {
        report.append("stderr:\n");
        report.append(stderr);
        assert(report@ == body + ("stderr:\n"@ + stderr@));
    }
    clip(report, MAX_OUTPUT)
}

/// The report of a command that ended. Output that is UTF-8 is reported as it
/// is.
pub fn report(code: Option<i32>, stdout: &[u8], stderr: &[u8]) -> (output: String)
    ensures
        output@ == clipped(
            report_words(exit_code(code), lossy_text(stdout@), lossy_text(stderr@)),
            MAX_OUTPUT as nat,
        ),
        valid_utf8(stdout@) ==> lossy_text(stdout@) == decode_utf8(stdout@),
        valid_utf8(stderr@) ==> lossy_text(stderr@) == decode_utf8(stderr@),
        valid_utf8(stdout@) && valid_utf8(stderr@) ==> output@ == clipped(
            report_words(exit_code(code), decode_utf8(stdout@), decode_utf8(stderr@)),
            MAX_OUTPUT as nat,
        ),
{
    let out: String = from_lossy(stdout);
    let err: String = from_lossy(stderr);
    report_text(code, out.as_str(), err.as_str())
}

/// The report of a command that took too long.
pub fn timeout_report(seconds: u64) -> (output: String)
    ensures
        output@ == "command timed out after "@ + decimal(seconds as nat) + "s"@,
{
    let number: String = decimal_text(seconds as u128);
    "command timed out after ".to_owned().concat(number.as_str()).concat("s")
}

/// Just these commands run without approval: no character of them chains,
/// redirects or substitutes, and their program is one that only reads, or git
/// or cargo with such a subcommand.
pub proof fn law_only_listed_commands_are_read_only(command: Seq<char>)
    ensures
        read_only(command) <==> {
            let list = words_of(command);
            &&& forall|i: int|
                0 <= i < command.len() ==> {
                    let c = #[trigger] command[i];
                    &&& c != ';' && c != '&' && c != '|' && c != '>' && c != '<'
                    &&& c != '`' && c != '$' && c != '(' && c != ')' && c != '\n'
                }
            &&& list.len() > 0
            &&& {
                ||| list[0] == "ls"@ || list[0] == "cat"@ || list[0] == "head"@ || list[0]
                    == "tail"@ || list[0] == "grep"@ || list[0] == "rg"@
                ||| list[0] == "find"@ || list[0] == "wc"@ || list[0] == "file"@ || list[0]
                    == "stat"@ || list[0] == "pwd"@ || list[0] == "which"@
                ||| list[0] == "du"@ || list[0] == "df"@ || list[0] == "sort"@ || list[0]
                    == "uniq"@ || list[0] == "cut"@ || list[0] == "tr"@
                ||| list[0] == "date"@ || list[0] == "uname"@ || list[0] == "basename"@ || list[0]
                    == "dirname"@ || list[0] == "tree"@
                ||| list[0] == "git"@ && list.len() > 1 && {
                    ||| list[1] == "status"@ || list[1] == "log"@ || list[1] == "diff"@ || list[1]
                        == "show"@
                    ||| list[1] == "branch"@ || list[1] == "blame"@ || list[1] == "remote"@
                        || list[1] == "ls-files"@
                }
                ||| list[0] == "cargo"@ && list.len() > 1 && {
                    ||| list[1] == "check"@ || list[1] == "build"@ || list[1] == "test"@ || list[1]
                        == "fmt"@
                    ||| list[1] == "clippy"@ || list[1] == "tree"@ || list[1] == "metadata"@
                        || list[1] == "--version"@
                }
            }
        },
{
    let list = words_of(command);
    lemma_commands_are_listed(list[0]);
    lemma_subcommands_are_listed(list[1]);
    lemma_git_and_cargo_are_not_listed();
}

proof fn lemma_commands_are_listed(word: Seq<char>)
    ensures
        read_only_commands().contains(word) <==> {
            ||| word == "ls"@ || word == "cat"@ || word == "head"@ || word == "tail"@ || word
                == "grep"@ || word == "rg"@
            ||| word == "find"@ || word == "wc"@ || word == "file"@ || word == "stat"@ || word
                == "pwd"@ || word == "which"@
            ||| word == "du"@ || word == "df"@ || word == "sort"@ || word == "uniq"@ || word
                == "cut"@ || word == "tr"@
            ||| word == "date"@ || word == "uname"@ || word == "basename"@ || word == "dirname"@
                || word == "tree"@
        },
{
    let all = read_only_commands();
    assert(all.len() == 23);
    assert(all[0] == "ls"@ && all[1] == "cat"@ && all[2] == "head"@ && all[3] == "tail"@ && all[4]
        == "grep"@ && all[5] == "rg"@);
    assert(all[6] == "find"@ && all[7] == "wc"@ && all[8] == "file"@ && all[9] == "stat"@
        && all[10] == "pwd"@ && all[11] == "which"@);
    assert(all[12] == "du"@ && all[13] == "df"@ && all[14] == "sort"@ && all[15] == "uniq"@
        && all[16] == "cut"@ && all[17] == "tr"@);
    assert(all[18] == "date"@ && all[19] == "uname"@ && all[20] == "basename"@ && all[21]
        == "dirname"@ && all[22] == "tree"@);
}

proof fn lemma_subcommands_are_listed(word: Seq<char>)
    ensures
        read_only_git().contains(word) <==> {
            ||| word == "status"@ || word == "log"@ || word == "diff"@ || word == "show"@
            ||| word == "branch"@ || word == "blame"@ || word == "remote"@ || word == "ls-files"@
        },
        read_only_cargo().contains(word) <==> {
            ||| word == "check"@ || word == "build"@ || word == "test"@ || word == "fmt"@
            ||| word == "clippy"@ || word == "tree"@ || word == "metadata"@ || word == "--version"@
        },
{
    let git = read_only_git();
    let cargo = read_only_cargo();
    assert(git.len() == 8 && cargo.len() == 8);
    assert(git[0] == "status"@ && git[1] == "log"@ && git[2] == "diff"@ && git[3] == "show"@);
    assert(git[4] == "branch"@ && git[5] == "blame"@ && git[6] == "remote"@ && git[7]
        == "ls-files"@);
    assert(cargo[0] == "check"@ && cargo[1] == "build"@ && cargo[2] == "test"@ && cargo[3]
        == "fmt"@);
    assert(cargo[4] == "clippy"@ && cargo[5] == "tree"@ && cargo[6] == "metadata"@ && cargo[7]
        == "--version"@);
}

proof fn lemma_git_and_cargo_are_not_listed()
    ensures
        !read_only_commands().contains("git"@),
        !read_only_commands().contains("cargo"@),
        "git"@ != "cargo"@,
{
    lemma_commands_are_listed("git"@);
    lemma_commands_are_listed("cargo"@);
    reveal_strlit("git");
    reveal_strlit("cargo");
    reveal_strlit("ls");
    reveal_strlit("cat");
    reveal_strlit("head");
    reveal_strlit("tail");
    reveal_strlit("grep");
    reveal_strlit("rg");
    reveal_strlit("find");
    reveal_strlit("wc");
    reveal_strlit("file");
    reveal_strlit("stat");
    reveal_strlit("pwd");
    reveal_strlit("which");
    reveal_strlit("du");
    reveal_strlit("df");
    reveal_strlit("sort");
    reveal_strlit("uniq");
    reveal_strlit("cut");
    reveal_strlit("tr");
    reveal_strlit("date");
    reveal_strlit("uname");
    reveal_strlit("basename");
    reveal_strlit("dirname");
    reveal_strlit("tree");
    assert("git"@.len() == 3 && "cargo"@.len() == 5);
    assert("git"@[0] == 'g' && "cargo"@[0] == 'c');
    assert("ls"@.len() == 2 && "rg"@.len() == 2 && "wc"@.len() == 2 && "du"@.len() == 2);
    assert("df"@.len() == 2 && "tr"@.len() == 2);
    assert("cat"@[0] == 'c' && "pwd"@[0] == 'p' && "cut"@[0] == 'c');
    assert("cat"@.len() == 3 && "cut"@.len() == 3 && "pwd"@.len() == 3);
    assert("head"@.len() == 4 && "tail"@.len() == 4 && "grep"@.len() == 4 && "find"@.len() == 4);
    assert("file"@.len() == 4 && "stat"@.len() == 4 && "sort"@.len() == 4 && "uniq"@.len() == 4);
    assert("date"@.len() == 4 && "tree"@.len() == 4);
    assert("which"@[0] == 'w' && "uname"@[0] == 'u');
    assert("basename"@.len() == 8 && "dirname"@.len() == 7);
}

/// More arguments do not make a command that only reads one that needs
/// approval, as long as they do not chain, redirect or substitute.
pub proof fn law_arguments_do_not_matter(command: Seq<char>, arguments: Seq<char>)
    requires
        read_only(command),
        !is_opaque(arguments),
    ensures
        read_only(command.push(' ') + arguments),
{
    let whole = command.push(' ') + arguments;
    law_words_are_parted_by_white_space(command, ' ', arguments);
    if is_opaque(whole) {
        let i = choose|i: int| 0 <= i < whole.len() && is_metacharacter(#[trigger] whole[i]);
        if i < command.len() {
            assert(is_metacharacter(command[i]));
        } else if i > command.len() {
            assert(is_metacharacter(arguments[i - command.len() - 1]));
        }
    }
    let list = words_of(command);
    assert(words_of(whole)[0] == list[0]);
    if list.len() > 1 {
        assert(words_of(whole)[1] == list[1]);
    }
    lemma_git_and_cargo_are_not_listed();
}

/// A report tells how a command ended and all that it wrote: first its exit
/// code, then what it wrote to its output, then what it wrote to its errors,
/// each under its heading and left out where it is nothing.
pub proof fn law_report_tells_all(code: Option<i32>, stdout: Seq<char>, stderr: Seq<char>)
    ensures
        ({
            let words = report_words(exit_code(code), stdout, stderr);
            let head = "exit code: "@ + signed_decimal(
                if code is Some {
                    code->Some_0 as int
                } else {
                    -1
                },
            ) + "\n"@;
            &&& stdout.len() == 0 && stderr.len() == 0 ==> words == head
            &&& stdout.len() > 0 && stderr.len() == 0 ==> words == head + "stdout:\n"@ + stdout
            &&& stdout.len() == 0 && stderr.len() > 0 ==> words == head + "stderr:\n"@ + stderr
            &&& stdout.len() > 0 && stderr.len() > 0 ==> words == head + "stdout:\n"@ + stdout
                + "stderr:\n"@ + stderr
        }),
{
}

/// A call gives a command, as it is, and may take two minutes unless it says
/// otherwise.
pub proof fn law_commands_are_taken_as_they_are<G>(
    shell: Shell<G>,
    input: Json,
    res: Result<ShellRequest, String>,
)
    requires
        call_ensures(Shell::<G>::request, (&shell, &input), res),
    ensures
        at(input@, "command"@) is Text <==> res is Ok,
        res matches Ok(request) ==> {
            &&& at(input@, "command"@) == JsonModel::Text(request.command@)
            &&& as_count(at(input@, "timeout_secs"@)) is None ==> request.timeout_secs == 120
            &&& as_count(at(input@, "timeout_secs"@)) matches Some(n) ==> request.timeout_secs == n
        },
{
}

/// Just three answers let a command run, with white space around them or
/// without: y, Y and yes.
pub proof fn law_only_yes_approves(gate: ConsoleGate, line: &str, approved: bool)
    requires
        call_ensures(ConsoleGate::is_approval, (&gate, line), approved),
    ensures
        approved <==> trimmed(line@) == seq!['y'] || trimmed(line@) == seq!['Y'] || trimmed(line@)
            == seq!['y', 'e', 's'],
{
    reveal_strlit("y");
    reveal_strlit("Y");
    reveal_strlit("yes");
    assert("y"@ == seq!['y'] && "Y"@ == seq!['Y'] && "yes"@ == seq!['y', 'e', 's']);
}

/// Without a gate no command runs but those that only read, and with one that
/// denies it none does either; each is told why.
pub proof fn law_refusals_say_why(command: Seq<char>)
    requires
        !read_only(command),
    ensures
        refusal(command, Approval::NoGate) == Some(
            "command requires approval and no permission gate is available"@,
        ),
        refusal(command, Approval::Denied) == Some("the user denied this command"@),
        refusal(command, Approval::Approved) is None,
{
}

/// A report that is not too long is handed on whole; a longer one is clipped at
/// thirty thousand bytes. A command that took too long is told with its limit.
pub proof fn law_reports_are_clipped(
    code: Option<i32>,
    stdout: &str,
    stderr: &str,
    output: String,
    seconds: u64,
    late: String,
)
    requires
        call_ensures(report_text, (code, stdout, stderr), output),
        call_ensures(timeout_report, (seconds,), late),
    ensures
        output@ == clipped(report_words(exit_code(code), stdout@, stderr@), 30_000),
        late@ == "command timed out after "@ + decimal(seconds as nat) + "s"@,
{
}

/// No command but one that only reads, or that the user approved, is let run.
pub proof fn law_unapproved_commands_are_refused(
    command: &str,
    approval: Approval,
    res: Result<(), String>,
    read_only_command: bool,
)
    requires
        call_ensures(permit, (command, approval), res),
        call_ensures(is_read_only, (command,), read_only_command),
    ensures
        res is Ok <==> read_only_command || approval == Approval::Approved,
        read_only_command ==> forall|i: int|
            0 <= i < command@.len() ==> {
                let c = #[trigger] command@[i];
                c != ';' && c != '&' && c != '|' && c != '>' && c != '<' && c != '`' && c != '$'
                    && c != '(' && c != ')' && c != '\n'
            },
{
    law_commands_need_approval(command@, approval);
    law_only_listed_commands_are_read_only(command@);
}

} // verus!
