//! State of the terminal chat interface: what keys and agent events do to it,
//! and what is drawn of it.

use vstd::prelude::*;
use vstd::string::*;

use crate::agent::{AgentEvent, EventModel};
use crate::api::types::{optional_text, zero_usage, Usage};
use crate::json::text_of_document;
use crate::text::layout::{
    is_space, law_lines_follow_each_other, law_trimmed_cuts_white_space, lines, lines_of, trim,
    trimmed,
};
use crate::text::number::{add_up, saturated};
use crate::text::search::{contains, law_contained_between, occurs_in, strip_prefix};
use crate::text::{
    byte_len, char_width, chars_of, lemma_encode_concat, lemma_utf8_len_bounds,
    lemma_utf8_len_push, text_between, texts, utf8_len,
};

verus! {

broadcast use {
    vstd::string::group_string_axioms,
    vstd::seq_lib::group_seq_properties,
};

// ---------------------------------------------------------------------------
// Entries
// ---------------------------------------------------------------------------

/// What an entry of the chat is.
#[derive(Clone, Copy, Debug, PartialEq, Eq, Structural)]
pub enum Kind {
    User,
    Assistant,
    Tool,
    Info,
    Error,
}

/// An entry of the chat.
#[derive(Debug)]
pub struct Entry {
    pub kind: Kind,
    pub text: String,
}

/// What an [`Entry`] stands for.
pub ghost struct EntryModel {
    pub kind: Kind,
    pub text: Seq<char>,
}

impl View for Entry {
    type V = EntryModel;

    open spec fn view(&self) -> EntryModel {
        EntryModel { kind: self.kind, text: self.text@ }
    }
}

/// What a list of entries stands for.
pub open spec fn entry_models(entries: Seq<Entry>) -> Seq<EntryModel> {
    entries.map_values(|e: Entry| e@)
}

/// What the first line of an entry begins with.
pub open spec fn entry_prefix(kind: Kind) -> Seq<char> {
    match kind {
        Kind::User => "you › "@,
        Kind::Assistant => "claus › "@,
        _ => Seq::empty(),
    }
}

/// Whether a blank line follows an entry.
pub open spec fn is_spaced(kind: Kind) -> bool {
    kind == Kind::User || kind == Kind::Assistant
}

/// The lines of an entry as they are drawn.
pub open spec fn drawn_lines(entry: EntryModel) -> Seq<Seq<char>> {
    let all = lines_of(entry.text);
    let drawn = Seq::new(
        all.len(),
        |i: int|
            if i == 0 {
                entry_prefix(entry.kind) + all[i]
            } else {
                all[i]
            },
    );
    if is_spaced(entry.kind) {
        drawn.push(Seq::empty())
    } else {
        drawn
    }
}

/// The lines of an entry as they are drawn.
pub fn entry_lines(entry: &Entry) -> (drawn: Vec<String>)
    ensures
        texts(drawn@) == drawn_lines(entry@),
{
    let all: Vec<String> = lines(entry.text.as_str());
    let ghost rows = lines_of(entry@.text);
    let prefix: &str = match entry.kind {
        Kind::User => "you › ",
        Kind::Assistant => "claus › ",
        _ => "",
    };
    assert(prefix@ == entry_prefix(entry.kind)) by {
        reveal_strlit("");
        assert(""@ == Seq::<char>::empty());
    }
    let mut drawn: Vec<String> = Vec::new();
    let mut i: usize = 0;
    while i < all.len()
        invariant
            i <= all@.len(),
            rows == texts(all@),
            prefix@ == entry_prefix(entry.kind),
            drawn@.len() == i,
            forall|k: int|
                0 <= k < i ==> (#[trigger] drawn@[k])@ == if k == 0 {
                    entry_prefix(entry.kind) + rows[k]
                } else {
                    rows[k]
                },
        decreases all@.len() - i,
    {
        if i == 0 {
            drawn.push(prefix.to_owned().concat(all[i].as_str()));
        } else {
            drawn.push(all[i].clone());
        }
        i += 1;
    }
    let spaced: bool = match entry.kind {
        Kind::User => true,
        Kind::Assistant => true,
        _ => false,
    };
    if spaced {
        drawn.push(String::new());
    }
    assert(texts(drawn@) == drawn_lines(entry@));
    drawn
}

// ---------------------------------------------------------------------------
// Cutting text
// ---------------------------------------------------------------------------

/// Whether a text can be cut to a number of bytes without cutting a character:
/// it is short enough, or its first characters take just as many bytes.
pub open spec fn cuts_at(s: Seq<char>, max: nat) -> bool {
    utf8_len(s) <= max || exists|n: int|
        0 <= n <= s.len() && #[trigger] utf8_len(s.take(n)) == max
}

/// A text, cut to a number of bytes.
pub open spec fn cut_to(s: Seq<char>, max: nat) -> Seq<char> {
    if utf8_len(s) <= max {
        s
    } else {
        s.take(choose|n: int| 0 <= n <= s.len() && #[trigger] utf8_len(s.take(n)) == max)
    }
}

proof fn lemma_prefix_lengths(s: Seq<char>, n: int, m: int)
    requires
        0 <= n < m <= s.len(),
    ensures
        utf8_len(s.take(n)) < utf8_len(s.take(m)),
{
    let middle = s.subrange(n, m);
    assert(s.take(m) == s.take(n) + middle);
    lemma_encode_concat(s.take(n), middle);
    lemma_utf8_len_bounds(middle);
}

/// A text cut to a number of bytes, unless that would cut a character.
pub fn cut_text(s: &str, max: usize) -> (cut: Option<String>)
    ensures
        match cut {
            Some(text) => cuts_at(s@, max as nat) && text@ == cut_to(s@, max as nat),
            None => !cuts_at(s@, max as nat),
        },
{
    if byte_len(s) <= max {
        return Some(s.to_owned());
    }
    let chars: Vec<char> = chars_of(s);
    let total: usize = byte_len(s);
    let mut size: usize = 0;
    let mut n: usize = 0;
    assert(s@.take(0) == Seq::<char>::empty());
    proof {
        lemma_utf8_len_bounds(Seq::<char>::empty());
        assert(s@.take(s@.len() as int) == s@);
    }
    while n < chars.len() && size < max
        invariant
            n <= chars@.len(),
            chars@ == s@,
            total == utf8_len(s@),
            total > max,
            size == utf8_len(s@.take(n as int)),
            forall|k: int| 0 <= k < n ==> #[trigger] utf8_len(s@.take(k)) < max,
        decreases chars@.len() - n,
    {
        proof {
            lemma_utf8_len_push(s@.take(n as int), s@[n as int]);
            assert(s@.take(n as int).push(s@[n as int]) == s@.take(n + 1));
            if n + 1 < s@.len() {
                lemma_prefix_lengths(s@, n + 1, s@.len() as int);
            }
            assert(s@.take(s@.len() as int) == s@);
        }
        size = size + char_width(chars[n]);
        n += 1;
    }
    assert(s@.take(s@.len() as int) == s@);
    if size == max {
        proof {
            let chosen = choose|k: int| 0 <= k <= s@.len() && #[trigger] utf8_len(s@.take(k)) == max;
            if chosen < n {
                lemma_prefix_lengths(s@, chosen, n as int);
            } else if n < chosen {
                lemma_prefix_lengths(s@, n as int, chosen);
            }
        }
        Some(text_between(chars.as_slice(), 0, n))
    } else {
        proof {
            assert forall|k: int| 0 <= k <= s@.len() implies #[trigger] utf8_len(s@.take(k))
                != max by {
                if k >= n && k > n {
                    lemma_prefix_lengths(s@, n as int, k);
                }
            }
        }
        None
    }
}

/// The first characters of a text.
pub open spec fn first_chars(s: Seq<char>, count: int) -> Seq<char> {
    if s.len() <= count {
        s
    } else {
        s.take(count)
    }
}

fn take_chars(s: &str, count: usize) -> (out: String)
    ensures
        out@ == first_chars(s@, count as int),
{
    let chars: Vec<char> = chars_of(s);
    if chars.len() <= count {
        s.to_owned()
    } else {
        text_between(chars.as_slice(), 0, count)
    }
}

/// The first line of a text; empty where it has none.
pub open spec fn first_line(s: Seq<char>) -> Seq<char> {
    if lines_of(s).len() == 0 {
        Seq::empty()
    } else {
        lines_of(s)[0]
    }
}

/// The first line of a text.
pub fn leading_line(s: &str) -> (line: String)
    ensures
        line@ == first_line(s@),
{
    let mut all: Vec<String> = lines(s);
    let ghost rows = texts(all@);
    if all.len() == 0 {
        assert(rows.len() == 0);
        String::new()
    } else {
        assert(rows[0] == all@[0]@);
        all.swap_remove(0)
    }
}

// ---------------------------------------------------------------------------
// The application
// ---------------------------------------------------------------------------

/// Terminal chat interface: renders the conversation, forwards prompts to the
/// agent task and displays its events as they arrive.
#[derive(Debug)]
pub struct App {
    pub entries: Vec<Entry>,
    pub input: String,
    pub scroll_from_bottom: usize,
    pub busy: bool,
    pub spinner_tick: usize,
    pub model: String,
    pub usage: Usage,
    /// Tokens of the latest API round-trip: approximates current context size.
    pub context_tokens: u32,
    pub context_window: u32,
    pub cwd: String,
    pub git_branch: Option<String>,
}

/// What an [`App`] stands for.
pub ghost struct AppModel {
    pub entries: Seq<EntryModel>,
    pub input: Seq<char>,
    pub scroll_from_bottom: usize,
    pub busy: bool,
    pub spinner_tick: usize,
    pub model: Seq<char>,
    pub usage: Usage,
    pub context_tokens: u32,
    pub context_window: u32,
    pub cwd: Seq<char>,
    pub git_branch: Option<Seq<char>>,
}

impl View for App {
    type V = AppModel;

    open spec fn view(&self) -> AppModel {
        AppModel {
            entries: entry_models(self.entries@),
            input: self.input@,
            scroll_from_bottom: self.scroll_from_bottom,
            busy: self.busy,
            spinner_tick: self.spinner_tick,
            model: self.model@,
            usage: self.usage,
            context_tokens: self.context_tokens,
            context_window: self.context_window,
            cwd: self.cwd@,
            git_branch: optional_text(self.git_branch),
        }
    }
}

/// A key that was pressed.
#[derive(Clone, Copy, Debug, PartialEq, Eq, Structural)]
pub enum Key {
    Esc,
    Enter,
    Backspace,
    Up,
    Down,
    PageUp,
    PageDown,
    /// A character, and whether the control key was held.
    Char(char, bool),
    Other,
}

/// What comes of a key.
#[derive(Debug)]
pub enum Pressed {
    /// The application goes on.
    Nothing,
    /// The application ends.
    Quit,
    /// A prompt goes to the agent.
    Prompt(String),
}

/// What a [`Pressed`] stands for.
pub ghost enum PressedModel {
    Nothing,
    Quit,
    Prompt(Seq<char>),
}

impl View for Pressed {
    type V = PressedModel;

    open spec fn view(&self) -> PressedModel {
        match *self {
            Pressed::Nothing => PressedModel::Nothing,
            Pressed::Quit => PressedModel::Quit,
            Pressed::Prompt(text) => PressedModel::Prompt(text@),
        }
    }
}

/// What the chat tells the agent.
#[derive(Debug)]
pub enum UiCommand {
    /// Run a turn.
    Prompt(String),
    /// Drop the conversation.
    Clear,
    /// Cancel the turn that runs.
    Interrupt,
}

impl UiCommand {
    /// Whether a command cancels the turn that runs. Other commands cannot be
    /// sent while a turn is running, so they are ignored.
    pub fn interrupts(&self) -> (res: bool)
        ensures
            res == (*self is Interrupt),
    {
        match self {
            UiCommand::Interrupt => true,
            _ => false,
        }
    }
}

/// The first entry of the chat.
pub const GREETING: &'static str =
    "claus — terminal coding agent. Enter sends, Esc quits, ↑/↓ scroll.";

/// How far the page keys scroll.
pub const PAGE_ROWS: usize = 10;

/// How much is shown of the input of a tool call, in bytes.
pub const SUMMARY_BYTES: usize = 100;

/// How much is shown of a tool result, in characters.
pub const RESULT_CHARS: usize = 100;

/// An entry at the end of the chat.
pub open spec fn with_entry(app: AppModel, kind: Kind, text: Seq<char>) -> AppModel {
    AppModel { entries: app.entries.push(EntryModel { kind, text }), ..app }
}

/// Whether a prompt can be sent: there is one, and no turn is running.
pub open spec fn can_submit(app: AppModel) -> bool {
    trimmed(app.input).len() > 0 && !app.busy
}

/// The application after a prompt was sent.
pub open spec fn submitted(app: AppModel) -> AppModel {
    let prompt = trimmed(app.input);
    AppModel {
        input: Seq::empty(),
        scroll_from_bottom: 0,
        busy: true,
        ..with_entry(app, Kind::User, prompt)
    }
}

/// A number less another, but not below zero.
pub open spec fn less(a: usize, b: usize) -> usize {
    if a < b {
        0
    } else {
        (a - b) as usize
    }
}

/// Whether the view can scroll as far as a key asks for.
pub open spec fn scroll_fits(app: AppModel, key: Key) -> bool {
    match key {
        Key::Up => app.scroll_from_bottom < usize::MAX,
        Key::PageUp => app.scroll_from_bottom + PAGE_ROWS <= usize::MAX,
        _ => true,
    }
}

/// The application after a key, and what comes of it.
pub open spec fn after_key(app: AppModel, key: Key) -> (AppModel, PressedModel) {
    match key {
        Key::Esc => (app, PressedModel::Quit),
        Key::Enter => if can_submit(app) {
            (submitted(app), PressedModel::Prompt(trimmed(app.input)))
        } else {
            (app, PressedModel::Nothing)
        },
        Key::Backspace => (
            AppModel {
                input: if app.input.len() > 0 {
                    app.input.drop_last()
                } else {
                    app.input
                },
                ..app
            },
            PressedModel::Nothing,
        ),
        Key::Up => (
            AppModel { scroll_from_bottom: (app.scroll_from_bottom + 1) as usize, ..app },
            PressedModel::Nothing,
        ),
        Key::Down => (
            AppModel { scroll_from_bottom: less(app.scroll_from_bottom, 1), ..app },
            PressedModel::Nothing,
        ),
        Key::PageUp => (
            AppModel {
                scroll_from_bottom: (app.scroll_from_bottom + PAGE_ROWS) as usize,
                ..app
            },
            PressedModel::Nothing,
        ),
        Key::PageDown => (
            AppModel { scroll_from_bottom: less(app.scroll_from_bottom, PAGE_ROWS), ..app },
            PressedModel::Nothing,
        ),
        Key::Char(c, control) => if c == 'c' && control {
            (app, PressedModel::Quit)
        } else {
            (AppModel { input: app.input.push(c), ..app }, PressedModel::Nothing)
        },
        Key::Other => (app, PressedModel::Nothing),
    }
}

/// Whether an event can be taken in: the token counts that it adds fit, and the
/// input of a tool call can be cut to what is shown of it.
pub open spec fn event_fits(app: AppModel, event: EventModel) -> bool {
    match event {
        EventModel::ToolCall { input, .. } => cuts_at(
            text_of_document(input),
            SUMMARY_BYTES as nat,
        ),
        EventModel::ApiUsage { usage } => {
            &&& usage.input_tokens + usage.output_tokens <= u32::MAX
            &&& app.usage.input_tokens + usage.input_tokens <= u32::MAX
            &&& app.usage.output_tokens + usage.output_tokens <= u32::MAX
        },
        _ => true,
    }
}

/// The entry for a tool call, given the text of its input.
pub open spec fn call_words(name: Seq<char>, input: Seq<char>) -> Seq<char> {
    "⚙ "@ + name + " "@ + cut_to(input, SUMMARY_BYTES as nat)
}

/// The entry for a tool result.
pub open spec fn result_words(name: Seq<char>, output: Seq<char>) -> Seq<char> {
    "  ↳ "@ + name + ": "@ + first_chars(first_line(output), RESULT_CHARS as int)
}

/// The application after an event of the agent.
pub open spec fn after_event(app: AppModel, event: EventModel) -> AppModel {
    let at_bottom = AppModel { scroll_from_bottom: 0, ..app };
    match event {
        EventModel::TextDelta(_) => at_bottom,
        EventModel::AssistantText(text) => with_entry(at_bottom, Kind::Assistant, text),
        EventModel::ToolCall { name, input } => with_entry(
            at_bottom,
            Kind::Tool,
            call_words(name, text_of_document(input)),
        ),
        EventModel::ToolResult { name, output, is_error } => with_entry(
            at_bottom,
            if is_error {
                Kind::Error
            } else {
                Kind::Tool
            },
            result_words(name, output),
        ),
        EventModel::ApiUsage { usage } => AppModel {
            context_tokens: (usage.input_tokens + usage.output_tokens) as u32,
            usage: Usage {
                input_tokens: (app.usage.input_tokens + usage.input_tokens) as u32,
                output_tokens: (app.usage.output_tokens + usage.output_tokens) as u32,
                ..app.usage
            },
            ..at_bottom
        },
        EventModel::TurnComplete => AppModel { busy: false, ..at_bottom },
        EventModel::Interrupted => AppModel { busy: false, ..at_bottom },
        EventModel::Info(text) => with_entry(at_bottom, Kind::Info, text),
        EventModel::Error(message) => AppModel {
            busy: false,
            ..with_entry(at_bottom, Kind::Error, "error: "@ + message)
        },
    }
}

/// The application after the spinner had its turn to move.
pub open spec fn after_tick(app: AppModel) -> AppModel {
    AppModel {
        spinner_tick: if app.busy {
            app.spinner_tick.wrapping_add(1)
        } else {
            app.spinner_tick
        },
        ..app
    }
}

impl App {
    fn push_entry(&mut self, kind: Kind, text: String)
        ensures
            final(self)@ == with_entry(old(self)@, kind, text@),
    {
        let ghost before = self.entries@;
        let entry: Entry = Entry { kind, text };
        self.entries.push(entry);
        assert(entry_models(self.entries@) == entry_models(before).push(entry@));
    }

    /// An application that has not started a turn: it shows a greeting and the
    /// notes of the startup.
    pub fn new(
        model: String,
        startup_notes: Vec<String>,
        cwd: String,
        git_branch: Option<String>,
    ) -> (app: App)
        ensures
            app@ == (AppModel {
                entries: seq![EntryModel { kind: Kind::Info, text: GREETING@ }] + texts(
                    startup_notes@,
                ).map_values(|t: Seq<char>| EntryModel { kind: Kind::Info, text: t }),
                input: Seq::empty(),
                scroll_from_bottom: 0,
                busy: false,
                spinner_tick: 0,
                model: model@,
                usage: zero_usage(),
                context_tokens: 0,
                context_window: window_of(model@),
                cwd: cwd@,
                git_branch: optional_text(git_branch),
            }),
    {
        let context_window: u32 = context_window_for(model.as_str());
        let greeting: Entry = Entry { kind: Kind::Info, text: GREETING.to_owned() };
        let mut app: App = App {
            entries: vec![greeting],
            input: String::new(),
            scroll_from_bottom: 0,
            busy: false,
            spinner_tick: 0,
            model,
            usage: Usage::default(),
            context_tokens: 0,
            context_window,
            cwd,
            git_branch,
        };
        let ghost first = app@;
        let ghost notes = texts(startup_notes@).map_values(
            |t: Seq<char>| EntryModel { kind: Kind::Info, text: t },
        );
        assert(first.entries == seq![greeting@]);
        assert(seq![greeting@] + notes.take(0) == first.entries);
        let mut i: usize = 0;
        while i < startup_notes.len()
            invariant
                i <= startup_notes@.len(),
                notes == texts(startup_notes@).map_values(
                    |t: Seq<char>| EntryModel { kind: Kind::Info, text: t },
                ),
                app@ == (AppModel {
                    entries: seq![greeting@] + notes.take(i as int),
                    ..first
                }),
            decreases startup_notes@.len() - i,
        {
            app.push_entry(Kind::Info, startup_notes[i].clone());
            assert(seq![greeting@] + notes.take(i + 1) == (seq![greeting@] + notes.take(
                i as int,
            )).push(notes[i as int]));
            i += 1;
        }
        assert(notes.take(i as int) == notes);
        app
    }

    /// Takes in a key that was pressed.
    pub fn handle_input(&mut self, key: Key) -> (pressed: Pressed)
        requires
            scroll_fits(old(self)@, key),
        ensures
            final(self)@ == after_key(old(self)@, key).0,
            pressed@ == after_key(old(self)@, key).1,
    {
        match key {
            Key::Esc => {
                return Pressed::Quit;
            },
            Key::Enter => {
                return self.submit();
            },
            Key::Backspace => {
                let chars: Vec<char> = chars_of(self.input.as_str());
                if chars.len() > 0 {
                    self.input = text_between(chars.as_slice(), 0, chars.len() - 1);
                    assert(self.input@ == old(self).input@.drop_last());
                }
            },
            Key::Up => {
                self.scroll_from_bottom = self.scroll_from_bottom + 1;
            },
            Key::Down => {
                self.scroll_from_bottom = minus(self.scroll_from_bottom, 1);
            },
            Key::PageUp => {
                self.scroll_from_bottom = self.scroll_from_bottom + PAGE_ROWS;
            },
            Key::PageDown => {
                self.scroll_from_bottom = minus(self.scroll_from_bottom, PAGE_ROWS);
            },
            Key::Char(c, control) => {
                if c == 'c' && control {
                    return Pressed::Quit;
                }
                self.input.push(c);
            },
            Key::Other => {},
        }
        Pressed::Nothing
    }

    fn submit(&mut self) -> (pressed: Pressed)
        ensures
            final(self)@ == after_key(old(self)@, Key::Enter).0,
            pressed@ == after_key(old(self)@, Key::Enter).1,
    {
        let prompt: String = trim(self.input.as_str());
        if prompt.as_str().is_empty() || self.busy {
            return Pressed::Nothing;
        }
        self.input = String::new();
        self.scroll_from_bottom = 0;
        self.push_entry(Kind::User, prompt.clone());
        self.busy = true;
        Pressed::Prompt(prompt)
    }

    /// Takes in an event of the agent.
    pub fn handle_agent_event(&mut self, event: AgentEvent)
        requires
            event_fits(old(self)@, event@),
        ensures
            final(self)@ == after_event(old(self)@, event@),
    {
        self.scroll_from_bottom = 0;
        match event {
            AgentEvent::TextDelta(_) => {},
            AgentEvent::AssistantText(text) => {
                self.push_entry(Kind::Assistant, text);
            },
            AgentEvent::ToolCall { name, input } => {
                let text: String = input.to_text();
                if let Some(summary) = cut_text(text.as_str(), SUMMARY_BYTES) {
                    self.push_entry(
                        Kind::Tool,
                        "⚙ ".to_owned().concat(name.as_str()).concat(" ").concat(
                            summary.as_str(),
                        ),
                    );
                }
            },
            AgentEvent::ToolResult { name, output, is_error } => {
                let line: String = leading_line(output.as_str());
                let start: String = take_chars(line.as_str(), RESULT_CHARS);
                let kind: Kind = if is_error {
                    Kind::Error
                } else {
                    Kind::Tool
                };
                self.push_entry(
                    kind,
                    "  ↳ ".to_owned().concat(name.as_str()).concat(": ").concat(start.as_str()),
                );
            },
            AgentEvent::ApiUsage { usage } => {
                self.context_tokens = usage.input_tokens + usage.output_tokens;
                self.usage.input_tokens = self.usage.input_tokens + usage.input_tokens;
                self.usage.output_tokens = self.usage.output_tokens + usage.output_tokens;
            },
            AgentEvent::TurnComplete => {
                self.busy = false;
            },
            AgentEvent::Interrupted => {
                self.busy = false;
            },
            AgentEvent::Info(text) => {
                self.push_entry(Kind::Info, text);
            },
            AgentEvent::Error(message) => {
                self.push_entry(Kind::Error, "error: ".to_owned().concat(message.as_str()));
                self.busy = false;
            },
        }
    }

    /// Takes in an event of the agent if it can be taken in, and tells whether
    /// it was.
    pub fn try_agent_event(&mut self, event: AgentEvent) -> (taken: bool)
        ensures
            taken == event_fits(old(self)@, event@),
            final(self)@ == if taken {
                after_event(old(self)@, event@)
            } else {
                old(self)@
            },
    {
        let fits: bool = match &event {
            AgentEvent::ToolCall { input, .. } => {
                let text: String = input.to_text();
                cut_text(text.as_str(), SUMMARY_BYTES).is_some()
            },
            AgentEvent::ApiUsage { usage } => usage.input_tokens <= u32::MAX - usage.output_tokens
                && usage.input_tokens <= u32::MAX - self.usage.input_tokens && usage.output_tokens
                <= u32::MAX - self.usage.output_tokens,
            _ => true,
        };
        if fits {
            self.handle_agent_event(event);
        }
        fits
    }

    /// Moves the spinner on while a turn is running.
    pub fn tick(&mut self)
        ensures
            final(self)@ == after_tick(old(self)@),
    {
        if self.busy {
            self.spinner_tick = self.spinner_tick.wrapping_add(1);
        }
    }
}

fn minus(a: usize, b: usize) -> (c: usize)
    ensures
        c == less(a, b),
{
    if a < b {
        0
    } else {
        a - b
    }
}

/// One turn at a time: while a turn runs no key sends another prompt, and a
/// prompt that is sent is shown, without the white space around it, and starts
/// a turn.
pub proof fn law_one_turn_at_a_time(app: AppModel, key: Key)
    ensures
        app.busy ==> !(after_key(app, key).1 is Prompt),
        after_key(app, key).1 matches PressedModel::Prompt(prompt) ==> {
            &&& prompt == trimmed(app.input)
            &&& prompt.len() > 0
            &&& after_key(app, key).0.busy
            &&& after_key(app, key).0.entries.last() == (EntryModel {
                kind: Kind::User,
                text: prompt,
            })
        },
{
}

/// The end of a turn, however it ends, lets the user send the next prompt; no
/// other event does. Every event takes the view back to the bottom, and no
/// entry is ever dropped.
pub proof fn law_events_only_add_entries(app: AppModel, event: EventModel)
    ensures
        app.entries.is_prefix_of(after_event(app, event).entries),
        after_event(app, event).scroll_from_bottom == 0,
        after_event(app, event).busy == (app.busy && !(event is TurnComplete)
            && !(event is Interrupted) && !(event is Error)),
        after_event(app, event).input == app.input,
{
    let after = after_event(app, event);
    assert(after.entries.take(app.entries.len() as int) == app.entries);
}

// ---------------------------------------------------------------------------
// Drawing
// ---------------------------------------------------------------------------

/// How many rows a line of some characters takes: at least one.
pub open spec fn rows_of(chars: nat, width: nat) -> nat {
    if chars == 0 {
        1
    } else {
        ((chars + width - 1) / (width as int)) as nat
    }
}

/// How many rows lines take together.
pub open spec fn total_rows(list: Seq<Seq<char>>, width: nat) -> nat
    decreases list.len(),
{
    if list.len() == 0 {
        0
    } else {
        total_rows(list.drop_last(), width) + rows_of(list.last().len(), width)
    }
}

/// The first row that is drawn: the rows end at the bottom of the view, unless
/// the user scrolled up, and no further than to the first row.
pub open spec fn first_row(total: nat, height: nat, scroll: nat) -> nat {
    if total <= height + scroll {
        0
    } else {
        (total - height - scroll) as nat
    }
}

fn row_count(chars: usize, width: usize) -> (rows: usize)
    requires
        width > 0,
    ensures
        rows == rows_of(chars as nat, width as nat),
{
    if chars == 0 {
        1
    } else {
        proof {
            let c = chars as int;
            let w = width as int;
            assert((c - 1) / w + 1 == (c + w - 1) / w) by (nonlinear_arith)
                requires
                    w > 0,
            ;
            assert((c - 1) / w <= c - 1) by (nonlinear_arith)
                requires
                    w > 0,
                    c >= 1,
            ;
            assert(0 <= (c - 1) / w) by (nonlinear_arith)
                requires
                    w > 0,
                    c >= 1,
            ;
        }
        (chars - 1) / width + 1
    }
}

/// The first row that is drawn of lines in a view, for a scroll position.
pub fn scroll_offset(list: &[String], width: usize, height: usize, scroll: usize) -> (row: usize)
    requires
        width > 0,
    ensures
        row == first_row(
            saturated(total_rows(texts(list@), width as nat)),
            height as nat,
            scroll as nat,
        ),
{
    let ghost all = texts(list@);
    let mut total: usize = 0;
    let mut i: usize = 0;
    assert(all.take(0) == Seq::<Seq<char>>::empty());
    while i < list.len()
        invariant
            i <= list@.len(),
            width > 0,
            all == texts(list@),
            total == saturated(total_rows(all.take(i as int), width as nat)),
        decreases list@.len() - i,
    {
        assert(all.take(i + 1).drop_last() == all.take(i as int));
        let chars: usize = list[i].as_str().unicode_len();
        total = add_up(total, row_count(chars, width));
        i += 1;
    }
    assert(all.take(i as int) == all);
    let most: usize = minus(total, height);
    let up: usize = if scroll < most {
        scroll
    } else {
        most
    };
    most - up
}

/// What a part of the status line is.
#[derive(Clone, Copy, Debug, PartialEq, Eq, Structural)]
pub enum Tone {
    Folder,
    Branch,
    Dim,
    Model,
    Bar,
    Cost,
    Working,
}

/// A part of the status line.
#[derive(Debug)]
pub struct Span {
    pub tone: Tone,
    pub text: String,
}

/// What a [`Span`] stands for.
pub ghost struct SpanModel {
    pub tone: Tone,
    pub text: Seq<char>,
}

impl View for Span {
    type V = SpanModel;

    open spec fn view(&self) -> SpanModel {
        SpanModel { tone: self.tone, text: self.text@ }
    }
}

/// What a list of spans stands for.
pub open spec fn span_models(spans: Seq<Span>) -> Seq<SpanModel> {
    spans.map_values(|s: Span| s@)
}

/// A text several times in a row.
pub open spec fn repeated(s: Seq<char>, n: nat) -> Seq<char>
    decreases n,
{
    if n == 0 {
        Seq::empty()
    } else {
        repeated(s, (n - 1) as nat) + s
    }
}

fn repeat(s: &str, n: usize) -> (out: String)
    ensures
        out@ == repeated(s@, n as nat),
{
    let mut out: String = String::new();
    let mut i: usize = 0;
    while i < n
        invariant
            i <= n,
            out@ == repeated(s@, i as nat),
        decreases n - i,
    {
        out.append(s);
        i += 1;
    }
    out
}

/// The characters of the spinner, one after the other.
pub open spec fn spinner_at(tick: int) -> Seq<char> {
    let i = tick % 10;
    if i == 0 {
        "⠋"@
    } else if i == 1 {
        "⠙"@
    } else if i == 2 {
        "⠹"@
    } else if i == 3 {
        "⠸"@
    } else if i == 4 {
        "⠼"@
    } else if i == 5 {
        "⠴"@
    } else if i == 6 {
        "⠦"@
    } else if i == 7 {
        "⠧"@
    } else if i == 8 {
        "⠇"@
    } else {
        "⠏"@
    }
}

fn spinner(tick: usize) -> (text: &'static str)
    ensures
        text@ == spinner_at(tick as int),
{
    let i: usize = tick % 10;
    if i == 0 {
        "⠋"
    } else if i == 1 {
        "⠙"
    } else if i == 2 {
        "⠹"
    } else if i == 3 {
        "⠸"
    } else if i == 4 {
        "⠼"
    } else if i == 5 {
        "⠴"
    } else if i == 6 {
        "⠦"
    } else if i == 7 {
        "⠧"
    } else if i == 8 {
        "⠇"
    } else {
        "⠏"
    }
}

/// The cells of the usage bar.
pub const BAR_CELLS: usize = 10;

/// The parts of the status line, given how many cells of the usage bar are
/// filled and the texts of the percentage and the cost:
/// `📁 ~/Projects/x (main) · model · ▰▰▱▱▱▱▱▱▱▱ 22% · $0.53`
pub open spec fn status_spans(
    app: AppModel,
    filled: nat,
    percent: Seq<char>,
    cost: Seq<char>,
) -> Seq<SpanModel> {
    let dot = SpanModel { tone: Tone::Dim, text: " · "@ };
    let place = SpanModel { tone: Tone::Folder, text: "📁 "@ + app.cwd };
    let head = match app.git_branch {
        Some(branch) => seq![
            place,
            SpanModel { tone: Tone::Branch, text: " ("@ + branch + ")"@ },
        ],
        None => seq![place],
    };
    let body = head + seq![
        dot,
        SpanModel { tone: Tone::Model, text: app.model },
        dot,
        SpanModel { tone: Tone::Bar, text: repeated("▰"@, filled) },
        SpanModel {
            tone: Tone::Dim,
            text: repeated("▱"@, less(BAR_CELLS, filled as usize) as nat),
        },
        SpanModel { tone: Tone::Dim, text: " "@ + percent + "%"@ },
        dot,
        SpanModel { tone: Tone::Cost, text: "$"@ + cost },
    ];
    if app.busy {
        body.push(
            SpanModel {
                tone: Tone::Working,
                text: "  "@ + spinner_at(app.spinner_tick as int) + " working"@,
            },
        )
    } else {
        body
    }
}

fn push_span(spans: &mut Vec<Span>, tone: Tone, text: String)
    ensures
        span_models(final(spans)@) == span_models(old(spans)@).push(
            SpanModel { tone, text: text@ },
        ),
{
    let ghost before = spans@;
    let span: Span = Span { tone, text };
    spans.push(span);
    assert(span_models(spans@) == span_models(before).push(span@));
}

impl App {
    /// The parts of the status line, given how many cells of the usage bar are
    /// filled and the texts of the percentage and the cost.
    pub fn status_line(&self, filled: usize, percent: &str, cost: &str) -> (spans: Vec<Span>)
        ensures
            span_models(spans@) == status_spans(self@, filled as nat, percent@, cost@),
    {
        let mut spans: Vec<Span> = Vec::new();
        assert(span_models(spans@) == Seq::<SpanModel>::empty());
        push_span(&mut spans, Tone::Folder, "📁 ".to_owned().concat(self.cwd.as_str()));
        if let Some(branch) = &self.git_branch {
            push_span(
                &mut spans,
                Tone::Branch,
                " (".to_owned().concat(branch.as_str()).concat(")"),
            );
        }
        push_span(&mut spans, Tone::Dim, " · ".to_owned());
        push_span(&mut spans, Tone::Model, self.model.clone());
        push_span(&mut spans, Tone::Dim, " · ".to_owned());
        push_span(&mut spans, Tone::Bar, repeat("▰", filled));
        push_span(&mut spans, Tone::Dim, repeat("▱", minus(BAR_CELLS, filled)));
        push_span(&mut spans, Tone::Dim, " ".to_owned().concat(percent).concat("%"));
        push_span(&mut spans, Tone::Dim, " · ".to_owned());
        push_span(&mut spans, Tone::Cost, "$".to_owned().concat(cost));
        if self.busy {
            push_span(
                &mut spans,
                Tone::Working,
                "  ".to_owned().concat(spinner(self.spinner_tick)).concat(" working"),
            );
        }
        assert(span_models(spans@) == status_spans(self@, filled as nat, percent@, cost@));
        spans
    }
}

// ---------------------------------------------------------------------------
// Models and places
// ---------------------------------------------------------------------------

/// Context window of a model.
pub open spec fn window_of(model: Seq<char>) -> u32 {
    if occurs_in(model, "haiku"@) {
        200_000
    } else {
        1_000_000
    }
}

/// Context window of the configured model, for the usage bar.
pub fn context_window_for(model: &str) -> (window: u32)
    ensures
        window == window_of(model@),
{
    if contains(model, "haiku") {
        200_000
    } else {
        1_000_000
    }
}

/// Prices of a model in dollars per million tokens, of input and of output.
pub open spec fn prices_of(model: Seq<char>) -> (u32, u32) {
    if occurs_in(model, "fable"@) || occurs_in(model, "mythos"@) {
        (10, 50)
    } else if occurs_in(model, "opus"@) {
        (5, 25)
    } else if occurs_in(model, "sonnet-5"@) {
        (2, 10)
    } else if occurs_in(model, "sonnet"@) {
        (3, 15)
    } else if occurs_in(model, "haiku"@) {
        (1, 5)
    } else {
        (5, 25)
    }
}

/// Prices of a model in dollars per million tokens, of input and of output.
pub fn prices(model: &str) -> (per_million: (u32, u32))
    ensures
        per_million == prices_of(model@),
{
    if contains(model, "fable") || contains(model, "mythos") {
        (10, 50)
    } else if contains(model, "opus") {
        (5, 25)
    } else if contains(model, "sonnet-5") {
        (2, 10)
    } else if contains(model, "sonnet") {
        (3, 15)
    } else if contains(model, "haiku") {
        (1, 5)
    } else {
        (5, 25)
    }
}

/// A directory as it is shown: the home directory at its start is a tilde.
pub open spec fn shown_directory(directory: Seq<char>, home: Seq<char>) -> Seq<char> {
    if home.len() > 0 && home.is_prefix_of(directory) {
        "~"@ + directory.skip(home.len() as int)
    } else {
        directory
    }
}

/// The current directory as it is shown.
pub fn abbreviated_cwd(directory: &str, home: &str) -> (text: String)
    ensures
        text@ == shown_directory(directory@, home@),
{
    if !home.is_empty() {
        if let Some(rest) = strip_prefix(directory, home) {
            assert(directory@.subrange(0, home@.len() as int) == directory@.take(
                home@.len() as int,
            ));
            return "~".to_owned().concat(rest.as_str());
        }
    }
    proof {
        if home@.is_prefix_of(directory@) {
            assert(directory@.subrange(0, home@.len() as int) == home@);
        }
    }
    directory.to_owned()
}

/// The branch that the content of `.git/HEAD` names; of a detached head, the
/// first eight characters.
pub open spec fn branch_of(head: Seq<char>) -> Seq<char> {
    let content = trimmed(head);
    if "ref: refs/heads/"@.is_prefix_of(content) {
        content.skip("ref: refs/heads/"@.len() as int)
    } else {
        first_chars(content, 8)
    }
}

/// Current branch from the content of `.git/HEAD`, without spawning git.
pub fn branch_from_head(head: &str) -> (branch: String)
    ensures
        branch@ == branch_of(head@),
{
    let content: String = trim(head);
    match strip_prefix(content.as_str(), "ref: refs/heads/") {
        Some(branch) => {
            assert(content@.subrange(0, "ref: refs/heads/"@.len() as int) == content@.take(
                "ref: refs/heads/"@.len() as int,
            ));
            branch
        },
        None => {
            proof {
                if "ref: refs/heads/"@.is_prefix_of(content@) {
                    assert(content@.subrange(0, "ref: refs/heads/"@.len() as int)
                        == "ref: refs/heads/"@);
                }
            }
            take_chars(content.as_str(), 8)
        },
    }
}

// ---------------------------------------------------------------------------
// What the user sees
// ---------------------------------------------------------------------------

/// An entry is drawn whole: each of its lines, in order and as it is, but for
/// the mark of who speaks in front of the first. What the user and the
/// assistant say, and nothing else, is followed by a blank line.
pub proof fn law_entries_are_drawn_whole(entry: EntryModel)
    ensures
        ({
            let all = lines_of(entry.text);
            let drawn = drawn_lines(entry);
            let spoken = entry.kind == Kind::User || entry.kind == Kind::Assistant;
            &&& drawn.len() == all.len() + if spoken {
                1int
            } else {
                0int
            }
            &&& forall|i: int| 1 <= i < all.len() ==> #[trigger] drawn[i] == all[i]
            &&& all.len() > 0 ==> drawn[0] == match entry.kind {
                Kind::User => "you › "@ + all[0],
                Kind::Assistant => "claus › "@ + all[0],
                _ => all[0],
            }
            &&& spoken ==> drawn.last() == Seq::<char>::empty()
        }),
{
    let all = lines_of(entry.text);
    if all.len() > 0 {
        assert(Seq::<char>::empty() + all[0] == all[0]);
    }
}

/// Cutting keeps the start of a text: all of it where it is short enough, else
/// just as many bytes, or as many characters, as are asked for.
pub proof fn law_cutting_keeps_the_start(s: Seq<char>, max: nat, count: int)
    requires
        cuts_at(s, max),
        count >= 0,
    ensures
        cut_to(s, max).is_prefix_of(s),
        utf8_len(s) <= max ==> cut_to(s, max) == s,
        utf8_len(s) > max ==> utf8_len(cut_to(s, max)) == max,
        first_chars(s, count).is_prefix_of(s),
        s.len() <= count ==> first_chars(s, count) == s,
        s.len() > count ==> first_chars(s, count).len() == count,
{
    if utf8_len(s) > max {
        let n = choose|n: int| 0 <= n <= s.len() && #[trigger] utf8_len(s.take(n)) == max;
        assert(utf8_len(s.take(n)) == max);
        assert(s.take(n).is_prefix_of(s));
    }
}

/// The first line of a text is what stands before its first line feed.
pub proof fn law_first_line_ends_at_the_feed(line: Seq<char>, rest: Seq<char>)
    requires
        !line.contains('\n'),
        line.len() == 0 || line.last() != '\r',
    ensures
        first_line(line.push('\n') + rest) == line,
        first_line(line) == line,
{
    law_lines_follow_each_other(line, rest);
    assert((seq![line] + lines_of(rest))[0] == line);
    if line.len() == 0 {
        assert(line == Seq::<char>::empty());
    }
}

/// What an event shows is the last entry: a text of the assistant and a note as
/// they are, a tool call by its name and the start of its input, a tool result
/// by the tool's name and the start of its first line, marked as an error just
/// if it is one, and a failure by what it says. Other events show nothing.
pub proof fn law_events_show_what_they_say(app: AppModel, event: EventModel)
    ensures
        ({
            let now = after_event(app, event);
            let shows = event is AssistantText || event is ToolCall || event is ToolResult
                || event is Info || event is Error;
            &&& now.entries.len() == app.entries.len() + if shows {
                1int
            } else {
                0int
            }
            &&& now.entries.take(app.entries.len() as int) == app.entries
            &&& event matches EventModel::AssistantText(text) ==> now.entries.last().kind
                == Kind::Assistant && now.entries.last().text == text
            &&& event matches EventModel::Info(text) ==> now.entries.last().kind == Kind::Info
                && now.entries.last().text == text
            &&& event matches EventModel::Error(text) ==> now.entries.last().kind == Kind::Error
                && now.entries.last().text == "error: "@ + text
            &&& event matches EventModel::ToolCall { name, input } ==> now.entries.last().kind
                == Kind::Tool && now.entries.last().text == "⚙ "@ + name + " "@ + cut_to(
                text_of_document(input),
                100,
            )
            &&& event matches EventModel::ToolResult { name, output, is_error } ==> {
                &&& now.entries.last().kind == if is_error {
                    Kind::Error
                } else {
                    Kind::Tool
                }
                &&& now.entries.last().text == "  ↳ "@ + name + ": "@ + first_chars(
                    first_line(output),
                    100,
                )
            }
            &&& now.model == app.model && now.cwd == app.cwd
            &&& now.git_branch == app.git_branch && now.context_window == app.context_window
            &&& now.spinner_tick == app.spinner_tick
        }),
{
    assert(app.entries.take(app.entries.len() as int) == app.entries);
}

/// The token counts are the sums over all requests, and the context is that of
/// the latest one; no other event changes them.
pub proof fn law_usage_adds_up(app: AppModel, event: EventModel)
    requires
        event_fits(app, event),
    ensures
        ({
            let now = after_event(app, event);
            if let EventModel::ApiUsage { usage } = event {
                &&& now.usage.input_tokens == app.usage.input_tokens + usage.input_tokens
                &&& now.usage.output_tokens == app.usage.output_tokens + usage.output_tokens
                &&& now.usage.cache_creation_input_tokens == app.usage.cache_creation_input_tokens
                &&& now.usage.cache_read_input_tokens == app.usage.cache_read_input_tokens
                &&& now.context_tokens == usage.input_tokens + usage.output_tokens
            } else {
                now.usage == app.usage && now.context_tokens == app.context_tokens
            }
        }),
{
}

/// Keys do what they say: a character is typed at the end of the input, the
/// backspace takes the last one back, so that it undoes a typed one, and the
/// arrows and page keys move the view up and back down as far. The escape key
/// and control with the letter c end the application, and only these.
pub proof fn law_keys_do_what_they_say(app: AppModel, c: char)
    requires
        scroll_fits(app, Key::PageUp),
    ensures
        ({
            let typed = after_key(app, Key::Char(c, false));
            &&& typed.0.input == app.input + seq![c]
            &&& typed.0 == (AppModel { input: typed.0.input, ..app })
            &&& typed.1 is Nothing
            &&& after_key(typed.0, Key::Backspace).0 == app
        }),
        app.input.len() == 0 ==> after_key(app, Key::Backspace).0 == app,
        after_key(app, Key::Up).0.scroll_from_bottom == app.scroll_from_bottom + 1,
        after_key(app, Key::PageUp).0.scroll_from_bottom == app.scroll_from_bottom + 10,
        after_key(after_key(app, Key::Up).0, Key::Down).0 == app,
        after_key(after_key(app, Key::PageUp).0, Key::PageDown).0 == app,
        app.scroll_from_bottom == 0 ==> after_key(app, Key::Down).0 == app,
        app.scroll_from_bottom <= 10 ==> after_key(app, Key::PageDown).0.scroll_from_bottom == 0,
        after_key(app, Key::Other).0 == app,
        after_key(app, Key::Esc).1 is Quit,
        after_key(app, Key::Char('c', true)).1 is Quit,
        forall|key: Key|
            #![trigger after_key(app, key)]
            after_key(app, key).1 is Quit ==> key == Key::Esc || key == Key::Char('c', true),
        forall|key: Key|
            #![trigger after_key(app, key)]
            key != Key::Enter ==> after_key(app, key).0.entries == app.entries && after_key(
                app,
                key,
            ).0.busy == app.busy,
{
    let typed = after_key(app, Key::Char(c, false)).0;
    assert(typed.input.drop_last() == app.input);
    assert(app.input.push(c) == app.input + seq![c]);
}

/// A prompt that is sent is what was typed, without the white space around it,
/// shown behind all that was said; the input is empty then and the view at the
/// bottom. Where a turn runs or nothing was typed, nothing changes.
pub proof fn law_enter_sends_what_was_typed(app: AppModel)
    ensures
        ({
            let (now, pressed) = after_key(app, Key::Enter);
            if app.busy || forall|i: int|
                0 <= i < app.input.len() ==> is_space(#[trigger] app.input[i]) {
                now == app && pressed is Nothing
            } else {
                &&& pressed == PressedModel::Prompt(trimmed(app.input))
                &&& now.entries.len() == app.entries.len() + 1
                &&& now.entries.take(app.entries.len() as int) == app.entries
                &&& now.entries.last().kind == Kind::User
                &&& now.entries.last().text == trimmed(app.input)
                &&& now.input.len() == 0 && now.busy && now.scroll_from_bottom == 0
                &&& now.usage == app.usage && now.context_tokens == app.context_tokens
                &&& now.model == app.model && now.cwd == app.cwd
            }
        }),
{
    law_trimmed_cuts_white_space(app.input);
}

/// A line takes the fewest rows that hold its characters, but one at least, and
/// lines take the rows of each of them.
pub proof fn law_rows_hold_the_characters(
    chars: nat,
    width: nat,
    first: Seq<Seq<char>>,
    second: Seq<Seq<char>>,
    line: Seq<char>,
)
    requires
        width > 0,
    ensures
        rows_of(chars, width) >= 1,
        rows_of(chars, width) * width >= chars,
        chars > 0 ==> (rows_of(chars, width) - 1) * width < chars,
        total_rows(first + second, width) == total_rows(first, width) + total_rows(second, width),
        total_rows(seq![line], width) == rows_of(line.len(), width),
    decreases second.len(),
{
    if chars > 0 {
        let rows = (chars + width - 1) / (width as int);
        assert(rows * width >= chars && (rows - 1) * width < chars && rows >= 1)
            by (nonlinear_arith)
            requires
                width > 0,
                chars > 0,
                rows == (chars + width - 1) / (width as int),
        ;
    }
    assert(seq![line].drop_last() == Seq::<Seq<char>>::empty());
    assert(total_rows(Seq::<Seq<char>>::empty(), width) == 0);
    if second.len() == 0 {
        assert(first + second == first);
    } else {
        assert((first + second).drop_last() == first + second.drop_last());
        law_rows_hold_the_characters(chars, width, first, second.drop_last(), line);
    }
}

/// The view ends with the last row unless the user scrolled up; scrolling up
/// moves it by as many rows, but no further than to the first.
pub proof fn law_view_ends_with_the_last_row(total: nat, height: nat, scroll: nat)
    ensures
        total >= height ==> first_row(total, height, 0) + height == total,
        total < height ==> first_row(total, height, 0) == 0,
        first_row(total, height, scroll) <= first_row(total, height, 0),
        first_row(total, height, 0) >= scroll ==> first_row(total, height, scroll) + scroll
            == first_row(total, height, 0),
        first_row(total, height, 0) < scroll ==> first_row(total, height, scroll) == 0,
{
}

/// A text that is repeated is as long as it is, as many times, and repeating it
/// further goes on where it stopped.
pub proof fn law_repeating_goes_on(s: Seq<char>, n: nat, m: nat)
    ensures
        repeated(s, n + m) == repeated(s, n) + repeated(s, m),
        repeated(s, 0) == Seq::<char>::empty(),
        repeated(s, 1) == s,
    decreases m,
{
    assert(repeated(s, 0) + s == s);
    if m == 0 {
        assert(repeated(s, n) + repeated(s, 0) == repeated(s, n));
    } else {
        law_repeating_goes_on(s, n, (m - 1) as nat);
        assert(repeated(s, n) + repeated(s, (m - 1) as nat) + s == repeated(s, n) + repeated(
            s,
            m,
        ));
    }
}

/// The status line tells, in order, the place, the branch where there is one,
/// the model, how full the context is, in ten cells and as a percentage, and the
/// cost; while a turn runs it ends with a spinner, and only then.
pub proof fn law_status_tells_the_state(
    app: AppModel,
    filled: nat,
    percent: Seq<char>,
    cost: Seq<char>,
)
    requires
        filled <= 10,
    ensures
        ({
            let spans = status_spans(app, filled, percent, cost);
            let k: int = if app.git_branch is Some {
                2
            } else {
                1
            };
            &&& spans.len() == k + 8 + if app.busy {
                1int
            } else {
                0int
            }
            &&& spans[0].text == "📁 "@ + app.cwd
            &&& app.git_branch matches Some(branch) ==> spans[1].text == " ("@ + branch + ")"@
            &&& spans[k].text == " · "@ && spans[k + 2].text == " · "@ && spans[k + 6].text
                == " · "@
            &&& spans[k + 1].text == app.model
            &&& spans[k + 3].text == repeated("▰"@, filled)
            &&& spans[k + 4].text == repeated("▱"@, (10 - filled) as nat)
            &&& spans[k + 5].text == " "@ + percent + "%"@
            &&& spans[k + 7].text == "$"@ + cost
            &&& app.busy ==> spans[k + 8].text == "  "@ + spinner_at(app.spinner_tick as int)
                + " working"@
        }),
{
}

/// The spinner goes round.
pub proof fn law_spinner_goes_round(tick: int)
    ensures
        spinner_at(tick + 10) == spinner_at(tick),
{
}

/// The home directory at the start of a directory is shown as a tilde, and all
/// else of it as it is.
pub proof fn law_home_is_shown_as_a_tilde(directory: Seq<char>, home: Seq<char>, rest: Seq<char>)
    ensures
        home.len() > 0 ==> shown_directory(home + rest, home) == "~"@ + rest,
        home.len() == 0 || !home.is_prefix_of(directory) ==> shown_directory(directory, home)
            == directory,
{
    let whole = home + rest;
    assert(whole.take(home.len() as int) == home);
    assert(whole.skip(home.len() as int) == rest);
    assert(home.is_prefix_of(whole));
}

/// A head that names a branch gives its name, and any other the first eight
/// characters of what it says.
pub proof fn law_head_names_its_branch(name: Seq<char>, head: Seq<char>)
    ensures
        trimmed(head) == "ref: refs/heads/"@ + name ==> branch_of(head) == name,
        !("ref: refs/heads/"@.is_prefix_of(trimmed(head))) ==> branch_of(head) == first_chars(
            trimmed(head),
            8,
        ),
{
    let mark = "ref: refs/heads/"@;
    let whole = mark + name;
    assert(whole.take(mark.len() as int) == mark);
    assert(whole.skip(mark.len() as int) == name);
    assert(mark.is_prefix_of(whole));
}

/// What a model costs, and how much it takes in, goes by the name of its family,
/// wherever that stands in the name of the model.
pub proof fn law_families_have_their_prices(before: Seq<char>, after: Seq<char>)
    ensures
        prices_of(before + "fable"@ + after) == (10u32, 50u32),
        prices_of(before + "mythos"@ + after) == (10u32, 50u32),
        ({
            let model = before + "opus"@ + after;
            !occurs_in(model, "fable"@) && !occurs_in(model, "mythos"@) ==> prices_of(model) == (
                5u32,
                25u32,
            )
        }),
        ({
            let model = before + "haiku"@ + after;
            &&& !occurs_in(model, "fable"@) && !occurs_in(model, "mythos"@) && !occurs_in(
                model,
                "opus"@,
            ) && !occurs_in(model, "sonnet"@) && !occurs_in(model, "sonnet-5"@) ==> prices_of(model)
                == (1u32, 5u32)
            &&& window_of(model) == 200_000
        }),
        ({
            let model = before + "sonnet-5"@ + after;
            !occurs_in(model, "fable"@) && !occurs_in(model, "mythos"@) && !occurs_in(model, "opus"@)
                ==> prices_of(model) == (2u32, 10u32)
        }),
        ({
            let model = before + "sonnet"@ + after;
            !occurs_in(model, "fable"@) && !occurs_in(model, "mythos"@) && !occurs_in(model, "opus"@)
                && !occurs_in(model, "sonnet-5"@) ==> prices_of(model) == (3u32, 15u32)
        }),
        forall|model: Seq<char>|
            !occurs_in(model, "fable"@) && !occurs_in(model, "mythos"@) && !occurs_in(model, "opus"@)
                && !occurs_in(model, "sonnet-5"@) && !occurs_in(model, "sonnet"@) && !occurs_in(
                model,
                "haiku"@,
            ) ==> #[trigger] prices_of(model) == (5u32, 25u32),
        forall|model: Seq<char>|
            !occurs_in(model, "haiku"@) ==> #[trigger] window_of(model) == 1_000_000,
{
    law_contained_between(before, "fable"@, after);
    law_contained_between(before, "mythos"@, after);
    law_contained_between(before, "opus"@, after);
    law_contained_between(before, "haiku"@, after);
    law_contained_between(before, "sonnet"@, after);
    law_contained_between(before, "sonnet-5"@, after);
}

/// The chat starts with a greeting and the notes of the startup, in order, ready
/// for a prompt.
pub proof fn law_chat_starts_with_its_notes(
    model: String,
    notes: Vec<String>,
    cwd: String,
    branch: Option<String>,
    app: App,
)
    requires
        call_ensures(App::new, (model, notes, cwd, branch), app),
    ensures
        app@.entries.len() == notes@.len() + 1,
        forall|i: int|
            0 <= i < notes@.len() ==> app@.entries[i + 1] == (EntryModel {
                kind: Kind::Info,
                text: (#[trigger] notes@[i])@,
            }),
        app@.entries[0].kind == Kind::Info,
        !app@.busy,
        app@.input.len() == 0,
        app@.scroll_from_bottom == 0,
        app@.model == model@,
        app@.cwd == cwd@,
        app@.usage == zero_usage(),
        app@.context_tokens == 0,
        app@.context_window == window_of(model@),
        branch matches Some(name) ==> app@.git_branch == Some(name@),
        branch is None ==> app@.git_branch is None,
{
    assert forall|i: int| 0 <= i < notes@.len() implies app@.entries[i + 1] == (EntryModel {
        kind: Kind::Info,
        text: (#[trigger] notes@[i])@,
    }) by {
        assert(texts(notes@)[i] == notes@[i]@);
    }
}

/// The spinner moves just while a turn runs, and nothing else does.
pub proof fn law_spinner_moves_while_a_turn_runs(app: AppModel)
    ensures
        !app.busy ==> after_tick(app) == app,
        app.busy && app.spinner_tick < usize::MAX ==> after_tick(app).spinner_tick
            == app.spinner_tick + 1,
        after_tick(app) == (AppModel { spinner_tick: after_tick(app).spinner_tick, ..app }),
{
}

/// Every event but a tool call and a count of tokens can be taken in; so can a
/// tool call whose input is no longer than what is shown of it, and a count that
/// does not go beyond the largest.
pub proof fn law_ordinary_events_are_taken_in(app: AppModel, event: EventModel)
    ensures
        !(event is ToolCall) && !(event is ApiUsage) ==> event_fits(app, event),
        event matches EventModel::ToolCall { name, input } ==> (utf8_len(text_of_document(input))
            <= 100 ==> event_fits(app, event)),
        event matches EventModel::ApiUsage { usage } ==> (event_fits(app, event) <==> {
            &&& usage.input_tokens + usage.output_tokens <= u32::MAX
            &&& app.usage.input_tokens + usage.input_tokens <= u32::MAX
            &&& app.usage.output_tokens + usage.output_tokens <= u32::MAX
        }),
{
}

/// A text can be cut to a number of bytes just if it is short enough or some of
/// its first characters take as many.
pub proof fn law_texts_are_cut_between_characters(s: Seq<char>, max: nat, n: int)
    ensures
        utf8_len(s) <= max ==> cuts_at(s, max),
        0 <= n <= s.len() && utf8_len(s.take(n)) == max ==> cuts_at(s, max),
        cuts_at(s, max) && utf8_len(s) > max ==> exists|k: int|
            0 <= k <= s.len() && #[trigger] utf8_len(s.take(k)) == max,
{
}

} // verus!
