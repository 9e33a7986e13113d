//! The tools that a model can call: their registry, and what each of them
//! computes around its outside work.

pub mod fs;
pub mod lsp;
pub mod mcp;
pub mod rag;
pub mod schema;
pub mod search;
pub mod shell;

use vstd::prelude::*;
use vstd::string::*;

use crate::api::types::{definition_models, DefinitionModel, ToolDefinition};
use crate::text::number::{decimal, decimal_of};
use crate::text::{
    byte_len, char_width, lemma_encode_concat, lemma_utf8_len_bounds, lemma_utf8_len_push,
    same_text, utf8_len, utf8_width,
};

verus! {

broadcast use {
    vstd::string::group_string_axioms,
    vstd::seq_lib::group_seq_properties,
};

// ---------------------------------------------------------------------------
// The registry
// ---------------------------------------------------------------------------

/// A tool as the registry knows it: what the model is told of it, and the
/// number under which its owner keeps the code that runs it.
#[derive(Debug)]
pub struct RegisteredTool {
    pub definition: ToolDefinition,
    pub handle: usize,
}

/// What a [`RegisteredTool`] stands for.
pub ghost struct ToolModel {
    pub definition: DefinitionModel,
    pub handle: usize,
}

impl View for RegisteredTool {
    type V = ToolModel;

    open spec fn view(&self) -> ToolModel {
        ToolModel { definition: self.definition@, handle: self.handle }
    }
}

impl Clone for RegisteredTool {
    fn clone(&self) -> (res: Self)
        ensures
            res@ == self@,
    {
        RegisteredTool { definition: self.definition.clone(), handle: self.handle }
    }
}

/// Set of tools exposed to one agent, addressable by name.
#[derive(Debug)]
pub struct Registry {
    pub tools: Vec<RegisteredTool>,
}

impl View for Registry {
    type V = Seq<ToolModel>;

    open spec fn view(&self) -> Seq<ToolModel> {
        self.tools@.map_values(|t: RegisteredTool| t@)
    }
}

/// The first tool with a name.
pub open spec fn tool_named(tools: Seq<ToolModel>, name: Seq<char>) -> Option<ToolModel>
    decreases tools.len(),
{
    if tools.len() == 0 {
        None
    } else if tools[0].definition.name == name {
        Some(tools[0])
    } else {
        tool_named(tools.drop_first(), name)
    }
}

/// The tools that do not have a name, in their order.
pub open spec fn tools_without(tools: Seq<ToolModel>, name: Seq<char>) -> Seq<ToolModel>
    decreases tools.len(),
{
    if tools.len() == 0 {
        tools
    } else if tools.last().definition.name == name {
        tools_without(tools.drop_last(), name)
    } else {
        tools_without(tools.drop_last(), name).push(tools.last())
    }
}

impl Registry {
    /// A registry without tools.
    pub fn new() -> (registry: Registry)
        ensures
            registry@ == Seq::<ToolModel>::empty(),
    {
        let registry: Registry = Registry { tools: Vec::new() };
        assert(registry@ == Seq::<ToolModel>::empty());
        registry
    }

    /// Adds a tool after the others.
    pub fn register(&mut self, tool: RegisteredTool)
        ensures
            final(self)@ == old(self)@.push(tool@),
    {
        self.tools.push(tool);
        assert(self@ == old(self)@.push(tool@));
    }

    /// What the model is told of each tool, in order.
    pub fn definitions(&self) -> (definitions: Vec<ToolDefinition>)
        ensures
            definition_models(definitions@) == self@.map_values(|t: ToolModel| t.definition),
    {
        let mut definitions: Vec<ToolDefinition> = Vec::new();
        let mut i: usize = 0;
        while i < self.tools.len()
            invariant
                i <= self.tools@.len(),
                definitions@.len() == i,
                forall|k: int|
                    0 <= k < i ==> (#[trigger] definitions@[k])@ == self.tools@[k].definition@,
            decreases self.tools@.len() - i,
        {
            definitions.push(self.tools[i].definition.clone());
            i += 1;
        }
        assert(definition_models(definitions@) == self@.map_values(|t: ToolModel| t.definition));
        definitions
    }

    /// The handle of the tool that a call names, or the error that is sent
    /// back to the model.
    pub fn find(&self, name: &str) -> (handle: Result<usize, String>)
        ensures
            match handle {
                Ok(found) => tool_named(self@, name@) matches Some(tool) && tool.handle == found,
                Err(error) => {
                    &&& tool_named(self@, name@) is None
                    &&& error@ == "unknown tool: "@ + name@
                },
            },
    {
        let mut i: usize = 0;
        assert(self@.skip(0) == self@);
        while i < self.tools.len()
            invariant
                i <= self.tools@.len(),
                tool_named(self@, name@) == tool_named(self@.skip(i as int), name@),
            decreases self.tools@.len() - i,
        {
            assert(self@.skip(i as int)[0] == self.tools@[i as int]@);
            if same_text(self.tools[i].definition.name.as_str(), name) {
                return Ok(self.tools[i].handle);
            }
            assert(self@.skip(i as int).drop_first() == self@.skip(i + 1));
            i += 1;
        }
        Err("unknown tool: ".to_owned().concat(name))
    }

    /// Copy of this registry without the named tool (used to bound sub-agent
    /// recursion).
    pub fn without(&self, name: &str) -> (registry: Registry)
        ensures
            registry@ == tools_without(self@, name@),
    {
        let mut registry: Registry = Registry::new();
        let mut i: usize = 0;
        assert(self@.take(0) == Seq::<ToolModel>::empty());
        while i < self.tools.len()
            invariant
                i <= self.tools@.len(),
                registry@ == tools_without(self@.take(i as int), name@),
            decreases self.tools@.len() - i,
        {
            assert(self@.take(i + 1).drop_last() == self@.take(i as int));
            assert(self@.take(i + 1).last() == self.tools@[i as int]@);
            if !same_text(self.tools[i].definition.name.as_str(), name) {
                registry.register(self.tools[i].clone());
            }
            i += 1;
        }
        assert(self@.take(i as int) == self@);
        registry
    }
}

impl Default for Registry {
    fn default() -> (registry: Registry)
        ensures
            registry@ == Seq::<ToolModel>::empty(),
    {
        Registry::new()
    }
}

impl Clone for Registry {
    fn clone(&self) -> (res: Self)
        ensures
            res@ == self@,
    {
        let mut registry: Registry = Registry::new();
        let mut i: usize = 0;
        while i < self.tools.len()
            invariant
                i <= self.tools@.len(),
                registry@ == self@.take(i as int),
            decreases self.tools@.len() - i,
        {
            registry.register(self.tools[i].clone());
            i += 1;
            assert(self@.take(i as int) == self@.take(i - 1).push(self.tools@[i - 1]@));
        }
        assert(self@.take(i as int) == self@);
        registry
    }
}

/// A registry without a tool does not find it, and finds every other tool as
/// before.
pub proof fn law_without_hides_only_the_named(
    tools: Seq<ToolModel>,
    name: Seq<char>,
    other: Seq<char>,
)
    ensures
        tool_named(tools_without(tools, name), name) is None,
        other != name ==> tool_named(tools_without(tools, name), other) == tool_named(tools, other),
        forall|i: int|
            0 <= i < tools_without(tools, name).len() ==> (#[trigger] tools_without(
                tools,
                name,
            )[i]).definition.name != name,
    decreases tools.len(),
{
    if tools.len() > 0 {
        let front = tools.drop_last();
        law_without_hides_only_the_named(front, name, other);
        assert(front.push(tools.last()) == tools);
        lemma_named_after_push(front, tools.last(), other);
        lemma_named_after_push(tools_without(front, name), tools.last(), other);
        lemma_named_after_push(tools_without(front, name), tools.last(), name);
    }
}

proof fn lemma_named_after_push(tools: Seq<ToolModel>, tool: ToolModel, name: Seq<char>)
    ensures
        tool_named(tools.push(tool), name) == match tool_named(tools, name) {
            Some(found) => Some(found),
            None => if tool.definition.name == name {
                Some(tool)
            } else {
                None
            },
        },
    decreases tools.len(),
{
    let more = tools.push(tool);
    if tools.len() == 0 {
        assert(more.drop_first() == Seq::<ToolModel>::empty());
    } else {
        assert(more.drop_first() == tools.drop_first().push(tool));
        lemma_named_after_push(tools.drop_first(), tool, name);
    }
}

// ---------------------------------------------------------------------------
// Clipping output
// ---------------------------------------------------------------------------

/// How many characters of a text begin within its first `max` bytes.
pub open spec fn begun_within(s: Seq<char>, max: int) -> nat
    decreases s.len(),
{
    if s.len() == 0 || max <= 0 {
        0
    } else {
        1 + begun_within(s.drop_first(), max - utf8_width(s[0]))
    }
}

/// The part of a text that clipping keeps.
pub open spec fn kept_part(s: Seq<char>, max: nat) -> Seq<char> {
    s.take(begun_within(s, max as int) as int)
}

/// A text, clipped.
pub open spec fn clipped(s: Seq<char>, max: nat) -> Seq<char> {
    if utf8_len(s) <= max {
        s
    } else {
        kept_part(s, max) + "\n... [truncated "@ + decimal(
            (utf8_len(s) - utf8_len(kept_part(s, max))) as nat,
        ) + " bytes]"@
    }
}

proof fn lemma_begun_within(s: Seq<char>, max: int)
    requires
        0 <= max,
    ensures
        begun_within(s, max) <= s.len(),
        utf8_len(s) > max ==> max <= utf8_len(s.take(begun_within(s, max) as int)) < max + 4,
    decreases s.len(),
{
    lemma_utf8_len_bounds(s);
    if s.len() == 0 {
        lemma_utf8_len_bounds(Seq::<char>::empty());
    } else if max == 0 {
        lemma_utf8_len_bounds(s.take(0));
    } else {
        let rest = s.drop_first();
        let width = utf8_width(s[0]) as int;
        let head = seq![s[0]];
        assert(Seq::<char>::empty().push(s[0]) == head);
        lemma_utf8_len_push(Seq::empty(), s[0]);
        lemma_utf8_len_bounds(Seq::<char>::empty());
        lemma_utf8_len_bounds(head);
        assert(s == head + rest);
        lemma_encode_concat(head, rest);
        if max - width >= 0 {
            lemma_begun_within(rest, max - width);
            let count = begun_within(rest, max - width) as int;
            assert(s.take(count + 1) == head + rest.take(count));
            lemma_encode_concat(head, rest.take(count));
        } else {
            assert(begun_within(rest, max - width) == 0);
            assert(s.take(1) == head);
        }
    }
}

/// Clipping leaves short output alone; of longer output it keeps a prefix of
/// `max` bytes, or up to three more where a character lies across the limit.
pub proof fn law_clip_keeps_a_bounded_prefix(s: Seq<char>, max: nat)
    ensures
        utf8_len(s) <= max ==> clipped(s, max) == s,
        utf8_len(s) > max ==> {
            &&& kept_part(s, max).is_prefix_of(s)
            &&& kept_part(s, max).is_prefix_of(clipped(s, max))
            &&& max <= utf8_len(kept_part(s, max)) <= max + 3
        },
{
    lemma_begun_within(s, max as int);
}

/// Truncate long tool output so a single result cannot flood the context
/// window.
pub fn clip(output: String, max_chars: usize) -> (res: String)
    ensures
        res@ == clipped(output@, max_chars as nat),
{
    let total: usize = byte_len(output.as_str());
    if total <= max_chars {
        return output;
    }
    let ghost s = output@;
    let mut kept: String = String::new();
    let mut cut: usize = 0;
    let mut open: bool = true;
    assert(s.take(0) == Seq::<char>::empty());
    assert(s.skip(0) == s);
    proof {
        lemma_utf8_len_bounds(Seq::<char>::empty());
    }
    for c in it: output.as_str().chars()
        invariant
            it.seq() == s,
            total == utf8_len(s),
            kept@.len() <= it.index(),
            kept@ == s.take(kept@.len() as int),
            cut == utf8_len(kept@),
            open ==> kept@.len() == it.index(),
            begun_within(s, max_chars as int) == kept@.len() + if open {
                begun_within(s.skip(kept@.len() as int), max_chars - cut)
            } else {
                0
            },
    {
        let ghost i = it.index();
        if open {
            if cut < max_chars {
                let ghost before = kept@;
                assert(s.skip(i as int)[0] == c);
                assert(s.skip(i as int).drop_first() == s.skip(i + 1));
                proof {
                    lemma_utf8_len_push(before, c);
                    assert(before.push(c) == s.take(i + 1));
                    assert(s == s.take(i + 1) + s.skip(i + 1));
                    lemma_encode_concat(s.take(i + 1), s.skip(i + 1));
                }
                kept.push(c);
                cut += char_width(c);
            } else {
                open = false;
            }
        }
    }
    assert(s.skip(s.len() as int) == Seq::<char>::empty());
    proof {
        lemma_begun_within(s, max_chars as int);
        assert(kept@ == kept_part(s, max_chars as nat));
        assert(s == kept@ + s.skip(kept@.len() as int));
        lemma_encode_concat(kept@, s.skip(kept@.len() as int));
    }
    let dropped: String = decimal_of(total - cut);
    kept.concat("\n... [truncated ").concat(dropped.as_str()).concat(" bytes]")
}

/// A registry finds the first tool with the name that a call gives, and nothing
/// just if no tool has it.
pub proof fn law_call_finds_the_first_of_its_name(tools: Seq<ToolModel>, name: Seq<char>)
    ensures
        match tool_named(tools, name) {
            Some(tool) => exists|i: int|
                {
                    &&& 0 <= i < tools.len()
                    &&& #[trigger] tools[i] == tool
                    &&& tool.definition.name == name
                    &&& forall|j: int|
                        0 <= j < i ==> (#[trigger] tools[j]).definition.name != name
                },
            None => forall|i: int|
                0 <= i < tools.len() ==> (#[trigger] tools[i]).definition.name != name,
        },
    decreases tools.len(),
{
    if tools.len() > 0 && tools[0].definition.name != name {
        let rest = tools.drop_first();
        law_call_finds_the_first_of_its_name(rest, name);
        if let Some(tool) = tool_named(rest, name) {
            let i = choose|i: int|
                {
                    &&& 0 <= i < rest.len()
                    &&& #[trigger] rest[i] == tool
                    &&& tool.definition.name == name
                    &&& forall|j: int| 0 <= j < i ==> (#[trigger] rest[j]).definition.name != name
                };
            assert(tools[i + 1] == tool);
            assert forall|j: int| 0 <= j < i + 1 implies (#[trigger] tools[j]).definition.name
                != name by {
                if j > 0 {
                    assert(rest[j - 1] == tools[j]);
                }
            }
        } else {
            assert forall|j: int| 0 <= j < tools.len() implies (#[trigger] tools[j]).definition.name
                != name by {
                if j > 0 {
                    assert(rest[j - 1] == tools[j]);
                }
            }
        }
    }
}

/// Leaving a tool out keeps every tool of another name, in order.
pub proof fn law_without_keeps_the_others_in_order(tools: Seq<ToolModel>, name: Seq<char>)
    ensures
        tools_without(tools, name) == tools.filter(|t: ToolModel| t.definition.name != name),
    decreases tools.len(),
{
    reveal(Seq::filter);
    if tools.len() > 0 {
        law_without_keeps_the_others_in_order(tools.drop_last(), name);
    }
}

/// What clipping takes away it tells: behind the part that is kept stands how
/// many bytes are missing, which with those that are kept make the whole. No
/// shorter part would fill the limit. The part and the number are returned.
pub proof fn law_clip_tells_what_is_missing(s: Seq<char>, max: nat) -> (shown: (Seq<char>, nat))
    requires
        utf8_len(s) > max,
    ensures
        clipped(s, max) == shown.0 + "\n... [truncated "@ + decimal(shown.1) + " bytes]"@,
        shown.0.is_prefix_of(s),
        utf8_len(shown.0) + shown.1 == utf8_len(s),
        utf8_len(shown.0) >= max,
        shown.0.len() > 0 ==> utf8_len(shown.0.drop_last()) < max,
{
    law_clip_keeps_a_bounded_prefix(s, max);
    let kept = kept_part(s, max);
    lemma_encode_concat(kept, s.skip(kept.len() as int));
    assert(kept + s.skip(kept.len() as int) == s);
    lemma_shortest_part(s, max as int);
    if kept.len() > 0 {
        assert(kept.drop_last() == s.take(begun_within(s, max as int) - 1));
    }
    (kept, (utf8_len(s) - utf8_len(kept)) as nat)
}

proof fn lemma_shortest_part(s: Seq<char>, max: int)
    ensures
        begun_within(s, max) <= s.len(),
        begun_within(s, max) > 0 ==> utf8_len(s.take(begun_within(s, max) - 1)) < max,
    decreases s.len(),
{
    if s.len() > 0 && max > 0 {
        let rest = s.drop_first();
        let width = utf8_width(s[0]);
        lemma_shortest_part(rest, max - width);
        let n = begun_within(s, max) as int;
        if n == 1 {
            assert(s.take(0) == Seq::<char>::empty());
            lemma_utf8_len_bounds(Seq::empty());
        } else {
            lemma_utf8_len_push(Seq::empty(), s[0]);
            lemma_utf8_len_bounds(Seq::empty());
            assert(Seq::<char>::empty().push(s[0]) == seq![s[0]]);
            lemma_encode_concat(seq![s[0]], rest.take(n - 2));
            assert(s.take(n - 1) == seq![s[0]] + rest.take(n - 2));
        }
    }
}

/// A call of a tool finds the handle of the first tool of its name; a name that
/// no tool has is told.
pub proof fn law_unknown_tools_are_told(
    registry: Registry,
    name: &str,
    handle: Result<usize, String>,
)
    requires
        call_ensures(Registry::find, (&registry, name), handle),
    ensures
        handle matches Ok(found) ==> exists|i: int|
            {
                &&& 0 <= i < registry.tools@.len()
                &&& (#[trigger] registry.tools@[i]).handle == found
                &&& registry.tools@[i].definition.name@ == name@
                &&& forall|j: int|
                    0 <= j < i ==> (#[trigger] registry.tools@[j]).definition.name@ != name@
            },
        handle matches Err(words) ==> {
            &&& words@ == "unknown tool: "@ + name@
            &&& forall|i: int|
                0 <= i < registry.tools@.len() ==> (
                #[trigger] registry.tools@[i]).definition.name@ != name@
        },
{
    let tools = registry@;
    law_call_finds_the_first_of_its_name(tools, name@);
    assert forall|i: int| 0 <= i < tools.len() implies #[trigger] tools[i]
        == registry.tools@[i]@ by {}
    if let Some(tool) = tool_named(tools, name@) {
        let i = choose|i: int|
            {
                &&& 0 <= i < tools.len()
                &&& #[trigger] tools[i] == tool
                &&& tool.definition.name == name@
                &&& forall|j: int| 0 <= j < i ==> (#[trigger] tools[j]).definition.name != name@
            };
        assert(registry.tools@[i].handle == tool.handle);
        assert forall|j: int| 0 <= j < i implies (
        #[trigger] registry.tools@[j]).definition.name@ != name@ by {
            assert(tools[j].definition.name != name@);
        }
    } else {
        assert forall|i: int| 0 <= i < registry.tools@.len() implies (
        #[trigger] registry.tools@[i]).definition.name@ != name@ by {
            assert(tools[i].definition.name != name@);
        }
    }
}

/// The model is told of every tool, in order and as it is registered.
pub proof fn law_every_tool_is_told(registry: Registry, definitions: Vec<ToolDefinition>)
    requires
        call_ensures(Registry::definitions, (&registry,), definitions),
    ensures
        definitions@.len() == registry.tools@.len(),
        forall|i: int|
            0 <= i < definitions@.len() ==> (#[trigger] definitions@[i])@
                == registry.tools@[i].definition@,
{
    let told = definition_models(definitions@);
    let tools = registry@.map_values(|t: ToolModel| t.definition);
    assert(told.len() == tools.len());
    assert forall|i: int| 0 <= i < definitions@.len() implies (#[trigger] definitions@[i])@
        == registry.tools@[i].definition@ by {
        assert(told[i] == tools[i]);
    }
}

/// Output that is short enough is handed on as it is; of longer output the start
/// is, and how much is missing.
pub proof fn law_clipping_hands_on_the_start(output: String, max: usize, clipped_output: String)
    requires
        call_ensures(clip, (output, max), clipped_output),
    ensures
        utf8_len(output@) <= max ==> clipped_output@ == output@,
        utf8_len(output@) > max ==> exists|n: int|
            {
                &&& 0 <= n <= output@.len()
                &&& max <= #[trigger] utf8_len(output@.take(n)) <= max + 3
                &&& clipped_output@ == output@.take(n) + "\n... [truncated "@ + decimal(
                    (utf8_len(output@) - utf8_len(output@.take(n))) as nat,
                ) + " bytes]"@
            },
{
    if utf8_len(output@) > max {
        law_clip_keeps_a_bounded_prefix(output@, max as nat);
        lemma_shortest_part(output@, max as int);
        let n = begun_within(output@, max as int) as int;
        assert(output@.take(n) == kept_part(output@, max as nat));
        assert(max <= utf8_len(output@.take(n)) <= max + 3);
    }
}

} // verus!
