//! Delegation to a sub-agent with its own conversation.

use vstd::prelude::*;
use vstd::string::*;

use crate::agent::{default_system_prompt, system_prompt, AgentLoop};
use crate::api::client::Client;
use crate::api::types::{DefinitionModel, MessageModel, ToolDefinition};
use crate::json::{as_text, at, Json, JsonModel};
use crate::text::search::slice_texts;
use crate::tools::schema::{
    missing_words, parameter, parameter_model, parameter_models, required_str, schema,
    schema_model, Parameter,
};
use crate::tools::{
    clip, clipped, law_without_hides_only_the_named, law_without_keeps_the_others_in_order,
    tool_named, tools_without, Registry, ToolModel,
};

verus! {

broadcast use {
    vstd::string::group_string_axioms,
    vstd::seq_lib::group_seq_properties,
};

/// Longer reports are clipped.
pub const MAX_OUTPUT: usize = 30_000;

/// What a sub-agent is told after the system prompt.
pub const SUB_AGENT_TAIL: &'static str =
    "\n\nYou are a sub-agent working on one delegated task. Finish it and reply with a final report for the main agent.";

/// Tool that spawns a nested agent loop with its own conversation history.
/// The sub-agent gets every tool except this one, so delegation depth is 1.
#[derive(Debug)]
pub struct DispatchAgent {
    pub client: Client,
    pub registry: Registry,
    pub cwd: String,
}

/// The name of the tool.
pub open spec fn dispatch_name() -> Seq<char> {
    "dispatch_agent"@
}

impl DispatchAgent {
    /// A tool that delegates with a client and the tools of a registry.
    pub fn new(client: Client, registry: Registry, cwd: String) -> (tool: DispatchAgent)
        ensures
            tool == (DispatchAgent { client, registry, cwd }),
    {
        DispatchAgent { client, registry, cwd }
    }

    /// What the model is told of the tool.
    pub open spec fn told() -> DefinitionModel {
        DefinitionModel {
            name: dispatch_name(),
            description: "Delegate a self-contained task to a sub-agent with its own context and the same tools. Give it a complete task description; it returns only its final report."@,
            input_schema: schema_model(
                seq![
                    parameter_model(
                        "task"@,
                        "string"@,
                        "Complete, self-contained task description"@,
                    ),
                ],
                seq!["task"@],
            ),
        }
    }

    /// The name of the tool.
    pub fn name(&self) -> (name: &'static str)
        ensures
            name@ == Self::told().name,
    {
        "dispatch_agent"
    }

    /// What the tool does, for the model.
    pub fn description(&self) -> (text: &'static str)
        ensures
            text@ == Self::told().description,
    {
        "Delegate a self-contained task to a sub-agent with its own context and the same tools. Give it a complete task description; it returns only its final report."
    }

    /// What the model is told of the tool.
    pub fn definition(&self) -> (definition: ToolDefinition)
        ensures
            definition@ == Self::told(),
    {
        ToolDefinition {
            name: self.name().to_owned(),
            description: self.description().to_owned(),
            input_schema: self.input_schema(),
        }
    }

    /// What the tool takes, for the model.
    pub fn input_schema(&self) -> (document: Json)
        ensures
            document@ == Self::told().input_schema,
    {
        let parameters: [Parameter; 1] = [
            parameter("task", "string", "Complete, self-contained task description"),
        ];
        let required: [&str; 1] = ["task"];
        let document: Json = schema(parameters.as_slice(), required.as_slice());
        assert(parameter_models(parameters@) == seq![
            parameter_model("task"@, "string"@, "Complete, self-contained task description"@),
        ]);
        assert(slice_texts(required@) == seq!["task"@]);
        document
    }

    /// The task that a call delegates.
    pub fn request(&self, input: &Json) -> (res: Result<String, String>)
        ensures
            match res {
                Ok(task) => as_text(at(input@, "task"@)) == Some(task@),
                Err(error) => {
                    &&& as_text(at(input@, "task"@)) is None
                    &&& error@ == missing_words("task"@)
                },
            },
    {
        match required_str(input, "task") {
            Ok(task) => Ok(task.to_owned()),
            Err(error) => Err(error),
        }
    }

    /// The sub-agent: it has every tool but this one, its own prompt, and no
    /// history.
    pub fn spawn(&self) -> (agent: AgentLoop)
        ensures
            agent.client.api_key@ == self.client.api_key@,
            agent.client.model@ == self.client.model@,
            agent.client.max_tokens == self.client.max_tokens,
            agent.registry@ == tools_without(self.registry@, dispatch_name()),
            agent.system@ == system_prompt(self.cwd@) + SUB_AGENT_TAIL@,
            agent.history() == Seq::<MessageModel>::empty(),
    {
        let registry: Registry = self.registry.without(self.name());
        let system: String = default_system_prompt(self.cwd.as_str()).concat(SUB_AGENT_TAIL);
        AgentLoop::new(self.client.clone(), registry, system)
    }

    /// What a call answers, given the report of the sub-agent.
    pub fn answer(&self, report: String) -> (output: String)
        ensures
            output@ == clipped(report@, MAX_OUTPUT as nat),
    {
        clip(report, MAX_OUTPUT)
    }
}

/// Delegation goes one level deep: a sub-agent finds no tool to delegate with,
/// however many its parent has, and every other tool that its parent finds.
pub proof fn law_delegation_is_one_deep(tools: Seq<ToolModel>, other: Seq<char>)
    ensures
        tool_named(tools_without(tools, dispatch_name()), dispatch_name()) is None,
        other != dispatch_name() ==> tool_named(tools_without(tools, dispatch_name()), other)
            == tool_named(tools, other),
{
    law_without_hides_only_the_named(tools, dispatch_name(), other);
}

/// A sub-agent starts afresh: with the model of its parent, a prompt that says
/// where it works and what it is, and no conversation. Its report is handed on,
/// clipped at thirty thousand bytes.
pub proof fn law_sub_agents_start_afresh(
    tool: DispatchAgent,
    agent: AgentLoop,
    report: String,
    output: String,
)
    requires
        call_ensures(DispatchAgent::spawn, (&tool,), agent),
        call_ensures(DispatchAgent::answer, (&tool, report), output),
    ensures
        agent.history().len() == 0,
        agent.client.model@ == tool.client.model@,
        agent.client.api_key@ == tool.client.api_key@,
        agent.client.max_tokens == tool.client.max_tokens,
        system_prompt(tool.cwd@).is_prefix_of(agent.system@),
        tool_named(agent.registry@, "dispatch_agent"@) is None,
        agent.registry@ == tool.registry@.filter(
            |t: ToolModel| t.definition.name != "dispatch_agent"@,
        ),
        output@ == clipped(report@, 30_000),
{
    law_delegation_is_one_deep(tool.registry@, Seq::empty());
    law_without_keeps_the_others_in_order(tool.registry@, "dispatch_agent"@);
}

/// A task is delegated as it is given.
pub proof fn law_tasks_are_taken_as_they_are(
    tool: DispatchAgent,
    input: Json,
    res: Result<String, String>,
)
    requires
        call_ensures(DispatchAgent::request, (&tool, &input), res),
    ensures
        at(input@, "task"@) is Text <==> res is Ok,
        res matches Ok(task) ==> at(input@, "task"@) == JsonModel::Text(task@),
{
}

} // verus!
