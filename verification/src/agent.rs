//! The decisions of the interactive coding agent: its states, the flow that
//! joins its input, reasoning and tool nodes, and how each step picks the
//! next.
use vstd::prelude::*;
use vstd::string::*;

use crate::flow::{is_first_match, route, EdgeView, Flow};
use crate::node::ProcessState;
use crate::text::{text_equal, text_to_string};

verus! {

/// The states the agent's nodes report.
#[derive(Debug, Clone, Copy, PartialEq, Eq, Structural)]
pub enum PiState {
    Default,
    CallLLM,
    ExecuteTool,
    WaitForInput,
    Finished,
}

impl Default for PiState {
    fn default() -> (state: Self)
        ensures
            state == PiState::Default,
    {
        PiState::Default
    }
}

impl ProcessState for PiState {
    open spec fn condition(&self) -> Seq<char> {
        match self {
            PiState::Default => "default"@,
            PiState::CallLLM => "call_llm"@,
            PiState::ExecuteTool => "execute_tool"@,
            PiState::WaitForInput => "wait_for_input"@,
            PiState::Finished => "finished"@,
        }
    }

    open spec fn is_default_state(&self) -> bool {
        *self == PiState::Default
    }

    fn is_default(&self) -> (default: bool) {
        match self {
            PiState::Default => true,
            _ => false,
        }
    }

    fn to_condition(&self) -> (condition: String) {
        match self {
            PiState::Default => text_to_string("default"),
            PiState::CallLLM => text_to_string("call_llm"),
            PiState::ExecuteTool => text_to_string("execute_tool"),
            PiState::WaitForInput => text_to_string("wait_for_input"),
            PiState::Finished => text_to_string("finished"),
        }
    }
}

/// Distinct agent states select distinct conditions, and only the fallback
/// state selects "default".
pub proof fn lemma_pi_state_conditions(a: PiState, b: PiState)
    ensures
        a != b ==> a.condition() != b.condition(),
        a.is_default_state() <==> a.condition() == "default"@,
{
    reveal_strlit("default");
    reveal_strlit("call_llm");
    reveal_strlit("execute_tool");
    reveal_strlit("wait_for_input");
    reveal_strlit("finished");
    assert("default"@[0] != "call_llm"@[0]);
    assert("default"@[0] != "execute_tool"@[0]);
    assert("default"@[0] != "wait_for_input"@[0]);
    assert("default"@[0] != "finished"@[0]);
    assert("call_llm"@[0] != "execute_tool"@[0]);
    assert("call_llm"@[0] != "wait_for_input"@[0]);
    assert("call_llm"@[0] != "finished"@[0]);
    assert("execute_tool"@[0] != "wait_for_input"@[0]);
    assert("execute_tool"@[0] != "finished"@[0]);
    assert("wait_for_input"@[0] != "finished"@[0]);
}

/// The names of the agent's nodes.
pub open spec fn input_name() -> Seq<char> {
    "input"@
}

pub open spec fn llm_name() -> Seq<char> {
    "llm"@
}

pub open spec fn tool_name() -> Seq<char> {
    "tool"@
}

/// The edges of the agent's flow: input leads to reasoning, reasoning to a
/// tool call or back to input, and a tool call back to reasoning.
pub open spec fn agent_edges() -> Seq<EdgeView> {
    seq![
        (input_name(), llm_name(), PiState::CallLLM.condition()),
        (llm_name(), tool_name(), PiState::ExecuteTool.condition()),
        (llm_name(), input_name(), PiState::WaitForInput.condition()),
        (tool_name(), llm_name(), PiState::CallLLM.condition()),
    ]
}

/// The agent's flow, starting at its input node.
pub fn agent_flow<N>(input: N, llm: N, tool: N) -> (flow: Flow<N>)
    ensures
        flow@.nodes == Map::<Seq<char>, N>::empty().insert(input_name(), input).insert(
            llm_name(),
            llm,
        ).insert(tool_name(), tool),
        flow@.edges == agent_edges(),
        flow@.start == input_name(),
{
    let mut flow = Flow::new("input", input);
    flow.add_node("llm", llm);
    flow.add_node("tool", tool);
    flow.add_edge("input", "llm", PiState::CallLLM);
    flow.add_edge("llm", "tool", PiState::ExecuteTool);
    flow.add_edge("llm", "input", PiState::WaitForInput);
    flow.add_edge("tool", "llm", PiState::CallLLM);
    assert(flow@.edges =~= agent_edges());
    flow
}

/// In the agent's flow, reporting `Finished` stops the run at any node, and
/// each other state that a node reports leads where its edge says.
pub proof fn lemma_agent_routes()
    ensures
        forall|from: Seq<char>| route(agent_edges(), from, PiState::Finished.condition()) is None,
        route(agent_edges(), input_name(), PiState::CallLLM.condition()) == Some(llm_name()),
        route(agent_edges(), llm_name(), PiState::ExecuteTool.condition()) == Some(tool_name()),
        route(agent_edges(), llm_name(), PiState::WaitForInput.condition()) == Some(input_name()),
        route(agent_edges(), tool_name(), PiState::CallLLM.condition()) == Some(llm_name()),
{
    reveal_strlit("default");
    reveal_strlit("call_llm");
    reveal_strlit("execute_tool");
    reveal_strlit("wait_for_input");
    reveal_strlit("finished");
    reveal_strlit("input");
    reveal_strlit("llm");
    reveal_strlit("tool");
    let edges = agent_edges();
    assert(edges[0].2[0] != "finished"@[0]);
    assert(edges[1].2[0] != "finished"@[0]);
    assert(edges[2].2[0] != "finished"@[0]);
    assert(edges[3].2[0] != "finished"@[0]);
    assert(edges[0].2[0] != "default"@[0]);
    assert(edges[1].2[0] != "default"@[0]);
    assert(edges[2].2[0] != "default"@[0]);
    assert(edges[3].2[0] != "default"@[0]);
    assert("input"@[0] != "llm"@[0]);
    assert("input"@[0] != "tool"@[0]);
    assert("llm"@[0] != "tool"@[0]);
    assert("execute_tool"@[0] != "wait_for_input"@[0]);
    assert("call_llm"@[0] != "execute_tool"@[0]);
    assert("call_llm"@[0] != "wait_for_input"@[0]);
    assert(is_first_match(edges, input_name(), PiState::CallLLM.condition(), 0));
    assert(is_first_match(edges, llm_name(), PiState::ExecuteTool.condition(), 1));
    assert(is_first_match(edges, llm_name(), PiState::WaitForInput.condition(), 2));
    assert(is_first_match(edges, tool_name(), PiState::CallLLM.condition(), 3));
}

/// Whether a line the user typed (trimmed) asks the agent to stop.
pub fn is_exit_command(text: &str) -> (exit: bool)
    ensures
        exit == (text@ == "exit"@ || text@ == "quit"@),
{
    text_equal(text, "exit") || text_equal(text, "quit")
}

/// The state after the input step: finished when the user asked to stop,
/// else on to reasoning.
pub fn state_after_input(exit_requested: bool) -> (state: PiState)
    ensures
        state == (if exit_requested {
            PiState::Finished
        } else {
            PiState::CallLLM
        }),
{
    if exit_requested {
        PiState::Finished
    } else {
        PiState::CallLLM
    }
}

/// The state after a reply of the model: tools are run when the reply asks
/// for at least one tool call (`tool_call_count` is the length of its list
/// of tool calls, or none when the reply has no such list or the request
/// failed); otherwise the agent waits for input.
pub fn state_after_reply(tool_call_count: Option<usize>) -> (state: PiState)
    ensures
        state == (if tool_call_count matches Some(n) && n > 0 {
            PiState::ExecuteTool
        } else {
            PiState::WaitForInput
        }),
{
    match tool_call_count {
        Some(n) => if n > 0 {
            PiState::ExecuteTool
        } else {
            PiState::WaitForInput
        },
        None => PiState::WaitForInput,
    }
}

/// The tools the agent can run.
#[derive(Debug, Clone, Copy, PartialEq, Eq, Structural)]
pub enum ToolKind {
    ReadFile,
    WriteFile,
    Bash,
    Unknown,
}

/// The tool a tool call names.
pub fn tool_kind(name: &str) -> (kind: ToolKind)
    ensures
        kind == (if name@ == "read_file"@ {
            ToolKind::ReadFile
        } else if name@ == "write_file"@ {
            ToolKind::WriteFile
        } else if name@ == "bash"@ {
            ToolKind::Bash
        } else {
            ToolKind::Unknown
        }),
{
    if text_equal(name, "read_file") {
        ToolKind::ReadFile
    } else if text_equal(name, "write_file") {
        ToolKind::WriteFile
    } else if text_equal(name, "bash") {
        ToolKind::Bash
    } else {
        ToolKind::Unknown
    }
}

/// What a call of an unknown tool gives back to the model.
pub fn unknown_tool_output(name: &str) -> (output: String)
    ensures
        output@ == "Unknown tool: "@ + name@,
{
    let mut output = text_to_string("Unknown tool: ");
    output.append(name);
    output
}

} // verus!
