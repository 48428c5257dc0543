//! States that nodes report, the result of a node's post-processing, and the
//! plain node types of the framework.
use std::collections::HashMap;
use vstd::prelude::*;

verus! {

#[verifier::external_type_specification]
#[verifier::external_body]
pub struct ExJsonValue(serde_json::Value);

/// Named parameters of a node.
pub type Params = HashMap<String, serde_json::Value>;

/// The state a node reports after it ran; a flow follows the edge whose
/// condition is the state's condition. The condition is the state's name in
/// snake case, which each implementation spells out in `to_condition`.
pub trait ProcessState: Sized {
    /// The condition that this state selects. Implementations in verified
    /// code define it; others leave it unknown.
    closed spec fn condition(&self) -> Seq<char> {
        arbitrary()
    }

    /// Whether this is the fallback state. Implementations in verified code
    /// define it; others leave it unknown.
    closed spec fn is_default_state(&self) -> bool {
        arbitrary()
    }

    /// Whether this is the fallback state.
    fn is_default(&self) -> (default: bool)
        ensures
            default == self.is_default_state(),
    ;

    /// The condition that this state selects, in snake case.
    fn to_condition(&self) -> (condition: String)
        ensures
            condition@ == self.condition(),
    ;
}

/// The states of a plain node.
#[derive(Debug, Clone, Copy, PartialEq, Eq, Structural)]
pub enum BaseState {
    Success,
    Failure,
    Default,
}

impl Default for BaseState {
    fn default() -> (state: Self)
        ensures
            state == BaseState::Default,
    {
        BaseState::Default
    }
}

impl ProcessState for BaseState {
    open spec fn condition(&self) -> Seq<char> {
        match self {
            BaseState::Success => "success"@,
            BaseState::Failure => "failure"@,
            BaseState::Default => "default"@,
        }
    }

    open spec fn is_default_state(&self) -> bool {
        *self == BaseState::Default
    }

    fn is_default(&self) -> (default: bool) {
        match self {
            BaseState::Default => true,
            _ => false,
        }
    }

    fn to_condition(&self) -> (condition: String) {
        match self {
            BaseState::Success => "success".to_owned(),
            BaseState::Failure => "failure".to_owned(),
            BaseState::Default => "default".to_owned(),
        }
    }
}

/// Distinct plain states select distinct conditions, and the fallback state
/// selects the fallback condition "default".
pub proof fn lemma_base_state_conditions(a: BaseState, b: BaseState)
    ensures
        a != b ==> a.condition() != b.condition(),
        a.is_default_state() <==> a.condition() == "default"@,
{
    reveal_strlit("success");
    reveal_strlit("failure");
    reveal_strlit("default");
    assert("success"@[0] != "failure"@[0]);
    assert("success"@[0] != "default"@[0]);
    assert("failure"@[0] != "default"@[0]);
}

/// What a node's post-processing reports: the state that picks the next
/// edge, and a message.
#[derive(Debug, Clone, PartialEq)]
pub struct ProcessResult<S: ProcessState> {
    pub state: S,
    pub message: String,
}

impl<S: ProcessState> ProcessResult<S> {
    pub fn new(state: S, message: String) -> (result: Self)
        ensures
            result.state == state,
            result.message == message,
    {
        ProcessResult { state, message }
    }
}

impl<S: ProcessState + Default> Default for ProcessResult<S> {
    /// The fallback state of `S`, with the message "default".
    fn default() -> (result: Self)
        ensures
            call_ensures(S::default, (), result.state),
            result.message@ == "default"@,
    {
        ProcessResult { state: S::default(), message: "default".to_owned() }
    }
}

/// A node that holds its parameters and yields no value.
pub struct BaseNode {
    params: Params,
}

impl BaseNode {
    /// The parameters the node holds.
    pub closed spec fn spec_params(&self) -> Params {
        self.params
    }

    pub fn new(params: Params) -> (node: Self)
        ensures
            node.spec_params() == params,
    {
        BaseNode { params }
    }

    pub fn params(&self) -> (params: &Params)
        ensures
            *params == self.spec_params(),
    {
        &self.params
    }
}

/// A plain node that is meant to handle its items in batches of a size.
pub struct BatchNode {
    base: BaseNode,
    batch_size: usize,
}

impl BatchNode {
    /// The parameters the node holds.
    pub closed spec fn spec_params(&self) -> Params {
        self.base.spec_params()
    }

    /// The size of a batch.
    pub closed spec fn spec_batch_size(&self) -> usize {
        self.batch_size
    }

    pub fn new(params: Params, batch_size: usize) -> (node: Self)
        ensures
            node.spec_params() == params,
            node.spec_batch_size() == batch_size,
    {
        BatchNode { base: BaseNode::new(params), batch_size }
    }

    pub fn params(&self) -> (params: &Params)
        ensures
            *params == self.spec_params(),
    {
        self.base.params()
    }

    pub fn batch_size(&self) -> (size: usize)
        ensures
            size == self.spec_batch_size(),
    {
        self.batch_size
    }
}

} // verus!
