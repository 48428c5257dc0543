use pocketflow_rs::flow::{BatchFlow, Flow};
use pocketflow_rs::node::ProcessState;
use serde_json::Value;

#[derive(Debug, Clone, PartialEq)]
#[allow(dead_code)]
enum CustomState {
    Success,
    Failure,
    Default,
}

impl ProcessState for CustomState {
    fn is_default(&self) -> bool {
        matches!(self, CustomState::Default)
    }

    fn to_condition(&self) -> String {
        match self {
            CustomState::Success => "success".to_string(),
            CustomState::Failure => "failure".to_string(),
            CustomState::Default => "default".to_string(),
        }
    }
}

struct TestNode {
    result: Value,
    state: CustomState,
}

impl TestNode {
    fn new(result: Value, state: CustomState) -> Self {
        Self { result, state }
    }
}

fn object(key: &str, value: &str) -> Value {
    let mut map = serde_json::Map::new();
    map.insert(key.to_string(), Value::String(value.to_string()));
    Value::Object(map)
}

/// Walks a flow of test nodes as a run does: each node's result becomes the
/// run's result, and its state picks the next node.
fn walk(flow: &Flow<TestNode>) -> (Value, Vec<String>) {
    let mut current = flow.start_node().to_string();
    let mut result = Value::Null;
    let mut visited = Vec::new();
    while let Some(node) = flow.get_node(&current) {
        visited.push(current.clone());
        result = node.result.clone();
        match flow.next_node(&current, &node.state.to_condition()) {
            Some(next) => current = next,
            None => break,
        }
    }
    (result, visited)
}

#[test]
fn test_flow_to_mermaid() {
    let node1 = TestNode::new(object("data", "test1"), CustomState::Success);
    let node2 = TestNode::new(object("data", "test2"), CustomState::Default);
    let end_node = TestNode::new(object("final_result", "finished"), CustomState::Default);

    let mut flow = Flow::new("start", node1);
    flow.add_node("next", node2);
    flow.add_node("end", end_node);
    flow.add_edge("start", "next", CustomState::Success);
    flow.add_edge("next", "end", CustomState::Default);

    let mermaid = flow.to_mermaid();
    let expected = "\
flowchart TD
    end[end]
    next[next]
    start[start]
    next -->|default| end
    start -->|success| next
";
    assert_eq!(mermaid, expected);
}

#[test]
fn test_flow_with_custom_state() {
    let node1 = TestNode::new(object("data", "test1"), CustomState::Success);
    let node2 = TestNode::new(object("data", "test2"), CustomState::Default);
    let end_node = TestNode::new(object("final_result", "finished"), CustomState::Default);

    let mut flow = Flow::<TestNode>::new("start", node1);
    flow.add_node("next", node2);
    flow.add_node("end", end_node);
    flow.add_edge("start", "next", CustomState::Success);
    flow.add_edge("next", "end", CustomState::Default);

    let (result, visited) = walk(&flow);
    assert_eq!(result, object("final_result", "finished"));
    assert_eq!(visited, vec!["start", "next", "end"]);
}

#[test]
fn test_start_node_alone_stops_after_it() {
    let flow = Flow::new("start", TestNode::new(object("data", "test1"), CustomState::Success));
    let (result, visited) = walk(&flow);
    assert_eq!(result, object("data", "test1"));
    assert_eq!(visited, vec!["start"]);
}

#[test]
fn test_default_edge_is_the_fallback() {
    let node1 = TestNode::new(object("data", "test1"), CustomState::Success);
    let node2 = TestNode::new(object("data", "test2"), CustomState::Default);
    let mut flow = Flow::new("start", node1);
    flow.add_node("next", node2);
    flow.add_edge("start", "next", CustomState::Default);

    let (result, visited) = walk(&flow);
    assert_eq!(result, object("data", "test2"));
    assert_eq!(visited, vec!["start", "next"]);
    assert_eq!(flow.next_node("start", "failure"), Some("next".to_string()));
}

#[test]
fn test_matching_edge_wins_over_default() {
    let mut flow = Flow::new("a", 0u8);
    flow.add_node("b", 1u8);
    flow.add_node("c", 2u8);
    flow.add_edge("a", "b", CustomState::Default);
    flow.add_edge("a", "c", CustomState::Failure);
    assert_eq!(flow.next_node("a", "failure"), Some("c".to_string()));
    assert_eq!(flow.next_node("a", "success"), Some("b".to_string()));
}

#[test]
fn test_first_added_edge_wins() {
    let mut flow = Flow::new("a", 0u8);
    flow.add_edge("a", "b", CustomState::Success);
    flow.add_edge("a", "c", CustomState::Success);
    assert_eq!(flow.next_node("a", "success"), Some("b".to_string()));
}

#[test]
fn test_no_edge_stops() {
    let mut flow = Flow::new("a", 0u8);
    flow.add_edge("a", "b", CustomState::Success);
    assert_eq!(flow.next_node("a", "failure"), None);
    assert_eq!(flow.next_node("b", "success"), None);
}

#[test]
fn test_edge_to_missing_node_ends_run() {
    let node1 = TestNode::new(object("data", "test1"), CustomState::Success);
    let node2 = TestNode::new(object("data", "test2"), CustomState::Default);
    let mut batch_flow = BatchFlow::<TestNode>::new("start", node1, 10);
    batch_flow.flow.add_node("next", node2);
    batch_flow.flow.add_edge("start", "next", CustomState::Success);
    batch_flow.flow.add_edge("next", "end", CustomState::Default);
    assert_eq!(batch_flow.batch_size, 10);

    let (result, visited) = walk(&batch_flow.flow);
    assert_eq!(result, object("data", "test2"));
    assert_eq!(visited, vec!["start", "next"]);
    assert!(batch_flow.flow.get_node("end").is_none());
}

#[test]
fn test_add_node_replaces_node_of_same_name() {
    let mut flow = Flow::new("start", 1u32);
    flow.add_node("start", 2u32);
    flow.add_node("other", 3u32);
    assert_eq!(flow.get_node("start"), Some(&2u32));
    assert_eq!(flow.get_node("other"), Some(&3u32));
    assert_eq!(flow.get_node("missing"), None);
    assert_eq!(flow.start_node(), "start");
    assert_eq!(flow.to_mermaid(), "flowchart TD\n    other[other]\n    start[start]\n");
}

#[test]
fn test_mermaid_ignores_insertion_order() {
    let mut a = Flow::new("x", ());
    a.add_node("b", ());
    a.add_node("a", ());
    a.add_edge("x", "b", CustomState::Success);
    a.add_edge("x", "a", CustomState::Failure);
    a.add_edge("b", "a", CustomState::Default);

    let mut b = Flow::new("a", ());
    b.add_node("x", ());
    b.add_node("b", ());
    b.add_edge("b", "a", CustomState::Default);
    b.add_edge("x", "a", CustomState::Failure);
    b.add_edge("x", "b", CustomState::Success);

    assert_eq!(a.to_mermaid(), b.to_mermaid());
    assert_eq!(
        a.to_mermaid(),
        "flowchart TD\n    a[a]\n    b[b]\n    x[x]\n    b -->|default| a\n    x -->|failure| a\n    x -->|success| b\n"
    );
}

#[test]
fn test_mermaid_orders_edges_by_target_then_condition() {
    let mut flow = Flow::new("s", ());
    flow.add_edge("s", "t", CustomState::Success);
    flow.add_edge("s", "t", CustomState::Failure);
    flow.add_edge("s", "ab", CustomState::Success);
    flow.add_edge("s", "a", CustomState::Success);
    assert_eq!(
        flow.to_mermaid(),
        "flowchart TD\n    s[s]\n    s -->|success| a\n    s -->|success| ab\n    s -->|failure| t\n    s -->|success| t\n"
    );
}

#[test]
fn test_batch_flow_mermaid_is_its_flow_mermaid() {
    let mut batch = BatchFlow::new("start", (), 3);
    batch.flow.add_node("next", ());
    batch.flow.add_edge("start", "next", CustomState::Success);
    assert_eq!(batch.to_mermaid(), batch.flow.to_mermaid());
    assert_eq!(
        batch.to_mermaid(),
        "flowchart TD\n    next[next]\n    start[start]\n    start -->|success| next\n"
    );
}
