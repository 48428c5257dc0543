use std::collections::HashMap;

use pocketflow_rs::agent::{
    agent_flow, is_exit_command, state_after_input, state_after_reply, tool_kind,
    unknown_tool_output, PiState, ToolKind,
};
use pocketflow_rs::config::{default_auto_compact, AppConfig, GeneralConfig, DEFAULT_CONFIG_TOML};
use pocketflow_rs::node::{BaseNode, BaseState, BatchNode, Params, ProcessResult, ProcessState};
use pocketflow_rs::request::{bearer_authorization, completions_endpoint, should_send_tools};
use pocketflow_rs::session::{frame_record, split_records, SessionManager};
use pocketflow_rs::text::{text_equal, text_less_eq};
use serde_json::Value;

#[test]
fn test_base_state_conditions() {
    assert_eq!(BaseState::Success.to_condition(), "success");
    assert_eq!(BaseState::Failure.to_condition(), "failure");
    assert_eq!(BaseState::Default.to_condition(), "default");
    assert!(BaseState::Default.is_default());
    assert!(!BaseState::Success.is_default());
    assert_eq!(BaseState::default(), BaseState::Default);
}

#[test]
fn test_process_result_new_and_default() {
    let r = ProcessResult::new(BaseState::Failure, "boom".to_string());
    assert_eq!(r.state, BaseState::Failure);
    assert_eq!(r.message, "boom");
    let d: ProcessResult<BaseState> = ProcessResult::default();
    assert_eq!(d.state, BaseState::Default);
    assert_eq!(d.message, "default");
}

#[test]
fn test_base_and_batch_nodes_keep_their_parameters() {
    let mut params: Params = HashMap::new();
    params.insert("k".to_string(), Value::Bool(true));
    let base = BaseNode::new(params.clone());
    assert_eq!(base.params(), &params);
    let batch = BatchNode::new(params.clone(), 7);
    assert_eq!(batch.params(), &params);
    assert_eq!(batch.batch_size(), 7);
}

#[test]
fn test_general_config_default() {
    assert!(default_auto_compact());
    assert!(GeneralConfig::default().auto_compact);
}

#[test]
fn test_config_and_logs_dirs() {
    assert_eq!(AppConfig::config_dir("/work"), "/work/.pi");
    assert_eq!(AppConfig::logs_dir("/work"), "/work/.pi/logs");
    assert_eq!(AppConfig::config_file("/work/"), "/work/.pi/config.toml");
    assert_eq!(AppConfig::config_dir(""), ".pi");
}

#[test]
fn test_default_config_is_trimmed() {
    assert!(DEFAULT_CONFIG_TOML.starts_with("[general]"));
    assert!(DEFAULT_CONFIG_TOML.ends_with("compact_threshold = 6000"));
}

#[test]
fn test_session_log_path() {
    let manager = SessionManager::new("/work");
    assert_eq!(manager.log_path(), "/work/.pi/logs/log.jsonl");
}

#[test]
fn test_log_reads_back_appended_records() {
    let records: Vec<&[u8]> = vec![b"{\"id\":\"1\"}", b"", b"{\"id\":\"2\"}"];
    let mut content = Vec::new();
    for r in &records {
        content.extend(frame_record(r));
    }
    assert_eq!(content, b"{\"id\":\"1\"}\n\n{\"id\":\"2\"}\n".to_vec());
    let lines = split_records(&content);
    let expected: Vec<Vec<u8>> = records.iter().map(|r| r.to_vec()).collect();
    assert_eq!(lines, expected);
}

#[test]
fn test_split_records_edges() {
    assert!(split_records(b"").is_empty());
    assert_eq!(split_records(b"a"), vec![b"a".to_vec()]);
    assert_eq!(split_records(b"a\r\nb\r"), vec![b"a".to_vec(), b"b\r".to_vec()]);
    assert_eq!(split_records(b"\n"), vec![Vec::<u8>::new()]);
    assert_eq!(split_records(b"a\n\nb\n"), vec![b"a".to_vec(), Vec::new(), b"b".to_vec()]);
}

#[test]
fn test_completions_endpoint() {
    assert_eq!(
        completions_endpoint("https://api.openai.com/v1"),
        "https://api.openai.com/v1/chat/completions"
    );
    assert_eq!(completions_endpoint("http://h/v1///"), "http://h/v1/chat/completions");
    assert_eq!(
        completions_endpoint("http://h/v1/chat/completions"),
        "http://h/v1/chat/completions"
    );
    assert_eq!(completions_endpoint(""), "/chat/completions");
}

#[test]
fn test_bearer_authorization() {
    assert_eq!(bearer_authorization("sk-1"), "Bearer sk-1");
}

#[test]
fn test_should_send_tools() {
    assert!(should_send_tools(Some(3)));
    assert!(!should_send_tools(Some(0)));
    assert!(!should_send_tools(None));
}

#[test]
fn test_pi_state_conditions() {
    assert_eq!(PiState::Default.to_condition(), "default");
    assert_eq!(PiState::CallLLM.to_condition(), "call_llm");
    assert_eq!(PiState::ExecuteTool.to_condition(), "execute_tool");
    assert_eq!(PiState::WaitForInput.to_condition(), "wait_for_input");
    assert_eq!(PiState::Finished.to_condition(), "finished");
    assert!(PiState::default().is_default());
}

#[test]
fn test_agent_decisions() {
    assert!(is_exit_command("exit"));
    assert!(is_exit_command("quit"));
    assert!(!is_exit_command("exit now"));
    assert_eq!(state_after_input(true), PiState::Finished);
    assert_eq!(state_after_input(false), PiState::CallLLM);
    assert_eq!(state_after_reply(Some(2)), PiState::ExecuteTool);
    assert_eq!(state_after_reply(Some(0)), PiState::WaitForInput);
    assert_eq!(state_after_reply(None), PiState::WaitForInput);
    assert_eq!(tool_kind("read_file"), ToolKind::ReadFile);
    assert_eq!(tool_kind("write_file"), ToolKind::WriteFile);
    assert_eq!(tool_kind("bash"), ToolKind::Bash);
    assert_eq!(tool_kind("rm"), ToolKind::Unknown);
    assert_eq!(unknown_tool_output("rm"), "Unknown tool: rm");
}

#[test]
fn test_agent_flow_routes() {
    let flow = agent_flow("I", "L", "T");
    assert_eq!(flow.start_node(), "input");
    assert_eq!(flow.get_node("llm"), Some(&"L"));
    assert_eq!(flow.next_node("input", "call_llm"), Some("llm".to_string()));
    assert_eq!(flow.next_node("llm", "execute_tool"), Some("tool".to_string()));
    assert_eq!(flow.next_node("llm", "wait_for_input"), Some("input".to_string()));
    assert_eq!(flow.next_node("tool", "call_llm"), Some("llm".to_string()));
    assert_eq!(flow.next_node("input", "finished"), None);
    assert_eq!(flow.next_node("llm", "finished"), None);
}

#[test]
fn test_text_order() {
    assert!(text_less_eq("end", "next"));
    assert!(text_less_eq("a", "ab"));
    assert!(!text_less_eq("b", "ab"));
    assert!(text_less_eq("Z", "a"));
    assert!(text_less_eq("", ""));
    assert!(text_equal("é", "é"));
    assert!(!text_equal("a", "b"));
}
