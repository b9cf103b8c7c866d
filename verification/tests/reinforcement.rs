use winx_code_agent::reinforcement::action::{
    map_action_to_tool, map_tool_result_to_action_result, ActionResult, AgentAction, ToolAction,
};
use winx_code_agent::reinforcement::state::{BuildStatus, SimplifiedCodebaseState};

fn is_success(r: &ActionResult, text: &str) -> bool {
    matches!(r, ActionResult::Success(s) if s == text)
}

fn is_failure(r: &ActionResult, text: &str) -> bool {
    matches!(r, ActionResult::Failure(s) if s == text)
}

#[test]
fn test_classify_tool_output() {
    let read = map_tool_result_to_action_result(&AgentAction::ReadFile("a.rs".to_string()), "fn main() {}");
    assert!(matches!(read, ActionResult::FileContent(ref s) if s == "fn main() {}"));

    let write = AgentAction::WriteFile("a".to_string(), "x".to_string());
    assert!(is_success(&map_tool_result_to_action_result(&write, "Success: wrote"), "Success: wrote"));
    assert!(is_failure(&map_tool_result_to_action_result(&write, "denied"), "denied"));

    let cmd = AgentAction::ExecuteCommand("ls".to_string());
    let out = "status = process exited with code 0";
    assert!(is_success(&map_tool_result_to_action_result(&cmd, out), out));
    assert!(is_failure(&map_tool_result_to_action_result(&cmd, "process exited with code 1"), "process exited with code 1"));

    assert!(is_success(&map_tool_result_to_action_result(&AgentAction::RunTests, "3 passing"), "3 passing"));
    assert!(is_success(&map_tool_result_to_action_result(&AgentAction::RunBuild, "Finished dev"), "Finished dev"));
    assert!(is_failure(&map_tool_result_to_action_result(&AgentAction::RunBuild, "Finished with error"), "Finished with error"));
}

#[test]
fn test_neutral_outcomes() {
    let analyze = AgentAction::AnalyzeCode("src".to_string());
    assert!(matches!(map_tool_result_to_action_result(&analyze, ""), ActionResult::Neutral));
    assert!(matches!(map_tool_result_to_action_result(&analyze, "No analysis command found"), ActionResult::Neutral));
    assert!(is_failure(&map_tool_result_to_action_result(&analyze, "1 error"), "1 error"));
    assert!(is_success(&map_tool_result_to_action_result(&analyze, "clean"), "clean"));
    let search = AgentAction::SearchForSymbol("foo".to_string());
    assert!(matches!(map_tool_result_to_action_result(&search, ""), ActionResult::Neutral));
    assert!(matches!(map_tool_result_to_action_result(&AgentAction::NoOp, "x"), ActionResult::Neutral));
    assert!(matches!(
        map_tool_result_to_action_result(&AgentAction::SuggestFix("f".to_string(), 1, 2), "x"),
        ActionResult::Neutral
    ));
    let s = SimplifiedCodebaseState { file_count: 1, error_count: 0, warning_count: 0, test_coverage: 50, build_success: true };
    assert_eq!(s, s.clone());
    assert_ne!(BuildStatus::Success, BuildStatus::Failed);
}

#[test]
fn actions_become_tool_calls() {
    match map_action_to_tool(&AgentAction::ExecuteCommand("echo \"hi\"".to_string())) {
        ToolAction::BashCommand { action_json, wait_for_millis } => {
            assert_eq!(action_json, "{\"command\": \"echo \\\"hi\\\"\"}");
            assert!(wait_for_millis.is_none());
        }
        _ => panic!("a command runs in the shell"),
    }
    match map_action_to_tool(&AgentAction::EditFile("a.rs".to_string(), "x".to_string(), "y".to_string())) {
        ToolAction::FileEdit { file_path, file_edit_using_search_replace_blocks } => {
            assert_eq!(file_path, "a.rs");
            assert_eq!(file_edit_using_search_replace_blocks, "<<<<<<< SEARCH\nx\n=======\ny\n>>>>>>> REPLACE");
        }
        _ => panic!("an edit edits the file"),
    }
    match map_action_to_tool(&AgentAction::ReadFile("b.rs".to_string())) {
        ToolAction::ReadFiles { file_paths, show_line_numbers_reason } => {
            assert_eq!(file_paths, vec!["b.rs".to_string()]);
            assert!(show_line_numbers_reason.is_none());
        }
        _ => panic!("a read reads files"),
    }
    match map_action_to_tool(&AgentAction::SearchForSymbol("Foo".to_string())) {
        ToolAction::BashCommand { action_json, .. } => assert!(action_json.starts_with("{\"command\": \"grep -r \\\"Foo\\\" --include=")),
        _ => panic!("a search runs grep"),
    }
    match map_action_to_tool(&AgentAction::RunTests) {
        ToolAction::BashCommand { action_json, .. } => assert!(action_json.contains("cargo test")),
        _ => panic!("tests run in the shell"),
    }
    assert!(matches!(map_action_to_tool(&AgentAction::SuggestFix("c.rs".to_string(), 1, 2)), ToolAction::NoOp));
    assert!(matches!(map_action_to_tool(&AgentAction::NoOp), ToolAction::NoOp));
}
