use winx_code_agent::integrations::openai::{named_thought, ChatRole, QueryStep, RevisionStep, ThinkingQuery};
use winx_code_agent::thinking::sequential::ThinkingError;
use winx_code_agent::error::{DataValue, McpCode, WinxError};
use winx_code_agent::sql::connection::{connection_type_of, ConnectionType};
use winx_code_agent::sql::execute_sql_query;
use winx_code_agent::thinking::process_sequential_thinking;
use winx_code_agent::thinking::task_adherence::{
    evaluate_information_needs, evaluate_task_adherence, evaluate_task_completion, TaskAdherenceParams,
    TaskAdherenceStatus,
};

fn params(task: &str, progress: &str) -> TaskAdherenceParams {
    TaskAdherenceParams {
        original_task: task.to_string(),
        current_progress: progress.to_string(),
        additional_context: None,
    }
}

#[test]
fn task_adherence_follows_the_progress_text() {
    let on = evaluate_task_adherence(&params("parse json", "we parse json now"));
    assert_eq!(on.status, TaskAdherenceStatus::OnTrack);
    assert_eq!(on.assessment, "Task execution is aligned with the original goal: parse json");
    assert!(on.recommendations.is_none());
    assert!(!on.needs_redirection);
    let off = evaluate_task_adherence(&params("parse json", "writing docs"));
    assert_eq!(off.status, TaskAdherenceStatus::Deviated);
    assert!(off.needs_redirection);
    assert_eq!(off.recommendations.unwrap(), "Consider reviewing the original task objectives.");
}

#[test]
fn completion_is_read_from_keywords() {
    let done = evaluate_task_completion(&params("t", "All tests DONE"));
    assert_eq!(done.status, TaskAdherenceStatus::Completed);
    let going = evaluate_task_completion(&params("t", "still typing"));
    assert_eq!(going.status, TaskAdherenceStatus::OnTrack);
    assert_eq!(going.recommendations.unwrap(), "Continue with the current approach.");
    let needs = evaluate_information_needs(&params("t", ""));
    assert_eq!(needs.assessment, "Analyzing information needs for: t");
}

#[test]
fn sequential_thinking_answers() {
    assert_eq!(
        process_sequential_thinking(2, 5, "look closer", true),
        "Thought #2/5:\nlook closer\n\nNext thought needed: true"
    );
}

#[test]
fn test_in_memory_connection() {
    assert_eq!(connection_type_of(":memory:"), ConnectionType::Memory);
}

#[test]
fn file_connections() {
    assert_eq!(connection_type_of("/tmp/db.sqlite"), ConnectionType::File);
    assert_eq!(execute_sql_query("SELECT 1"), "Query executed: SELECT 1\nResult: Mock result");
}

#[test]
fn errors_become_protocol_answers() {
    let e = WinxError::permission_error("no");
    let info = e.to_mcp_error();
    assert_eq!(info.code, McpCode::InvalidRequest);
    assert_eq!(info.code.code(), -32600);
    assert_eq!(info.message, "Permission denied: no");
    assert_eq!(info.data[0].0, "error_type");
    assert!(matches!(&info.data[0].1, DataValue::Text(t) if t == "permission_denied"));

    let big = WinxError::file_too_large("a.bin", 2_000_000).to_mcp_error();
    assert_eq!(big.code, McpCode::InternalError);
    assert_eq!(big.message, "File too large: a.bin (2000000 bytes)");
    assert_eq!(big.data.len(), 4);
    assert!(matches!(big.data[3].1, DataValue::Megabytes(2_000_000)));

    let init = WinxError::initialization_required("call it").to_mcp_error();
    assert_eq!(init.code, McpCode::InvalidParams);
    assert_eq!(init.data.last().unwrap().0, "solution");

    let io = WinxError::io_error(std::io::Error::new(std::io::ErrorKind::Other, "disk gone"), Some("/x")).to_mcp_error();
    assert_eq!(io.message, "IO error: disk gone (path: /x)");
}

#[test]
fn a_query_is_answered_step_by_step() {
    let (mut q, first) = ThinkingQuery::start("be brief", "2+2?", 2);
    assert_eq!(first.len(), 2);
    assert_eq!(first[0].role, ChatRole::System);
    assert_eq!(
        first[1].content,
        "Question: 2+2?\n\nThink step-by-step to solve this problem. Start your first step with 'Step 1:'"
    );
    match q.on_response("Step 1: add".to_string()) {
        QueryStep::Ask(ms) => {
            assert_eq!(ms.len(), 4);
            assert_eq!(ms[2].role, ChatRole::Assistant);
            assert_eq!(ms[3].content, "Continue your thinking process. What is step 2?");
        }
        QueryStep::Done(_) => panic!("one step is left"),
    }
    match q.on_response("Step 2: four".to_string()) {
        QueryStep::Ask(ms) => assert_eq!(
            ms.last().unwrap().content,
            "Based on your step-by-step thinking, what is your final answer or conclusion?"
        ),
        QueryStep::Done(_) => panic!("the conclusion is still to come"),
    }
    match q.on_response("4".to_string()) {
        QueryStep::Done(text) => assert_eq!(
            text,
            "# Thinking Process\n\nThought #1: Step 1: add\n\nThought #2: Step 2: four\n\n\n\n# Conclusion\n\n4"
        ),
        QueryStep::Ask(_) => panic!("the query is over"),
    }
}

#[test]
fn a_revision_request_names_its_thought() {
    assert_eq!(named_thought("Thought #2 needs work", "thought #2 needs work"), Some(2));
    assert_eq!(named_thought("Please redo Step 3 now", "please redo step 3 now"), Some(3));
    assert_eq!(named_thought("thought #x, then step 12", "thought #x, then step 12"), Some(12));
    assert_eq!(named_thought("Thought number +4", "thought number +4"), Some(4));
    assert_eq!(named_thought("nothing to change", "nothing to change"), None);
}

fn answered_query() -> (ThinkingQuery, String) {
    let (mut q, _) = ThinkingQuery::start("sys", "q", 2);
    let _ = q.on_response("Step 1: a".to_string());
    let _ = q.on_response("Step 2: b".to_string());
    match q.on_response("done".to_string()) {
        QueryStep::Done(text) => (q, text),
        QueryStep::Ask(_) => panic!("the query is over"),
    }
}

#[test]
fn no_revision_ends_the_text() {
    let (q, text) = answered_query();
    assert!(q.revision_request().starts_with("You have completed your initial thinking process:\n\nThought #1: Step 1: a"));
    match q.on_revision_reply(text.clone(), "No revisions needed.", 2) {
        Some(RevisionStep::Done(t)) => assert_eq!(t, text + "\n\n# Revision Check\n\nNo revisions needed."),
        _ => panic!("no revision was asked for"),
    }
}

#[test]
fn a_revision_adds_a_thought() {
    let (mut q, text) = answered_query();
    match q.on_revision_reply(text.clone(), "Thought #1 is vague.", 2) {
        Some(RevisionStep::Ask { prompt, thought, text: t }) => {
            assert_eq!(thought, 1);
            assert_eq!(
                prompt,
                "Please provide a revised version of thought #1. Make sure to address the issues you identified."
            );
            assert_eq!(t, text.clone() + "\n\n# Revision Request\n\nThought #1 is vague.");
            let done = q.on_revised_thought(t.clone(), thought, "Step 1: a, precisely".to_string(), 2).unwrap();
            assert_eq!(
                done,
                t + "\n\n# Revised Thought\n\nStep 1: a, precisely\n\n(Additional revisions would be processed here if needed)"
            );
        }
        _ => panic!("a revision was asked for"),
    }
    assert!(matches!(
        q.on_revised_thought(String::new(), 9, "x".to_string(), 1),
        Err(ThinkingError::UnknownRevisedThought(9))
    ));
}

#[test]
fn an_io_error_shows_its_own_text() {
    let e = WinxError::Io { source: std::io::Error::new(std::io::ErrorKind::Other, "disk full"), path: None };
    assert_eq!(e.to_text().unwrap(), "IO error: disk full");
}
