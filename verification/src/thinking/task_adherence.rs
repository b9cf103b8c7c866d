//! Evaluations of how a task is going: whether the progress keeps to the
//! task, whether it reads as finished, and what information is needed.
use vstd::prelude::*;
use crate::lsp::types::lowercase;
use crate::text::{contains, from_chars, owned, push_str, str_contains};

verus! {

/// Parameters for task adherence evaluation
#[derive(Debug, Clone)]
pub struct TaskAdherenceParams {
    /// Original task description
    pub original_task: String,
    /// Current progress description
    pub current_progress: String,
    /// Additional context
    pub additional_context: Option<String>,
}

/// Status of task adherence
#[derive(Debug, Clone, Copy, PartialEq, Eq)]
pub enum TaskAdherenceStatus {
    /// Task is on track
    OnTrack,
    /// Task has deviated from the original goal
    Deviated,
    /// Task has been completed
    Completed,
    /// Task has been abandoned
    Abandoned,
}

/// Result of a task adherence evaluation
#[derive(Debug, Clone)]
pub struct TaskAdherenceEvaluation {
    /// Status of the task
    pub status: TaskAdherenceStatus,
    /// Assessment of the current progress
    pub assessment: String,
    /// Recommendations for how to proceed (if any)
    pub recommendations: Option<String>,
    /// Whether the task needs redirection
    pub needs_redirection: bool,
}

pub open spec fn opt_text(o: Option<String>) -> Option<Seq<char>> {
    match o {
        Some(s) => Some(s@),
        None => None,
    }
}

/// The evaluation of what information a task needs: always on track, with
/// the advice to gather more context.
pub fn evaluate_information_needs(params: &TaskAdherenceParams) -> (r: TaskAdherenceEvaluation)
    ensures
        r.status == TaskAdherenceStatus::OnTrack,
        r.assessment@ == "Analyzing information needs for: "@ + params.original_task@,
        opt_text(r.recommendations) == Some("Consider collecting more context about the task requirements."@),
        !r.needs_redirection,
{
    let mut v: Vec<char> = Vec::new();
    push_str(&mut v, "Analyzing information needs for: ");
    push_str(&mut v, params.original_task.as_str());
    TaskAdherenceEvaluation {
        status: TaskAdherenceStatus::OnTrack,
        assessment: from_chars(v.as_slice()),
        recommendations: Some(owned("Consider collecting more context about the task requirements.")),
        needs_redirection: false,
    }
}

/// The task keeps to its goal when the progress description holds the
/// original task's text.
pub open spec fn on_track(params: TaskAdherenceParams) -> bool {
    contains(params.current_progress@, params.original_task@)
}

/// The evaluation of whether the work still keeps to the original task.
pub fn evaluate_task_adherence(params: &TaskAdherenceParams) -> (r: TaskAdherenceEvaluation)
    ensures
        r.status == (if on_track(*params) {
            TaskAdherenceStatus::OnTrack
        } else {
            TaskAdherenceStatus::Deviated
        }),
        r.assessment@ == (if on_track(*params) {
            "Task execution is aligned with the original goal: "@
        } else {
            "Task may have deviated from the original goal: "@
        }) + params.original_task@,
        opt_text(r.recommendations) == (if on_track(*params) {
            None
        } else {
            Some("Consider reviewing the original task objectives."@)
        }),
        r.needs_redirection == !on_track(*params),
{
    let is_on_track = str_contains(params.current_progress.as_str(), params.original_task.as_str());
    let mut v: Vec<char> = Vec::new();
    if is_on_track {
        push_str(&mut v, "Task execution is aligned with the original goal: ");
    } else {
        push_str(&mut v, "Task may have deviated from the original goal: ");
    }
    push_str(&mut v, params.original_task.as_str());
    TaskAdherenceEvaluation {
        status: if is_on_track {
            TaskAdherenceStatus::OnTrack
        } else {
            TaskAdherenceStatus::Deviated
        },
        assessment: from_chars(v.as_slice()),
        recommendations: if is_on_track {
            None
        } else {
            Some(owned("Consider reviewing the original task objectives."))
        },
        needs_redirection: !is_on_track,
    }
}

/// The words that mark a task as finished.
pub open spec fn completion_keywords() -> Seq<Seq<char>> {
    seq!["completed"@, "done"@, "finished"@, "implemented"@]
}

/// The task reads as finished when its lowercased progress description
/// holds one of the completion keywords.
pub open spec fn reads_completed(params: TaskAdherenceParams) -> bool {
    exists|i: int|
        0 <= i < completion_keywords().len() && contains(
            lowercase(params.current_progress@),
            #[trigger] completion_keywords()[i],
        )
}

/// The evaluation of whether the task is finished.
pub fn evaluate_task_completion(params: &TaskAdherenceParams) -> (r: TaskAdherenceEvaluation)
    ensures
        r.status == (if reads_completed(*params) {
            TaskAdherenceStatus::Completed
        } else {
            TaskAdherenceStatus::OnTrack
        }),
        r.assessment@ == (if reads_completed(*params) {
            "Task appears to be completed based on progress description."@
        } else {
            "Task is still in progress."@
        }),
        opt_text(r.recommendations) == Some(
            if reads_completed(*params) {
                "Verify all requirements have been met and consider any follow-up tasks."@
            } else {
                "Continue with the current approach."@
            },
        ),
        !r.needs_redirection,
{
    let progress = crate::lsp::types::to_lower(params.current_progress.as_str());
    let keywords: [&str; 4] = ["completed", "done", "finished", "implemented"];
    let mut is_completed = false;
    let mut i: usize = 0;
    while i < 4
        invariant
            i <= 4,
            progress@ == lowercase(params.current_progress@),
            keywords@.map_values(|k: &str| k@) == completion_keywords(),
            is_completed <==> exists|j: int| 0 <= j < i && contains(progress@, #[trigger] completion_keywords()[j]),
        decreases 4 - i,
    {
        proof {
            assert(keywords@.map_values(|k: &str| k@)[i as int] == keywords@[i as int]@);
        }
        if str_contains(progress.as_str(), keywords[i]) {
            is_completed = true;
        }
        i += 1;
    }
    TaskAdherenceEvaluation {
        status: if is_completed {
            TaskAdherenceStatus::Completed
        } else {
            TaskAdherenceStatus::OnTrack
        },
        assessment: if is_completed {
            owned("Task appears to be completed based on progress description.")
        } else {
            owned("Task is still in progress.")
        },
        recommendations: if is_completed {
            Some(owned("Verify all requirements have been met and consider any follow-up tasks."))
        } else {
            Some(owned("Continue with the current approach."))
        },
        needs_redirection: false,
    }
}

} // verus!
