//! Feedback from the user on an action.
use vstd::prelude::*;

verus! {

/// How the user rated an action.
#[derive(Debug, Clone, Copy, PartialEq, Eq, Hash, Structural)]
pub enum UserFeedbackRating {
    /// User is very satisfied with the action
    Positive,
    /// User is neutral about the action
    Neutral,
    /// User is dissatisfied with the action
    Negative,
}

} // verus!
