//! The agent's tools: the decisions and texts of each, with the reading,
//! writing and process handling kept outside the library.
pub mod bash_command;
pub mod context_save;
pub mod file_operations;
pub mod initialize;
pub mod semantic_code;

use vstd::prelude::*;

verus! {

/// Context for the agent
#[derive(Debug, Clone)]
pub struct AgentContext {
    /// Current working directory
    pub cwd: String,
    /// Description of the current task
    pub task_description: String,
}

} // verus!
