//! Services the agent talks to.
pub mod openai;
