//! The agent's actions and the observations a learning policy works with.
pub mod action;
pub mod reward;
pub mod state;
