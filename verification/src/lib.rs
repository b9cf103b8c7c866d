//! A verified library for the text-editing, search/replace, reasoning and
//! access-control logic of a code agent.
pub mod text;
pub mod markers;
pub mod diff;
pub mod file;
pub mod error;
pub mod thinking;
pub mod sql;
pub mod security;
pub mod semantic;
pub mod integrations;
pub mod lsp;
pub mod plugins;
pub mod reinforcement;
pub mod tools;
