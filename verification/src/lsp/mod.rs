//! Language-server plumbing: languages, server commands, and positions in
//! source files.
pub mod client;
pub mod server;
pub mod symbol;
pub mod types;
pub mod utils;
