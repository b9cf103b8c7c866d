//! What kind of database a connection opens, read from its path; the
//! database itself is opened outside the library.
use vstd::prelude::*;
use crate::text::str_eq;

verus! {

/// Type of database connection
#[derive(Debug, Clone, Copy, PartialEq, Eq)]
pub enum ConnectionType {
    /// In-memory database
    Memory,
    /// File-based database
    File,
}

/// The kind of connection opened at `path`: the path ":memory:" names the
/// in-memory database (it is the path given to a connection opened without
/// one), any other a file.
pub fn connection_type_of(path: &str) -> (r: ConnectionType)
    ensures
        r == (if path@ == ":memory:"@ {
            ConnectionType::Memory
        } else {
            ConnectionType::File
        }),
{
    if str_eq(path, ":memory:") {
        ConnectionType::Memory
    } else {
        ConnectionType::File
    }
}

} // verus!
