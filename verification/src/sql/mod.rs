//! SQL support: the kind of a connection, and query results shown as tables.
pub mod connection;
pub mod query;

use vstd::prelude::*;
use crate::text::{from_chars, push_str};

verus! {

/// The answer to an SQL query request (the query is not run against a
/// database): "Query executed: {query}\nResult: Mock result".
pub fn execute_sql_query(query: &str) -> (r: String)
    ensures
        r@ == "Query executed: "@ + query@ + "\nResult: Mock result"@,
{
    let mut v: Vec<char> = Vec::new();
    push_str(&mut v, "Query executed: ");
    push_str(&mut v, query);
    push_str(&mut v, "\nResult: Mock result");
    from_chars(v.as_slice())
}

} // verus!
