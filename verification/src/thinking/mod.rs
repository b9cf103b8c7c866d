//! Structured thinking: sequences of thoughts with revisions and branches,
//! and evaluations of how a task is going.
pub mod sequential;
pub mod task_adherence;

use vstd::prelude::*;
use crate::text::{decimal, from_chars, push_decimal, push_str};

verus! {

/// The answer to one step of sequential thinking:
/// "Thought #{n}/{total}:\n{thought}\n\nNext thought needed: {needed}".
pub fn process_sequential_thinking(
    thought_number: u64,
    total_thoughts: u64,
    thought: &str,
    next_thought_needed: bool,
) -> (r: String)
    ensures
        r@ == "Thought #"@ + decimal(thought_number as nat) + "/"@ + decimal(total_thoughts as nat) + ":\n"@
            + thought@ + "\n\nNext thought needed: "@ + if next_thought_needed {
            "true"@
        } else {
            "false"@
        },
{
    let mut v: Vec<char> = Vec::new();
    push_str(&mut v, "Thought #");
    push_decimal(&mut v, thought_number);
    push_str(&mut v, "/");
    push_decimal(&mut v, total_thoughts);
    push_str(&mut v, ":\n");
    push_str(&mut v, thought);
    push_str(&mut v, "\n\nNext thought needed: ");
    if next_thought_needed {
        push_str(&mut v, "true");
    } else {
        push_str(&mut v, "false");
    }
    from_chars(v.as_slice())
}

} // verus!
