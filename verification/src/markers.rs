//! The line grammar of edit-block markers such as `<<<<<<< SEARCH`, `=======`
//! and `>>>>>>> REPLACE`: a run of one repeated character, at least a given
//! number long, then optional whitespace, a keyword (possibly empty) and
//! optional whitespace, filling the whole line.
use vstd::prelude::*;
use crate::text::{chars_eq, slice_chars, trim, trim_chars};

verus! {

/// Length of the leading run of `c`.
pub open spec fn run_len(s: Seq<char>, c: char) -> nat
    decreases s.len(),
{
    if s.len() == 0 || s[0] != c {
        0
    } else {
        1 + run_len(s.drop_first(), c)
    }
}

/// `line` is `c` repeated at least `min` times, then whitespace, `word`, whitespace.
pub open spec fn is_marker(line: Seq<char>, c: char, min: nat, word: Seq<char>) -> bool {
    let n = run_len(line, c);
    n >= min && trim(line.skip(n as int)) == word
}

proof fn lemma_run_len(s: Seq<char>, c: char, k: int)
    requires
        0 <= k <= s.len(),
        forall|j: int| 0 <= j < k ==> #[trigger] s[j] == c,
        k == s.len() || s[k] != c,
    ensures
        run_len(s, c) == k,
    decreases k,
{
    if k > 0 {
        let t = s.drop_first();
        assert forall|j: int| 0 <= j < k - 1 implies #[trigger] t[j] == c by {
            assert(t[j] == s[j + 1]);
        }
        if k < s.len() {
            assert(t[k - 1] == s[k]);
        }
        lemma_run_len(t, c, k - 1);
    }
}

pub fn marker_match(line: &[char], c: char, min: usize, word: &[char]) -> (b: bool)
    ensures
        b == is_marker(line@, c, min as nat, word@),
{
    let mut n: usize = 0;
    while n < line.len() && line[n] == c
        invariant
            n <= line.len(),
            forall|j: int| 0 <= j < n ==> line@[j] == c,
        decreases line.len() - n,
    {
        n += 1;
    }
    proof {
        lemma_run_len(line@, c, n as int);
    }
    if n < min {
        return false;
    }
    let rest = slice_chars(line, n, line.len());
    proof {
        assert(rest@ =~= line@.skip(n as int));
    }
    let t = trim_chars(rest.as_slice());
    chars_eq(t.as_slice(), word)
}

} // verus!
