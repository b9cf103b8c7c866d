//! A record of numbered thoughts with revisions and branches.
use vstd::prelude::*;
use crate::text::{decimal, from_chars, push_decimal, push_str, str_eq};

verus! {

/// Represents a single thought in a sequential thinking process
#[derive(Debug)]
pub struct Thought {
    /// The content of the thought
    pub content: String,
    /// The thought number in the sequence
    pub thought_number: usize,
    /// Total thoughts expected (can be adjusted)
    pub total_thoughts: usize,
    /// Whether another thought is needed
    pub next_thought_needed: bool,
    /// Whether this thought is a revision of a previous thought
    pub is_revision: bool,
    /// The thought number being revised (if any)
    pub revises_thought: Option<usize>,
    /// The thought number this branches from (if any)
    pub branch_from_thought: Option<usize>,
    /// Branch identifier (if any)
    pub branch_id: Option<String>,
    /// Whether more thoughts are needed after this one
    pub needs_more_thoughts: bool,
}

impl Clone for Thought {
    fn clone(&self) -> (r: Self)
        ensures
            r == *self,
    {
        Thought {
            content: self.content.clone(),
            thought_number: self.thought_number,
            total_thoughts: self.total_thoughts,
            next_thought_needed: self.next_thought_needed,
            is_revision: self.is_revision,
            revises_thought: self.revises_thought,
            branch_from_thought: self.branch_from_thought,
            branch_id: match &self.branch_id {
                Some(b) => Some(b.clone()),
                None => None,
            },
            needs_more_thoughts: self.needs_more_thoughts,
        }
    }
}

/// Why a thought was refused.
#[derive(Debug)]
pub enum ThinkingError {
    /// Thought numbers start at 1.
    ZeroThoughtNumber,
    /// The thought revises a thought that was never recorded.
    UnknownRevisedThought(usize),
    /// The thought branches from a thought that was never recorded.
    UnknownBranchSource(usize),
}

impl ThinkingError {
    pub open spec fn display(&self) -> Seq<char> {
        match self {
            ThinkingError::ZeroThoughtNumber => "Thought number must be greater than 0"@,
            ThinkingError::UnknownRevisedThought(n) => "Cannot revise nonexistent thought #"@
                + decimal(*n as nat),
            ThinkingError::UnknownBranchSource(n) => "Cannot branch from nonexistent thought #"@
                + decimal(*n as nat),
        }
    }

    /// The error's text.
    pub fn to_text(&self) -> (s: String)
        ensures
            s@ == self.display(),
    {
        let mut v: Vec<char> = Vec::new();
        match self {
            ThinkingError::ZeroThoughtNumber => {
                push_str(&mut v, "Thought number must be greater than 0");
            },
            ThinkingError::UnknownRevisedThought(n) => {
                push_str(&mut v, "Cannot revise nonexistent thought #");
                push_decimal(&mut v, *n as u64);
            },
            ThinkingError::UnknownBranchSource(n) => {
                push_str(&mut v, "Cannot branch from nonexistent thought #");
                push_decimal(&mut v, *n as u64);
            },
        }
        from_chars(v.as_slice())
    }
}

/// Thoughts in strictly increasing order of their numbers.
pub open spec fn strictly_sorted(s: Seq<Thought>) -> bool {
    forall|i: int, j: int|
        0 <= i < j < s.len() ==> (#[trigger] s[i]).thought_number < (#[trigger] s[j]).thought_number
}

/// A thought with number `k` is recorded.
pub open spec fn has_number(s: Seq<Thought>, k: usize) -> bool {
    exists|i: int| 0 <= i < s.len() && (#[trigger] s[i]).thought_number == k
}

/// `r` names a thought number that is not recorded in `s`.
pub open spec fn refers_to_missing(s: Seq<Thought>, r: Option<usize>) -> bool {
    match r {
        Some(n) => !has_number(s, n),
        None => false,
    }
}

/// Some revision thought revises thought `k`.
pub open spec fn is_revised(s: Seq<Thought>, k: usize) -> bool {
    exists|i: int|
        0 <= i < s.len() && (#[trigger] s[i]).is_revision && s[i].revises_thought == Some(k)
}

/// The thoughts of `s` that no thought of `all` revises, in order.
pub open spec fn unrevised(all: Seq<Thought>, s: Seq<Thought>) -> Seq<Thought>
    decreases s.len(),
{
    if s.len() == 0 {
        seq![]
    } else if is_revised(all, s.last().thought_number) {
        unrevised(all, s.drop_last())
    } else {
        unrevised(all, s.drop_last()).push(s.last())
    }
}

/// A thought lies on the line of branch `b`: it belongs to no branch, or to `b`.
pub open spec fn in_branch(t: Thought, b: Seq<char>) -> bool {
    match t.branch_id {
        Some(x) => x@ == b,
        None => true,
    }
}

/// The thoughts of `s` on the line of branch `b`, in order.
pub open spec fn on_branch(s: Seq<Thought>, b: Seq<char>) -> Seq<Thought>
    decreases s.len(),
{
    if s.len() == 0 {
        seq![]
    } else if in_branch(s.last(), b) {
        on_branch(s.drop_last(), b).push(s.last())
    } else {
        on_branch(s.drop_last(), b)
    }
}

/// The main branch: the unrevised thoughts in order; with a current branch,
/// those outside any branch and those on the current one (all unrevised
/// thoughts if none qualify).
pub open spec fn main_branch(all: Seq<Thought>, current: Option<String>) -> Seq<Thought> {
    let kept = unrevised(all, all);
    match current {
        Some(b) => if on_branch(kept, b@).len() > 0 {
            on_branch(kept, b@)
        } else {
            kept
        },
        None => kept,
    }
}

pub open spec fn summary_entry(t: Thought) -> Seq<char> {
    (if t.is_revision {
        "Thought #"@ + decimal(t.thought_number as nat) + " (revises #"@ + decimal(
            match t.revises_thought {
                Some(r) => r as nat,
                None => 0,
            },
        ) + ")"@
    } else {
        "Thought #"@ + decimal(t.thought_number as nat)
    }) + ": "@ + t.content@ + "\n\n"@
}

pub open spec fn summary_of(s: Seq<Thought>) -> Seq<char>
    decreases s.len(),
{
    if s.len() == 0 {
        seq![]
    } else {
        summary_of(s.drop_last()) + summary_entry(s.last())
    }
}

/// The sequential thinking process manager
#[derive(Debug)]
pub struct SequentialThinking {
    /// All thoughts, in increasing order of their numbers
    thoughts: Vec<Thought>,
    /// Current branch being followed
    current_branch: Option<String>,
    /// Latest thought number
    latest_thought_number: usize,
}

impl SequentialThinking {
    #[verifier::type_invariant]
    spec fn well_formed(self) -> bool {
        strictly_sorted(self.thoughts@)
    }

    /// The recorded thoughts in increasing order of their numbers.
    pub closed spec fn recorded(self) -> Seq<Thought> {
        self.thoughts@
    }

    pub closed spec fn branch(self) -> Option<String> {
        self.current_branch
    }

    pub closed spec fn latest(self) -> usize {
        self.latest_thought_number
    }

    /// Create a new sequential thinking process
    pub fn new() -> (r: Self)
        ensures
            r.recorded() == Seq::<Thought>::empty(),
            r.branch() is None,
            r.latest() == 0,
    {
        SequentialThinking { thoughts: Vec::new(), current_branch: None, latest_thought_number: 0 }
    }

    fn position_of(&self, k: usize) -> (r: Option<usize>)
        ensures
            match r {
                Some(i) => i < self.recorded().len() && self.recorded()[i as int].thought_number == k,
                None => !has_number(self.recorded(), k),
            },
    {
        let mut i: usize = 0;
        while i < self.thoughts.len()
            invariant
                i <= self.thoughts.len(),
                forall|j: int| 0 <= j < i ==> (#[trigger] self.thoughts@[j]).thought_number != k,
            decreases self.thoughts.len() - i,
        {
            if self.thoughts[i].thought_number == k {
                return Some(i);
            }
            i += 1;
        }
        None
    }

    /// Add a new thought to the process
    pub fn add_thought(&mut self, thought: Thought) -> (r: Result<(), ThinkingError>)
        ensures
            thought.thought_number == 0 ==> r matches Err(ThinkingError::ZeroThoughtNumber),
            thought.thought_number != 0 && refers_to_missing(old(self).recorded(), thought.revises_thought)
                ==> r == Err::<(), ThinkingError>(
                ThinkingError::UnknownRevisedThought(thought.revises_thought.unwrap()),
            ),
            thought.thought_number != 0 && !refers_to_missing(old(self).recorded(), thought.revises_thought)
                && refers_to_missing(old(self).recorded(), thought.branch_from_thought) ==> r == Err::<
                (),
                ThinkingError,
            >(ThinkingError::UnknownBranchSource(thought.branch_from_thought.unwrap())),
            r is Err ==> *final(self) == *old(self),
            r is Ok <==> (thought.thought_number != 0 && !refers_to_missing(old(self).recorded(), thought.revises_thought)
                && !refers_to_missing(old(self).recorded(), thought.branch_from_thought)),
            r is Ok ==> {
                &&& strictly_sorted(final(self).recorded())
                &&& forall|t: Thought|
                    final(self).recorded().contains(t) <==> (t == thought || (old(
                        self,
                    ).recorded().contains(t) && t.thought_number != thought.thought_number))
                &&& final(self).branch() == match thought.branch_id {
                    Some(b) => Some(b),
                    None => old(self).branch(),
                }
                &&& final(self).latest() == if old(self).latest() >= thought.thought_number {
                    old(self).latest()
                } else {
                    thought.thought_number
                }
            },
    {
        proof {
            use_type_invariant(&*self);
        }
        if thought.thought_number == 0 {
            return Err(ThinkingError::ZeroThoughtNumber);
        }
        match thought.revises_thought {
            Some(n) => {
                if self.position_of(n).is_none() {
                    return Err(ThinkingError::UnknownRevisedThought(n));
                }
            },
            None => {},
        }
        match thought.branch_from_thought {
            Some(n) => {
                if self.position_of(n).is_none() {
                    return Err(ThinkingError::UnknownBranchSource(n));
                }
            },
            None => {},
        }
        let ghost old_seq = self.thoughts@;
        let n = thought.thought_number;
        let mut p: usize = 0;
        while p < self.thoughts.len() && self.thoughts[p].thought_number < n
            invariant
                p <= self.thoughts.len(),
                forall|j: int| 0 <= j < p ==> (#[trigger] self.thoughts@[j]).thought_number < n,
            decreases self.thoughts.len() - p,
        {
            p += 1;
        }
        let replace = p < self.thoughts.len() && self.thoughts[p].thought_number == n;
        if let Some(b) = &thought.branch_id {
            self.current_branch = Some(b.clone());
        }
        if self.latest_thought_number < n {
            self.latest_thought_number = n;
        }
        let mut v: Vec<Thought> = Vec::new();
        std::mem::swap(&mut v, &mut self.thoughts);
        proof {
            assert(v@ == old_seq);
        }
        if replace {
            v.set(p, thought);
        } else {
            v.insert(p, thought);
        }
        proof {
            if replace {
                lemma_replace_keeps_order(old_seq, p as int, thought);
                assert(v@ =~= old_seq.update(p as int, thought));

            } else {
                lemma_insert_keeps_order(old_seq, p as int, thought);
                assert(v@ =~= old_seq.insert(p as int, thought));
            }
        }
        self.thoughts = v;
        proof {
            assert(old_seq == old(self).recorded());

        }
        Ok(())
    }

    /// Get all thoughts in the process, in increasing order of their numbers
    pub fn get_thoughts(&self) -> (r: Vec<&Thought>)
        ensures
            r@.map_values(|t: &Thought| *t) == self.recorded(),
    {
        let mut r: Vec<&Thought> = Vec::new();
        let mut i: usize = 0;
        while i < self.thoughts.len()
            invariant
                i <= self.thoughts.len(),
                r@.map_values(|t: &Thought| *t) =~= self.thoughts@.take(i as int),
            decreases self.thoughts.len() - i,
        {
            r.push(&self.thoughts[i]);
            proof {
                assert(self.thoughts@.take(i + 1) =~= self.thoughts@.take(i as int).push(self.thoughts@[i as int]));
            }
            i += 1;
        }
        proof {
            assert(self.thoughts@.take(self.thoughts.len() as int) =~= self.thoughts@);
        }
        r
    }

    fn revised(&self, k: usize) -> (b: bool)
        ensures
            b == is_revised(self.recorded(), k),
    {
        let mut i: usize = 0;
        while i < self.thoughts.len()
            invariant
                i <= self.thoughts.len(),
                forall|j: int|
                    0 <= j < i ==> !((#[trigger] self.thoughts@[j]).is_revision
                        && self.thoughts@[j].revises_thought == Some(k)),
            decreases self.thoughts.len() - i,
        {
            let t = &self.thoughts[i];
            if t.is_revision {
                match t.revises_thought {
                    Some(r) => {
                        if r == k {
                            return true;
                        }
                    },
                    None => {},
                }
            }
            i += 1;
        }
        false
    }

    /// Get the main branch of thoughts
    pub fn get_main_branch(&self) -> (r: Vec<&Thought>)
        ensures
            r@.map_values(|t: &Thought| *t) == main_branch(self.recorded(), self.branch()),
    {
        let ghost all = self.thoughts@;
        let mut kept: Vec<&Thought> = Vec::new();
        let mut i: usize = 0;
        while i < self.thoughts.len()
            invariant
                i <= self.thoughts.len(),
                all == self.thoughts@,
                kept@.map_values(|t: &Thought| *t) =~= unrevised(all, all.take(i as int)),
            decreases self.thoughts.len() - i,
        {
            proof {
                assert(all.take(i + 1).drop_last() =~= all.take(i as int));
                assert(all.take(i + 1).last() == all[i as int]);
            }
            if !self.revised(self.thoughts[i].thought_number) {
                kept.push(&self.thoughts[i]);
            }
            i += 1;
        }
        proof {
            assert(all.take(all.len() as int) =~= all);
        }
        match &self.current_branch {
            Some(b) => {
                let mut on: Vec<&Thought> = Vec::new();
                let mut j: usize = 0;
                let ghost kv = kept@.map_values(|t: &Thought| *t);
                while j < kept.len()
                    invariant
                        j <= kept.len(),
                        kv == kept@.map_values(|t: &Thought| *t),
                        on@.map_values(|t: &Thought| *t) =~= on_branch(kv.take(j as int), b@),
                    decreases kept.len() - j,
                {
                    proof {
                        assert(kv.take(j + 1).drop_last() =~= kv.take(j as int));
                        assert(kv.take(j + 1).last() == *kept@[j as int]);
                    }
                    let t = kept[j];
                    let hit = match &t.branch_id {
                        Some(x) => str_eq(x.as_str(), b.as_str()),
                        None => true,
                    };
                    if hit {
                        on.push(t);
                    }
                    j += 1;
                }
                proof {
                    assert(kv.take(kv.len() as int) =~= kv);
                }
                if on.len() > 0 {
                    return on;
                }
                kept
            },
            None => kept,
        }
    }

    /// Get a specific thought by number
    pub fn get_thought(&self, thought_number: usize) -> (r: Option<&Thought>)
        ensures
            match r {
                Some(t) => self.recorded().contains(*t) && t.thought_number == thought_number,
                None => !has_number(self.recorded(), thought_number),
            },
    {
        match self.position_of(thought_number) {
            Some(i) => {
                proof {
                    assert(self.thoughts@.contains(self.thoughts@[i as int]));
                }
                Some(&self.thoughts[i])
            },
            None => None,
        }
    }

    /// Check if another thought is needed: with no thoughts, or an empty main
    /// branch, yes; else as the last thought of the main branch says.
    pub fn needs_next_thought(&self) -> (b: bool)
        ensures
            b == (self.recorded().len() == 0 || main_branch(self.recorded(), self.branch()).len()
                == 0 || main_branch(self.recorded(), self.branch()).last().next_thought_needed
                || main_branch(self.recorded(), self.branch()).last().needs_more_thoughts),
    {
        if self.thoughts.len() == 0 {
            return true;
        }
        let main = self.get_main_branch();
        if main.len() == 0 {
            return true;
        }
        let t = main[main.len() - 1];
        proof {
            assert(main@.map_values(|t: &Thought| *t).last() == *main@[main.len() - 1]);
        }
        t.next_thought_needed || t.needs_more_thoughts
    }

    /// Get a summary of the thinking process
    pub fn get_summary(&self) -> (s: String)
        ensures
            main_branch(self.recorded(), self.branch()).len() == 0 ==> s@ == "No thoughts recorded yet."@,
            main_branch(self.recorded(), self.branch()).len() > 0 ==> s@ == summary_of(
                main_branch(self.recorded(), self.branch()),
            ),
    {
        let main = self.get_main_branch();
        let ghost mv = main@.map_values(|t: &Thought| *t);
        if main.len() == 0 {
            return crate::text::owned("No thoughts recorded yet.");
        }
        let mut v: Vec<char> = Vec::new();
        let mut i: usize = 0;
        while i < main.len()
            invariant
                i <= main.len(),
                mv == main@.map_values(|t: &Thought| *t),
                v@ == summary_of(mv.take(i as int)),
            decreases main.len() - i,
        {
            proof {
                assert(mv.take(i + 1).drop_last() =~= mv.take(i as int));
                assert(mv.take(i + 1).last() == *main@[i as int]);
            }
            let t = main[i];
            push_str(&mut v, "Thought #");
            push_decimal(&mut v, t.thought_number as u64);
            if t.is_revision {
                push_str(&mut v, " (revises #");
                let r: usize = match t.revises_thought {
                    Some(r) => r,
                    None => 0,
                };
                push_decimal(&mut v, r as u64);
                push_str(&mut v, ")");
            }
            push_str(&mut v, ": ");
            push_str(&mut v, t.content.as_str());
            push_str(&mut v, "\n\n");
            i += 1;
        }
        proof {
            assert(mv.take(main.len() as int) =~= mv);
        }
        from_chars(v.as_slice())
    }
}

impl Clone for SequentialThinking {
    fn clone(&self) -> (r: Self)
        ensures
            r.recorded() == self.recorded(),
            r.branch() == self.branch(),
            r.latest() == self.latest(),
    {
        proof {
            use_type_invariant(self);
        }
        let thoughts = self.thoughts.clone();
        proof {
            assert(thoughts@ =~= self.thoughts@);
        }
        let current_branch = match &self.current_branch {
            Some(b) => Some(b.clone()),
            None => None,
        };
        SequentialThinking { thoughts, current_branch, latest_thought_number: self.latest_thought_number }
    }
}

impl Default for SequentialThinking {
    fn default() -> (r: Self)
        ensures
            r.recorded() == Seq::<Thought>::empty(),
            r.branch() is None,
            r.latest() == 0,
    {
        Self::new()
    }
}

/// Putting `t` in place of the thought with the same number keeps the
/// order and replaces exactly that thought.
proof fn lemma_replace_keeps_order(s: Seq<Thought>, p: int, t: Thought)
    requires
        strictly_sorted(s),
        0 <= p < s.len(),
        s[p].thought_number == t.thought_number,
    ensures
        strictly_sorted(s.update(p, t)),
        forall|x: Thought|
            #[trigger] s.update(p, t).contains(x) <==> (x == t || (s.contains(x) && x.thought_number
                != t.thought_number)),
{
    let r = s.update(p, t);
    let n = t.thought_number;
    assert forall|i: int, j: int| 0 <= i < j < r.len() implies (#[trigger] r[i]).thought_number
        < (#[trigger] r[j]).thought_number by {
        assert(s[i].thought_number < s[j].thought_number);
    }
    assert forall|x: Thought| r.contains(x) <==> (x == t || (s.contains(x) && x.thought_number != n)) by {
        if r.contains(x) {
            let i = choose|i: int| 0 <= i < r.len() && r[i] == x;
            if i != p {
                assert(s[i] == x);
                if i < p {
                    assert(s[i].thought_number < s[p].thought_number);
                } else {
                    assert(s[p].thought_number < s[i].thought_number);
                }
                assert(s.contains(x));
            }
        }
        if x == t {
            assert(r[p] == x);
        }
        if s.contains(x) && x.thought_number != n {
            let i = choose|i: int| 0 <= i < s.len() && s[i] == x;
            assert(i != p);
            assert(r[i] == x);
        }
    }
}

/// Inserting `t` at the place where every earlier thought has a smaller
/// number and every later one a larger number keeps the order.
proof fn lemma_insert_keeps_order(s: Seq<Thought>, p: int, t: Thought)
    requires
        strictly_sorted(s),
        0 <= p <= s.len(),
        forall|j: int| 0 <= j < p ==> (#[trigger] s[j]).thought_number < t.thought_number,
        p < s.len() ==> s[p].thought_number > t.thought_number,
    ensures
        strictly_sorted(s.insert(p, t)),
        forall|x: Thought|
            #[trigger] s.insert(p, t).contains(x) <==> (x == t || (s.contains(x) && x.thought_number
                != t.thought_number)),
{
    let r = s.insert(p, t);
    let n = t.thought_number;
    assert forall|i: int| p <= i < s.len() implies (#[trigger] s[i]).thought_number > n by {
        if i > p {
            assert(s[p].thought_number < s[i].thought_number);
        }
    }
    assert forall|i: int, j: int| 0 <= i < j < r.len() implies (#[trigger] r[i]).thought_number
        < (#[trigger] r[j]).thought_number by {
        if j < p {
            assert(r[i] == s[i] && r[j] == s[j]);
            assert(s[i].thought_number < s[j].thought_number);
        } else if j == p {
            assert(r[i] == s[i]);
        } else if i < p {
            assert(r[i] == s[i] && r[j] == s[j - 1]);
        } else if i == p {
            assert(r[j] == s[j - 1]);
        } else {
            assert(r[i] == s[i - 1] && r[j] == s[j - 1]);
            assert(s[i - 1].thought_number < s[j - 1].thought_number);
        }
    }
    assert forall|x: Thought| r.contains(x) <==> (x == t || (s.contains(x) && x.thought_number != n)) by {
        if r.contains(x) {
            let i = choose|i: int| 0 <= i < r.len() && r[i] == x;
            if i < p {
                assert(s[i] == x);
                assert(s.contains(x));
            } else if i > p {
                assert(s[i - 1] == x);
                assert(s.contains(x));
            }
        }
        if x == t {
            assert(r[p] == x);
        }
        if s.contains(x) && x.thought_number != n {
            let i = choose|i: int| 0 <= i < s.len() && s[i] == x;
            if i < p {
                assert(r[i] == x);
            } else {
                assert(r[i + 1] == x);
            }
        }
    }
}

/// A recorded thought can be read back by its number, and the record stays
/// ordered by number: after a successful `add_thought`, `get_thought` of its
/// number finds it.
pub proof fn law_added_thought_is_found(before: SequentialThinking, after: SequentialThinking, t: Thought)
    requires
        strictly_sorted(after.recorded()),
        forall|x: Thought|
            after.recorded().contains(x) <==> (x == t || (before.recorded().contains(x)
                && x.thought_number != t.thought_number)),
    ensures
        after.recorded().contains(t),
        has_number(after.recorded(), t.thought_number),
        forall|x: Thought| after.recorded().contains(x) && x.thought_number == t.thought_number ==> x == t,
{
    assert(after.recorded().contains(t));
    let i = choose|i: int| 0 <= i < after.recorded().len() && after.recorded()[i] == t;
    assert(after.recorded()[i].thought_number == t.thought_number);
}

} // verus!
