//! Thinking step by step with a chat model: the conversation sent at each
//! step, the thoughts recorded, and the final answer. The chat requests
//! themselves are made outside the library.
use vstd::prelude::*;
use crate::lsp::types::{lowercase, to_lower};
use crate::text::{
    byte_len, byte_len_of, char_count_at_byte, char_count_at_byte_exec, contains, decimal, from_chars, owned,
    push_decimal, push_str, slice_chars, str_contains, to_chars, trim, trim_chars,
};
use crate::thinking::sequential::{main_branch, summary_of, SequentialThinking, Thought, ThinkingError, refers_to_missing};
use crate::tools::bash_command::{find_first, first_occurrence};

verus! {

/// Who speaks a message of the conversation.
#[derive(Debug, Clone, Copy, PartialEq, Eq, Structural)]
pub enum ChatRole {
    System,
    User,
    Assistant,
}

/// One message of the conversation.
#[derive(Debug)]
pub struct ChatMessage {
    pub role: ChatRole,
    pub content: String,
}

impl Clone for ChatMessage {
    fn clone(&self) -> (r: Self)
        ensures
            r.role == self.role,
            r.content@ == self.content@,
    {
        ChatMessage { role: self.role, content: self.content.clone() }
    }
}

pub open spec fn message_view(m: ChatMessage) -> (ChatRole, Seq<char>) {
    (m.role, m.content@)
}

pub open spec fn messages_view(ms: Seq<ChatMessage>) -> Seq<(ChatRole, Seq<char>)> {
    ms.map_values(|m: ChatMessage| message_view(m))
}

/// The question that opens the conversation.
pub open spec fn question_text(query: Seq<char>) -> Seq<char> {
    "Question: "@ + query + "\n\nThink step-by-step to solve this problem. Start your first step with 'Step 1:'"@
}

/// The request for step `n`.
pub open spec fn step_text(n: nat) -> Seq<char> {
    "Continue your thinking process. What is step "@ + decimal(n) + "?"@
}

/// The request for the conclusion.
pub open spec fn conclusion_request() -> Seq<char> {
    "Based on your step-by-step thinking, what is your final answer or conclusion?"@
}

/// The summary of the thinking, as `SequentialThinking::get_summary` gives it.
pub open spec fn summary_text(t: SequentialThinking) -> Seq<char> {
    if main_branch(t.recorded(), t.branch()).len() == 0 {
        "No thoughts recorded yet."@
    } else {
        summary_of(main_branch(t.recorded(), t.branch()))
    }
}

/// What to do after an answer of the model.
#[derive(Debug)]
pub enum QueryStep {
    /// Send the conversation, as it now stands, to the model
    Ask(Vec<ChatMessage>),
    /// The final text: the thinking and the conclusion
    Done(String),
}

/// A query answered step by step: the conversation so far, the thoughts,
/// the number of steps asked for, and how many answers came.
#[derive(Debug)]
pub struct ThinkingQuery {
    thinking: SequentialThinking,
    messages: Vec<ChatMessage>,
    total_steps: usize,
    answered: usize,
}

impl ThinkingQuery {
    pub closed spec fn conversation(self) -> Seq<(ChatRole, Seq<char>)> {
        messages_view(self.messages@)
    }

    pub closed spec fn thoughts(self) -> SequentialThinking {
        self.thinking
    }

    pub closed spec fn answers(self) -> nat {
        self.answered as nat
    }

    pub closed spec fn steps(self) -> nat {
        self.total_steps as nat
    }

    /// The number of thoughts the query records: the steps asked for, at
    /// least one.
    pub open spec fn thought_count(steps: nat) -> nat {
        if steps == 0 {
            1
        } else {
            steps
        }
    }

    /// A query: its conversation starts with the system prompt and the
    /// question; the first request sends it.
    pub fn start(system_prompt: &str, query: &str, total_steps: usize) -> (r: (Self, Vec<ChatMessage>))
        ensures
            r.0.conversation() == seq![(ChatRole::System, system_prompt@), (ChatRole::User, question_text(query@))],
            messages_view(r.1@) == r.0.conversation(),
            r.0.answers() == 0,
            r.0.steps() == total_steps,
            r.0.thoughts().recorded().len() == 0,
    {
        let mut q: Vec<char> = Vec::new();
        push_str(&mut q, "Question: ");
        push_str(&mut q, query);
        push_str(&mut q, "\n\nThink step-by-step to solve this problem. Start your first step with 'Step 1:'");
        let mut messages: Vec<ChatMessage> = Vec::new();
        messages.push(ChatMessage { role: ChatRole::System, content: owned(system_prompt) });
        messages.push(ChatMessage { role: ChatRole::User, content: from_chars(q.as_slice()) });
        let request = copy_messages(&messages);
        proof {
            assert(messages_view(messages@) =~= seq![(ChatRole::System, system_prompt@), (ChatRole::User, question_text(query@))]);
        }
        (ThinkingQuery { thinking: SequentialThinking::new(), messages, total_steps, answered: 0 }, request)
    }

    /// Take the model's answer. Before the conclusion, the answer is
    /// recorded as the next thought and added to the conversation, and the
    /// next step (or the conclusion) is asked for; the answer to that is the
    /// conclusion, and the query ends with the thinking and the conclusion.
    pub fn on_response(&mut self, response: String) -> (r: QueryStep)
        requires
            old(self).answers() <= Self::thought_count(old(self).steps()),
        ensures
            final(self).steps() == old(self).steps(),
            final(self).answers() <= Self::thought_count(final(self).steps()),
            old(self).answers() == Self::thought_count(old(self).steps()) ==> (r matches QueryStep::Done(t) && t@
                == "# Thinking Process\n\n"@ + summary_text(old(self).thoughts()) + "\n\n# Conclusion\n\n"@ + response@),
            old(self).answers() < Self::thought_count(old(self).steps()) ==> {
                let n = old(self).answers() + 1;
                let next = if n < Self::thought_count(old(self).steps()) {
                    (ChatRole::User, step_text(n + 1))
                } else {
                    (ChatRole::User, conclusion_request())
                };
                &&& final(self).answers() == n
                &&& final(self).conversation() == old(self).conversation().push((ChatRole::Assistant, response@)).push(next)
                &&& r matches QueryStep::Ask(ms) && messages_view(ms@) == final(self).conversation()
                &&& forall|t: Thought| #[trigger] final(self).thoughts().recorded().contains(t) <==> (t == Thought {
                    content: response,
                    thought_number: n as usize,
                    total_thoughts: old(self).steps() as usize,
                    next_thought_needed: n < old(self).steps(),
                    is_revision: false,
                    revises_thought: None,
                    branch_from_thought: None,
                    branch_id: None,
                    needs_more_thoughts: false,
                } || (old(self).thoughts().recorded().contains(t) && t.thought_number != n))
            },
    {
        let count = if self.total_steps == 0 { 1 } else { self.total_steps };
        if self.answered >= count {
            let summary = self.thinking.get_summary();
            let mut v: Vec<char> = Vec::new();
            push_str(&mut v, "# Thinking Process\n\n");
            push_str(&mut v, summary.as_str());
            push_str(&mut v, "\n\n# Conclusion\n\n");
            push_str(&mut v, response.as_str());
            return QueryStep::Done(from_chars(v.as_slice()));
        }
        let n = self.answered + 1;
        let thought = Thought {
            content: response.clone(),
            thought_number: n,
            total_thoughts: self.total_steps,
            next_thought_needed: n < self.total_steps,
            is_revision: false,
            revises_thought: None,
            branch_from_thought: None,
            branch_id: None,
            needs_more_thoughts: false,
        };
        let mut thinking = SequentialThinking::new();
        std::mem::swap(&mut thinking, &mut self.thinking);
        let added = thinking.add_thought(thought);
        proof {
            assert(added is Ok);
        }
        self.thinking = thinking;
        let mut messages: Vec<ChatMessage> = Vec::new();
        std::mem::swap(&mut messages, &mut self.messages);
        messages.push(ChatMessage { role: ChatRole::Assistant, content: response });
        let mut ask: Vec<char> = Vec::new();
        if n < count {
            push_str(&mut ask, "Continue your thinking process. What is step ");
            push_decimal(&mut ask, (n + 1) as u64);
            push_str(&mut ask, "?");
        } else {
            push_str(&mut ask, "Based on your step-by-step thinking, what is your final answer or conclusion?");
        }
        messages.push(ChatMessage { role: ChatRole::User, content: from_chars(ask.as_slice()) });
        self.messages = messages;
        self.answered = n;
        QueryStep::Ask(copy_messages(&self.messages))
    }
}

fn copy_messages(ms: &Vec<ChatMessage>) -> (r: Vec<ChatMessage>)
    ensures
        messages_view(r@) == messages_view(ms@),
{
    let mut r: Vec<ChatMessage> = Vec::new();
    let mut i: usize = 0;
    while i < ms.len()
        invariant
            i <= ms.len(),
            messages_view(r@) == messages_view(ms@).take(i as int),
        decreases ms.len() - i,
    {
        let m = ms[i].clone();
        let ghost before = r@;
        r.push(m);
        proof {
            assert(messages_view(r@) =~= messages_view(before).push(message_view(m)));
            assert(messages_view(ms@).take(i + 1) =~= messages_view(ms@).take(i as int).push(message_view(ms@[i as int])));
        }
        i += 1;
    }
    proof {
        assert(messages_view(ms@).take(ms.len() as int) =~= messages_view(ms@));
    }
    r
}


// ---------------------------------------------------------------------------
// Which thought a revision request names
// ---------------------------------------------------------------------------

/// The phrases a thought number follows in a revision request, in the order
/// they are looked for.
pub open spec fn number_phrases() -> Seq<Seq<char>> {
    seq!["thought #"@, "thought number "@, "step "@, "thought "@]
}

/// The byte offset just past the first `p` in the lower-cased text `low`.
pub open spec fn after_phrase(low: Seq<char>, p: Seq<char>) -> Option<nat> {
    match first_occurrence(low, p) {
        Some(k) => Some(byte_len(low.take(k)) + byte_len(p)),
        None => None,
    }
}

/// Where the (at most two) bytes read from `start` end.
pub open spec fn digits_end(text: Seq<char>, start: nat) -> nat {
    if byte_len(text) < start + 2 {
        byte_len(text)
    } else {
        start + 2
    }
}

/// Whether the bytes after `p` can be cut out of `text`: `p` does not occur
/// in `low`, or the offset past it lies within `text` and both ends of the
/// two bytes after it fall between characters of `text`.
pub open spec fn digits_readable(text: Seq<char>, low: Seq<char>, p: Seq<char>) -> bool {
    match after_phrase(low, p) {
        Some(start) => start <= byte_len(text) && char_count_at_byte(text, start) is Some
            && char_count_at_byte(text, digits_end(text, start)) is Some,
        None => true,
    }
}

/// The (at most two bytes of) text after the first `p`, where it occurs.
pub open spec fn digits_after(text: Seq<char>, low: Seq<char>, p: Seq<char>) -> Option<Seq<char>> {
    match after_phrase(low, p) {
        Some(start) => Some(
            text.subrange(
                char_count_at_byte(text, start)->0 as int,
                char_count_at_byte(text, digits_end(text, start))->0 as int,
            ),
        ),
        None => None,
    }
}

pub open spec fn is_digit(c: char) -> bool {
    48 <= (c as u32) <= 57
}

pub open spec fn digit_value(c: char) -> nat {
    ((c as u32) - 48) as nat
}

/// A number of at most two characters read as `usize::from_str` reads it:
/// one or two digits, or a plus sign and one digit.
pub open spec fn short_number(s: Seq<char>) -> Option<nat> {
    if s.len() == 1 && is_digit(s[0]) {
        Some(digit_value(s[0]))
    } else if s.len() == 2 && is_digit(s[0]) && is_digit(s[1]) {
        Some(10 * digit_value(s[0]) + digit_value(s[1]))
    } else if s.len() == 2 && s[0] == '+' && is_digit(s[1]) {
        Some(digit_value(s[1]))
    } else {
        None
    }
}

/// The number read after phrase `i`, where the phrase occurs and a number
/// follows it.
pub open spec fn number_after(text: Seq<char>, low: Seq<char>, i: int) -> Option<nat> {
    match digits_after(text, low, number_phrases()[i]) {
        Some(d) => short_number(trim(d)),
        None => None,
    }
}

/// The thought number named after the first of the phrases from `i` on
/// that is followed by one.
pub open spec fn named_thought_from(text: Seq<char>, low: Seq<char>, i: int) -> Option<nat>
    decreases 4 - i,
{
    if i < 0 || i >= 4 {
        None
    } else {
        match number_after(text, low, i) {
            Some(n) => Some(n),
            None => named_thought_from(text, low, i + 1),
        }
    }
}

/// Every phrase looked at, from `i` on, can be read after.
pub open spec fn named_thought_readable(text: Seq<char>, low: Seq<char>, i: int) -> bool
    decreases 4 - i,
{
    if i < 0 || i >= 4 {
        true
    } else {
        digits_readable(text, low, number_phrases()[i]) && (number_after(text, low, i) is Some
            || named_thought_readable(text, low, i + 1))
    }
}

fn short_number_exec(s: &[char]) -> (r: Option<usize>)
    ensures
        match r {
            Some(n) => short_number(s@) == Some(n as nat),
            None => short_number(s@) is None,
        },
{
    if s.len() == 1 && 48 <= (s[0] as u32) && (s[0] as u32) <= 57 {
        Some(((s[0] as u32) - 48) as usize)
    } else if s.len() == 2 && 48 <= (s[0] as u32) && (s[0] as u32) <= 57 && 48 <= (s[1] as u32) && (s[1] as u32)
        <= 57 {
        Some((10 * ((s[0] as u32) - 48) + ((s[1] as u32) - 48)) as usize)
    } else if s.len() == 2 && s[0] == '+' && 48 <= (s[1] as u32) && (s[1] as u32) <= 57 {
        Some(((s[1] as u32) - 48) as usize)
    } else {
        None
    }
}

/// The number read after `phrase`, where it occurs in `low`; `Err` where
/// the bytes after it cannot be cut out of `text`.
fn read_after_phrase(text: &[char], low: &[char], phrase: &str) -> (r: Result<Option<usize>, ()>)
    requires
        phrase@.len() >= 1,
    ensures
        r is Err <==> !digits_readable(text@, low@, phrase@),
        r matches Ok(x) ==> match x {
            Some(n) => (match digits_after(text@, low@, phrase@) {
                Some(d) => short_number(trim(d)),
                None => None,
            }) == Some(n as nat),
            None => (match digits_after(text@, low@, phrase@) {
                Some(d) => short_number(trim(d)),
                None => None,
            }) is None,
        },
{
    let p = to_chars(phrase);
    let k = match find_first(low, p.as_slice()) {
        Some(k) => k,
        None => {
            return Ok(None);
        },
    };
    let before = slice_chars(low, 0, k);
    let start: u128 = byte_len_of(before.as_slice()) + byte_len_of(p.as_slice());
    let total: u128 = byte_len_of(text);
    proof {
        assert(before@ == low@.take(k as int));
    }
    if start > total {
        return Err(());
    }
    let end: u128 = if total < start + 2 { total } else { start + 2 };
    let a = char_count_at_byte_exec(text, start);
    let b = char_count_at_byte_exec(text, end);
    match (a, b) {
        (Some(a), Some(b)) => {
            proof {
                crate::text::lemma_char_count_at_byte_bound(text@, start as nat);
                crate::text::lemma_char_count_at_byte_bound(text@, end as nat);
                crate::text::lemma_char_count_at_byte_mono(text@, start as nat, end as nat);
            }
            let d = slice_chars(text, a, b);
            let t = trim_chars(d.as_slice());
            Ok(short_number_exec(t.as_slice()))
        },
        _ => Err(()),
    }
}

proof fn lemma_phrases()
    ensures
        number_phrases()[0] == "thought #"@,
        number_phrases()[1] == "thought number "@,
        number_phrases()[2] == "step "@,
        number_phrases()[3] == "thought "@,
        "thought #"@.len() >= 1,
        "thought number "@.len() >= 1,
        "step "@.len() >= 1,
        "thought "@.len() >= 1,
{
    reveal_strlit("thought #");
    reveal_strlit("thought number ");
    reveal_strlit("step ");
    reveal_strlit("thought ");
}

/// Whether the thought a revision request names can be read (see
/// `named_thought_readable`).
fn thought_readable(text: &[char], low: &[char]) -> (r: bool)
    ensures
        r == named_thought_readable(text@, low@, 0),
{
    proof {
        lemma_phrases();
        reveal_with_fuel(named_thought_readable, 5);
    }
    match read_after_phrase(text, low, "thought #") {
        Err(_) => {
            return false;
        },
        Ok(Some(_)) => {
            return true;
        },
        Ok(None) => {},
    }
    match read_after_phrase(text, low, "thought number ") {
        Err(_) => {
            return false;
        },
        Ok(Some(_)) => {
            return true;
        },
        Ok(None) => {},
    }
    match read_after_phrase(text, low, "step ") {
        Err(_) => {
            return false;
        },
        Ok(Some(_)) => {
            return true;
        },
        Ok(None) => {},
    }
    read_after_phrase(text, low, "thought ").is_ok()
}

/// The thought a revision request names: the number after the first of
/// "thought #", "thought number ", "step " and "thought " (looked for in the
/// lower-cased request `lowered`) that is followed by one, read from the
/// two bytes of `text` after where the phrase ends.
pub fn named_thought(text: &str, lowered: &str) -> (r: Option<usize>)
    requires
        named_thought_readable(text@, lowered@, 0),
    ensures
        match r {
            Some(n) => named_thought_from(text@, lowered@, 0) == Some(n as nat),
            None => named_thought_from(text@, lowered@, 0) is None,
        },
{
    let t = to_chars(text);
    let low = to_chars(lowered);
    proof {
        lemma_phrases();
        reveal_with_fuel(named_thought_readable, 5);
        reveal_with_fuel(named_thought_from, 5);
    }
    if let Ok(Some(n)) = read_after_phrase(t.as_slice(), low.as_slice(), "thought #") {
        return Some(n);
    }
    if let Ok(Some(n)) = read_after_phrase(t.as_slice(), low.as_slice(), "thought number ") {
        return Some(n);
    }
    if let Ok(Some(n)) = read_after_phrase(t.as_slice(), low.as_slice(), "step ") {
        return Some(n);
    }
    match read_after_phrase(t.as_slice(), low.as_slice(), "thought ") {
        Ok(x) => x,
        Err(_) => None,
    }
}


// ---------------------------------------------------------------------------
// Revising a thought after the query
// ---------------------------------------------------------------------------

/// The question whether any thought needs revising.
pub open spec fn revision_question(summary: Seq<char>) -> Seq<char> {
    "You have completed your initial thinking process:\n\n"@ + summary
        + "\n\nDo you want to revise any of your previous thoughts? If yes, specify which thought(s) needs revision and why. If no, respond with 'No revisions needed.'"@
}

/// The request for the revised text of thought `n`.
pub open spec fn revised_thought_request(n: nat) -> Seq<char> {
    "Please provide a revised version of thought #"@ + decimal(n)
        + ". Make sure to address the issues you identified."@
}

/// Whether the answer to the revision question asks for a revision that
/// may be made.
pub open spec fn wants_revision(answer: Seq<char>, max_revisions: nat) -> bool {
    !contains(answer, "No revisions needed"@) && max_revisions > 0
}

/// What to do after the answer to the revision question.
#[derive(Debug)]
pub enum RevisionStep {
    /// Send `prompt` to the model; its answer is the revised text of
    /// thought `thought`, and `text` is the final text so far.
    Ask { prompt: String, thought: usize, text: String },
    /// The final text.
    Done(String),
}

/// `r` is the step after `answer`, with `text` the final text so far and
/// `low` the answer in lower case.
pub open spec fn revision_step_is(
    r: RevisionStep,
    text: Seq<char>,
    answer: Seq<char>,
    low: Seq<char>,
    max_revisions: nat,
) -> bool {
    if wants_revision(answer, max_revisions) {
        let n = match named_thought_from(answer, low, 0) {
            Some(k) => k,
            None => 1,
        };
        r matches RevisionStep::Ask { prompt, thought, text: t } && thought == n && prompt@
            == revised_thought_request(n) && t@ == text + "\n\n# Revision Request\n\n"@ + answer
    } else {
        r matches RevisionStep::Done(t) && t@ == text + "\n\n# Revision Check\n\n"@ + answer
    }
}

/// The revision of thought `k` recorded as thought `number`.
pub open spec fn revision_thought(content: String, number: usize, steps: usize, k: usize) -> Thought {
    Thought {
        content,
        thought_number: number,
        total_thoughts: steps,
        next_thought_needed: false,
        is_revision: true,
        revises_thought: Some(k),
        branch_from_thought: None,
        branch_id: None,
        needs_more_thoughts: false,
    }
}

impl ThinkingQuery {
    /// The question, sent once the query is answered, whether any thought
    /// needs revising; it holds the summary of the thinking.
    pub fn revision_request(&self) -> (r: String)
        ensures
            r@ == revision_question(summary_text(self.thoughts())),
    {
        let summary = self.thinking.get_summary();
        let mut v: Vec<char> = Vec::new();
        push_str(&mut v, "You have completed your initial thinking process:\n\n");
        push_str(&mut v, summary.as_str());
        push_str(
            &mut v,
            "\n\nDo you want to revise any of your previous thoughts? If yes, specify which thought(s) needs revision and why. If no, respond with 'No revisions needed.'",
        );
        from_chars(v.as_slice())
    }

    /// Take the answer to the revision question, `text` being the final
    /// text the query ended with and `lowered` the answer in lower case.
    /// Unless the answer says "No revisions needed" or no revision may be
    /// made, the thought it names (thought 1 where it names none) is asked
    /// for again; else the answer ends the text.
    pub fn on_revision_answer(&self, text: String, answer: &str, lowered: &str, max_revisions: usize) -> (r:
        RevisionStep)
        requires
            wants_revision(answer@, max_revisions as nat) ==> named_thought_readable(answer@, lowered@, 0),
        ensures
            revision_step_is(r, text@, answer@, lowered@, max_revisions as nat),
    {
        proof {
            reveal_strlit("No revisions needed");
        }
        let mut v: Vec<char> = Vec::new();
        push_str(&mut v, text.as_str());
        if str_contains(answer, "No revisions needed") || max_revisions == 0 {
            push_str(&mut v, "\n\n# Revision Check\n\n");
            push_str(&mut v, answer);
            return RevisionStep::Done(from_chars(v.as_slice()));
        }
        push_str(&mut v, "\n\n# Revision Request\n\n");
        push_str(&mut v, answer);
        let n = match named_thought(answer, lowered) {
            Some(k) => k,
            None => 1,
        };
        let mut q: Vec<char> = Vec::new();
        push_str(&mut q, "Please provide a revised version of thought #");
        push_decimal(&mut q, n as u64);
        push_str(&mut q, ". Make sure to address the issues you identified.");
        RevisionStep::Ask { prompt: from_chars(q.as_slice()), thought: n, text: from_chars(v.as_slice()) }
    }

    /// `on_revision_answer` with the answer put in lower case here; `None`
    /// where the thought the answer names cannot be read from it.
    pub fn on_revision_reply(&self, text: String, answer: &str, max_revisions: usize) -> (r: Option<RevisionStep>)
        ensures
            r is None <==> wants_revision(answer@, max_revisions as nat) && !named_thought_readable(
                answer@,
                lowercase(answer@),
                0,
            ),
            r matches Some(step) ==> revision_step_is(step, text@, answer@, lowercase(answer@), max_revisions as nat),
    {
        let lowered = to_lower(answer);
        proof {
            reveal_strlit("No revisions needed");
        }
        if !str_contains(answer, "No revisions needed") && max_revisions > 0 {
            let a = to_chars(answer);
            let l = to_chars(lowered.as_str());
            if !thought_readable(a.as_slice(), l.as_slice()) {
                return None;
            }
        }
        Some(self.on_revision_answer(text, answer, lowered.as_str(), max_revisions))
    }

    /// Take the revised text of thought `thought`: it is recorded as a new
    /// thought (numbered after all recorded ones) revising that one, and
    /// ends the final text `text`, with a note when more revisions were
    /// allowed. Fails, changing nothing, where no thought `thought` is
    /// recorded.
    pub fn on_revised_thought(&mut self, text: String, thought: usize, revised: String, max_revisions: usize) -> (r:
        Result<String, ThinkingError>)
        requires
            old(self).thoughts().recorded().len() < usize::MAX,
        ensures
            r is Ok <==> !refers_to_missing(old(self).thoughts().recorded(), Some(thought)),
            r is Err ==> r == Err::<String, ThinkingError>(ThinkingError::UnknownRevisedThought(thought)),
            r is Err ==> *final(self) == *old(self),
            r matches Ok(t) ==> {
                let added = revision_thought(
                    revised,
                    (old(self).thoughts().recorded().len() + 1) as usize,
                    old(self).steps() as usize,
                    thought,
                );
                &&& t@ == text@ + "\n\n# Revised Thought\n\n"@ + revised@ + (if max_revisions > 1 {
                    "\n\n(Additional revisions would be processed here if needed)"@
                } else {
                    Seq::<char>::empty()
                })
                &&& forall|x: Thought| #[trigger] final(self).thoughts().recorded().contains(x) <==> (x == added
                    || (old(self).thoughts().recorded().contains(x) && x.thought_number != added.thought_number))
                &&& final(self).conversation() == old(self).conversation()
                &&& final(self).steps() == old(self).steps()
                &&& final(self).answers() == old(self).answers()
            },
    {
        let count = self.thinking.get_thoughts().len();
        let t = Thought {
            content: revised.clone(),
            thought_number: count + 1,
            total_thoughts: self.total_steps,
            next_thought_needed: false,
            is_revision: true,
            revises_thought: Some(thought),
            branch_from_thought: None,
            branch_id: None,
            needs_more_thoughts: false,
        };
        let mut thinking = SequentialThinking::new();
        std::mem::swap(&mut thinking, &mut self.thinking);
        let added = thinking.add_thought(t);
        self.thinking = thinking;
        match added {
            Err(e) => Err(e),
            Ok(()) => {
                let mut v: Vec<char> = Vec::new();
                push_str(&mut v, text.as_str());
                push_str(&mut v, "\n\n# Revised Thought\n\n");
                push_str(&mut v, revised.as_str());
                if max_revisions > 1 {
                    push_str(&mut v, "\n\n(Additional revisions would be processed here if needed)");
                }
                Ok(from_chars(v.as_slice()))
            },
        }
    }
}

} // verus!
