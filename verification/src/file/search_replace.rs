//! Search/replace edit blocks in three syntaxes (marker blocks with an
//! optional `# occurrence: N` selector, `<<<`/`>>>` pairs, and pairs of
//! markdown code fences), matched with whitespace tolerance and applied to
//! file content.
use vstd::prelude::*;
use crate::markers::{is_marker, marker_match};
use crate::text::{
    byte_len, byte_len_of, chars_blank, chars_eq, contains, contains_chars, count_leading_ws,
    decimal, from_chars, is_blank, join, join_strings, leading_ws, lines, nl, push_chars,
    push_decimal, push_str, slice_chars, split_lines_chars, starts_with,
    starts_with_chars, strip_ws, strip_ws_chars, to_chars, trim, trim_chars, trim_end,
    trim_end_chars, trim_start, trim_start_chars,
};

verus! {

// ---------------------------------------------------------------------------
// Types
// ---------------------------------------------------------------------------

/// Represents a single search/replace operation with patterns to find and replace
#[derive(Debug, Clone, PartialEq)]
pub struct SearchReplaceBlock {
    /// Lines of text to search for in the target file
    pub search_lines: Vec<String>,
    /// Lines of text to replace the matched content with
    pub replace_lines: Vec<String>,
    /// Optional index to specify which occurrence to replace (0-based);
    /// None means apply to all occurrences
    pub occurrence_index: Option<usize>,
}

/// A spec-level block: search lines, replacement lines, occurrence index.
pub type FileBlockView = (Seq<Seq<char>>, Seq<Seq<char>>, Option<nat>);

impl View for SearchReplaceBlock {
    type V = FileBlockView;

    open spec fn view(&self) -> FileBlockView {
        (
            self.search_lines.deep_view(),
            self.replace_lines.deep_view(),
            match self.occurrence_index {
                Some(n) => Some(n as nat),
                None => None,
            },
        )
    }
}

pub open spec fn fblocks_view(v: Seq<SearchReplaceBlock>) -> Seq<FileBlockView> {
    v.map_values(|b: SearchReplaceBlock| b@)
}

/// Error types specific to search/replace operations
#[derive(Debug)]
pub enum SearchReplaceError {
    /// Error indicating incorrect syntax in search/replace blocks
    SyntaxError(String),
    /// Error indicating the search pattern wasn't found in the content
    MatchError(String),
    /// Error indicating multiple matches found for a pattern that should be unique
    MultipleMatchesError(String),
    /// Error indicating an ambiguous match requiring clarification
    AmbiguousMatchError(String),
    /// Error indicating insufficient context to identify a unique match
    MissingContextError(String),
    /// A search block matched nowhere: the content lines it was searched in and
    /// its search lines (the report quotes the most similar part of the content).
    BlockNotFound { content_lines: Vec<String>, search_lines: Vec<String> },
}

impl SearchReplaceError {
    pub open spec fn display(&self) -> Option<Seq<char>> {
        match self {
            SearchReplaceError::SyntaxError(m) => Some("Search/Replace syntax error: "@ + m@),
            SearchReplaceError::MatchError(m) => Some("Search block not found: "@ + m@),
            SearchReplaceError::MultipleMatchesError(m) => Some("Multiple matches found: "@ + m@),
            SearchReplaceError::AmbiguousMatchError(m) => Some("Ambiguous match: "@ + m@),
            SearchReplaceError::MissingContextError(m) => Some(
                "Missing context for unique match: "@ + m@,
            ),
            SearchReplaceError::BlockNotFound { .. } => None,
        }
    }

    /// The error's text for every variant that carries its message.
    pub fn to_text(&self) -> (r: Option<String>)
        ensures
            match self.display() {
                Some(t) => r matches Some(s) && s@ == t,
                None => r is None,
            },
    {
        let mut v: Vec<char> = Vec::new();
        match self {
            SearchReplaceError::SyntaxError(m) => {
                push_str(&mut v, "Search/Replace syntax error: ");
                push_str(&mut v, m.as_str());
            },
            SearchReplaceError::MatchError(m) => {
                push_str(&mut v, "Search block not found: ");
                push_str(&mut v, m.as_str());
            },
            SearchReplaceError::MultipleMatchesError(m) => {
                push_str(&mut v, "Multiple matches found: ");
                push_str(&mut v, m.as_str());
            },
            SearchReplaceError::AmbiguousMatchError(m) => {
                push_str(&mut v, "Ambiguous match: ");
                push_str(&mut v, m.as_str());
            },
            SearchReplaceError::MissingContextError(m) => {
                push_str(&mut v, "Missing context for unique match: ");
                push_str(&mut v, m.as_str());
            },
            SearchReplaceError::BlockNotFound { .. } => {
                return None;
            },
        }
        Some(from_chars(v.as_slice()))
    }
}

/// Tolerance levels for pattern matching, with increasing flexibility
#[derive(Debug, Clone, Copy, PartialEq, Eq, Structural)]
pub enum ToleranceLevel {
    /// Exact match
    Exact,
    /// Ignore trailing whitespace
    IgnoreTrailingWhitespace,
    /// Ignore leading whitespace (indentation)
    IgnoreLeadingWhitespace,
    /// Ignore all whitespace
    IgnoreAllWhitespace,
}

impl ToleranceLevel {
    pub open spec fn normalize(self, s: Seq<char>) -> Seq<char> {
        match self {
            ToleranceLevel::Exact => s,
            ToleranceLevel::IgnoreTrailingWhitespace => trim_end(s),
            ToleranceLevel::IgnoreLeadingWhitespace => trim_start(s),
            ToleranceLevel::IgnoreAllWhitespace => strip_ws(s),
        }
    }

    /// Score multiplier in half points (the level's weight times two):
    /// exact 1, trailing 1.5, leading 10, all whitespace 50.
    pub open spec fn half_multiplier(self) -> u64 {
        match self {
            ToleranceLevel::Exact => 2,
            ToleranceLevel::IgnoreTrailingWhitespace => 3,
            ToleranceLevel::IgnoreLeadingWhitespace => 20,
            ToleranceLevel::IgnoreAllWhitespace => 100,
        }
    }

    pub open spec fn severity_text(self) -> Seq<char> {
        match self {
            ToleranceLevel::Exact => "SILENT"@,
            ToleranceLevel::IgnoreTrailingWhitespace => "SILENT"@,
            ToleranceLevel::IgnoreLeadingWhitespace => "WARNING"@,
            ToleranceLevel::IgnoreAllWhitespace => "WARNING"@,
        }
    }

    pub open spec fn warning_text(self) -> Option<Seq<char>> {
        match self {
            ToleranceLevel::Exact => None,
            ToleranceLevel::IgnoreTrailingWhitespace => None,
            ToleranceLevel::IgnoreLeadingWhitespace => Some(
                "Warning: matching without considering indentation (leading spaces)."@,
            ),
            ToleranceLevel::IgnoreAllWhitespace => Some(
                "Warning: matching after removing all spaces in lines."@,
            ),
        }
    }

    /// Applies the tolerance rules to process a line for comparison
    pub fn process_line(&self, line: &str) -> (r: String)
        ensures
            r@ == self.normalize(line@),
    {
        let v = to_chars(line);
        let out = self.process_chars(v.as_slice());
        from_chars(out.as_slice())
    }

    pub fn process_chars(&self, line: &[char]) -> (r: Vec<char>)
        ensures
            r@ == self.normalize(line@),
    {
        match self {
            ToleranceLevel::Exact => slice_chars(line, 0, line.len()),
            ToleranceLevel::IgnoreTrailingWhitespace => trim_end_chars(line),
            ToleranceLevel::IgnoreLeadingWhitespace => trim_start_chars(line),
            ToleranceLevel::IgnoreAllWhitespace => strip_ws_chars(line),
        }
    }

    /// Gets the severity level of this tolerance for warning purposes
    pub fn severity(&self) -> (r: &'static str)
        ensures
            r@ == self.severity_text(),
    {
        match self {
            ToleranceLevel::Exact => "SILENT",
            ToleranceLevel::IgnoreTrailingWhitespace => "SILENT",
            ToleranceLevel::IgnoreLeadingWhitespace => "WARNING",
            ToleranceLevel::IgnoreAllWhitespace => "WARNING",
        }
    }

    /// Gets the score multiplier for this tolerance level, in half points
    pub fn score_multiplier(&self) -> (r: u64)
        ensures
            r == self.half_multiplier(),
    {
        match self {
            ToleranceLevel::Exact => 2,
            ToleranceLevel::IgnoreTrailingWhitespace => 3,
            ToleranceLevel::IgnoreLeadingWhitespace => 20,
            ToleranceLevel::IgnoreAllWhitespace => 100,
        }
    }

    /// Gets the user-facing warning message for this tolerance level
    pub fn warning_message(&self) -> (r: Option<&'static str>)
        ensures
            match self.warning_text() {
                Some(t) => r matches Some(s) && s@ == t,
                None => r is None,
            },
    {
        match self {
            ToleranceLevel::Exact => None,
            ToleranceLevel::IgnoreTrailingWhitespace => None,
            ToleranceLevel::IgnoreLeadingWhitespace => Some(
                "Warning: matching without considering indentation (leading spaces).",
            ),
            ToleranceLevel::IgnoreAllWhitespace => Some(
                "Warning: matching after removing all spaces in lines.",
            ),
        }
    }

    /// The default level is `Exact`.
    pub fn default_level() -> (r: Self)
        ensures
            r == ToleranceLevel::Exact,
    {
        ToleranceLevel::Exact
    }
}

/// The order in which tolerance levels are tried.
pub open spec fn level_at(k: int) -> ToleranceLevel {
    if k == 0 {
        ToleranceLevel::Exact
    } else if k == 1 {
        ToleranceLevel::IgnoreTrailingWhitespace
    } else if k == 2 {
        ToleranceLevel::IgnoreLeadingWhitespace
    } else {
        ToleranceLevel::IgnoreAllWhitespace
    }
}

fn level_exec(k: usize) -> (l: ToleranceLevel)
    ensures
        l == level_at(k as int),
{
    if k == 0 {
        ToleranceLevel::Exact
    } else if k == 1 {
        ToleranceLevel::IgnoreTrailingWhitespace
    } else if k == 2 {
        ToleranceLevel::IgnoreLeadingWhitespace
    } else {
        ToleranceLevel::IgnoreAllWhitespace
    }
}

/// Tolerance hit for tracking which tolerances were applied
#[derive(Debug, Clone, Copy)]
pub struct ToleranceHit {
    pub level: ToleranceLevel,
    pub count: usize,
}

/// Match result with tolerance information
#[derive(Debug, Clone, Copy)]
pub struct MatchResult {
    /// Matched lines, `range_start..range_end`
    pub range_start: usize,
    pub range_end: usize,
    /// The tolerance applied
    pub tolerance: ToleranceHit,
    /// Score in half points (lower is better): the level's multiplier times
    /// the number of lines that differ from the search lines
    pub score: u64,
}

// ---------------------------------------------------------------------------
// Marker grammar
// ---------------------------------------------------------------------------

pub open spec fn w_search() -> Seq<char> {
    seq!['S', 'E', 'A', 'R', 'C', 'H']
}

pub open spec fn w_replace() -> Seq<char> {
    seq!['R', 'E', 'P', 'L', 'A', 'C', 'E']
}

/// `^<<<<<<+\s*SEARCH\s*$`
pub open spec fn is_search_marker(l: Seq<char>) -> bool {
    is_marker(l, '<', 6, w_search())
}

/// `^======*\s*$`
pub open spec fn is_divider_marker(l: Seq<char>) -> bool {
    is_marker(l, '=', 5, seq![])
}

/// `^>>>>>>+\s*REPLACE\s*$`
pub open spec fn is_replace_marker(l: Seq<char>) -> bool {
    is_marker(l, '>', 6, w_replace())
}

/// `^<<<+\s*$`
pub open spec fn is_simple_start(l: Seq<char>) -> bool {
    is_marker(l, '<', 3, seq![])
}

/// `^>>>+\s*$`
pub open spec fn is_simple_end(l: Seq<char>) -> bool {
    is_marker(l, '>', 3, seq![])
}

/// `` ^```+\s*$ ``
pub open spec fn is_fence(l: Seq<char>) -> bool {
    is_marker(l, '`', 3, seq![])
}

fn search_marker(l: &[char]) -> (b: bool)
    ensures
        b == is_search_marker(l@),
{
    let w = vec!['S', 'E', 'A', 'R', 'C', 'H'];
    proof {
        assert(w@ =~= w_search());
    }
    marker_match(l, '<', 6, w.as_slice())
}

fn replace_marker(l: &[char]) -> (b: bool)
    ensures
        b == is_replace_marker(l@),
{
    let w = vec!['R', 'E', 'P', 'L', 'A', 'C', 'E'];
    proof {
        assert(w@ =~= w_replace());
    }
    marker_match(l, '>', 6, w.as_slice())
}

fn bare_marker(l: &[char], c: char, min: usize) -> (b: bool)
    ensures
        b == is_marker(l@, c, min as nat, seq![]),
{
    let w: Vec<char> = Vec::new();
    proof {
        assert(w@ =~= Seq::<char>::empty());
    }
    marker_match(l, c, min, w.as_slice())
}

fn divider_marker(l: &[char]) -> (b: bool)
    ensures
        b == is_divider_marker(l@),
{
    bare_marker(l, '=', 5)
}

fn simple_start(l: &[char]) -> (b: bool)
    ensures
        b == is_simple_start(l@),
{
    bare_marker(l, '<', 3)
}

fn simple_end(l: &[char]) -> (b: bool)
    ensures
        b == is_simple_end(l@),
{
    bare_marker(l, '>', 3)
}

fn fence(l: &[char]) -> (b: bool)
    ensures
        b == is_fence(l@),
{
    bare_marker(l, '`', 3)
}

pub open spec fn char_lines(ls: Seq<Vec<char>>) -> Seq<Seq<char>> {
    ls.map_values(|l: Vec<char>| l@)
}

fn push_line(v: &mut Vec<String>, line: &[char])
    ensures
        final(v).deep_view() == old(v).deep_view().push(line@),
{
    let s = from_chars(line);
    v.push(s);
    proof {
        assert(v.deep_view() =~= old(v).deep_view().push(line@));
    }
}

/// Owned copies of the lines `ls[from..to]`.
fn lines_to_strings(ls: &Vec<Vec<char>>, from: usize, to: usize) -> (out: Vec<String>)
    requires
        from <= to <= ls.len(),
    ensures
        out.deep_view() == char_lines(ls@).subrange(from as int, to as int),
{
    let mut out: Vec<String> = Vec::new();
    let mut i = from;
    while i < to
        invariant
            from <= i <= to,
            to <= ls.len(),
            out.deep_view() =~= char_lines(ls@).subrange(from as int, i as int),
        decreases to - i,
    {
        push_line(&mut out, ls[i].as_slice());
        i += 1;
    }
    out
}

// ---------------------------------------------------------------------------
// `# occurrence: N`
// ---------------------------------------------------------------------------

pub open spec fn occ_prefix() -> Seq<char> {
    "# occurrence:"@
}

pub open spec fn is_digit(c: char) -> bool {
    '0' <= c && c <= '9'
}

/// Value of a string of decimal digits.
pub open spec fn digits_value(s: Seq<char>) -> nat
    decreases s.len(),
{
    if s.len() == 0 {
        0
    } else {
        digits_value(s.drop_last()) * 10 + ((s.last() as u32) - ('0' as u32)) as nat
    }
}

/// The text without one leading `+`.
pub open spec fn sign_stripped(s: Seq<char>) -> Seq<char> {
    if s.len() > 0 && s[0] == '+' {
        s.drop_first()
    } else {
        s
    }
}

/// `str::parse::<usize>`: an optional `+`, then one or more digits, with a
/// value that fits in `usize`.
pub open spec fn parse_usize(s: Seq<char>) -> Option<nat> {
    let d = sign_stripped(s);
    if d.len() > 0 && (forall|i: int| 0 <= i < d.len() ==> is_digit(#[trigger] d[i]))
        && digits_value(d) <= usize::MAX {
        Some(digits_value(d))
    } else {
        None
    }
}

pub open spec fn count_colons(s: Seq<char>) -> nat
    decreases s.len(),
{
    if s.len() == 0 {
        0
    } else {
        count_colons(s.drop_last()) + if s.last() == ':' {
            1nat
        } else {
            0nat
        }
    }
}

/// The text after the first `':'`.
pub open spec fn after_colon(s: Seq<char>) -> Seq<char>
    decreases s.len(),
{
    if s.len() == 0 {
        s
    } else if s[0] == ':' {
        s.drop_first()
    } else {
        after_colon(s.drop_first())
    }
}

/// The occurrence index a `# occurrence:` line gives: the line must hold a
/// single `':'`, and the trimmed text after it must parse as a `usize`.
pub open spec fn occ_value(l: Seq<char>) -> Option<nat> {
    if count_colons(l) == 1 {
        parse_usize(trim(after_colon(l)))
    } else {
        None
    }
}

pub open spec fn is_occ_line(l: Seq<char>) -> bool {
    starts_with(trim(l), occ_prefix())
}

proof fn lemma_digits_value_monotone(s: Seq<char>, k: int)
    requires
        0 <= k <= s.len(),
        forall|i: int| 0 <= i < s.len() ==> is_digit(#[trigger] s[i]),
    ensures
        digits_value(s.take(k)) <= digits_value(s),
    decreases s.len() - k,
{
    if k < s.len() {
        assert(s.drop_last().take(k) =~= s.take(k));
        lemma_digits_value_monotone(s.drop_last(), k);
    } else {
        assert(s.take(k) =~= s);
    }
}

fn parse_usize_exec(s: &[char]) -> (r: Option<usize>)
    ensures
        match parse_usize(s@) {
            Some(n) => r == Some(n as usize),
            None => r is None,
        },
{
    let start: usize = if s.len() > 0 && s[0] == '+' {
        1
    } else {
        0
    };
    let d = slice_chars(s, start, s.len());
    proof {
        if s@.len() > 0 && s@[0] == '+' {
            assert(d@ =~= s@.drop_first());
        } else {
            assert(d@ =~= s@);
        }
    }
    if d.len() == 0 {
        return None;
    }
    let mut i: usize = 0;
    while i < d.len()
        invariant
            i <= d.len(),
            d@ == sign_stripped(s@),
            forall|k: int| 0 <= k < i ==> is_digit(#[trigger] d@[k]),
        decreases d.len() - i,
    {
        if !('0' <= d[i] && d[i] <= '9') {
            proof {
                assert(!is_digit(d@[i as int]));
            }
            return None;
        }
        i += 1;
    }
    let mut v: usize = 0;
    let mut j: usize = 0;
    while j < d.len()
        invariant
            j <= d.len(),
            d@ == sign_stripped(s@),
            d@.len() > 0,
            forall|k: int| 0 <= k < d@.len() ==> is_digit(#[trigger] d@[k]),
            v == digits_value(d@.take(j as int)),
        decreases d.len() - j,
    {
        proof {
            assert(d@.take(j + 1).drop_last() =~= d@.take(j as int));
            assert(is_digit(d@[j as int]));
        }
        let dig = (d[j] as u32 - '0' as u32) as usize;
        proof {
            assert(d@.take(j + 1).last() == d@[j as int]);
            assert(digits_value(d@.take(j + 1)) == v * 10 + dig);
        }
        if v > (usize::MAX - dig) / 10 {
            proof {
                lemma_digits_value_monotone(d@, j + 1);
                assert(v * 10 + dig > usize::MAX) by (nonlinear_arith)
                    requires
                        v > (usize::MAX - dig) / 10,
                        dig <= 9,
                ;
            }
            return None;
        }
        proof {
            assert(v * 10 + dig <= usize::MAX) by (nonlinear_arith)
                requires
                    v <= (usize::MAX - dig) / 10,
                    dig <= 9,
            ;
        }
        v = v * 10 + dig;
        j += 1;
    }
    proof {
        assert(d@.take(d.len() as int) =~= d@);
    }
    Some(v)
}

fn occ_value_exec(l: &[char]) -> (r: Option<usize>)
    ensures
        match occ_value(l@) {
            Some(n) => r == Some(n as usize),
            None => r is None,
        },
{
    let mut colons: usize = 0;
    let mut first: usize = l.len();
    let mut i: usize = 0;
    proof {
        assert(l@.skip(0) =~= l@);
    }
    while i < l.len()
        invariant
            i <= l.len(),
            colons == count_colons(l@.take(i as int)),
            colons <= i,
            first <= l.len(),
            colons == 0 ==> first == l.len(),
            colons > 0 ==> first < i && l@[first as int] == ':' && after_colon(l@) == l@.skip(
                first + 1,
            ),
            colons == 0 ==> after_colon(l@) == after_colon(l@.skip(i as int)),
        decreases l.len() - i,
    {
        proof {
            assert(l@.take(i + 1).drop_last() =~= l@.take(i as int));
            if colons == 0 {
                let t = l@.skip(i as int);
                assert(t.drop_first() =~= l@.skip(i + 1));
                if l@[i as int] == ':' {
                    assert(after_colon(t) == t.drop_first());
                }
            }
        }
        if l[i] == ':' {
            if colons == 0 {
                first = i;
            }
            colons += 1;
        }
        i += 1;
    }
    proof {
        assert(l@.take(l.len() as int) =~= l@);
    }
    if colons != 1 {
        return None;
    }
    let rest = slice_chars(l, first + 1, l.len());
    proof {
        assert(rest@ =~= l@.skip(first + 1));
    }
    let t = trim_chars(rest.as_slice());
    parse_usize_exec(t.as_slice())
}

// ---------------------------------------------------------------------------
// Standard format
// ---------------------------------------------------------------------------

/// First index `>= j` holding a SEARCH, divider or REPLACE marker, or the
/// number of lines.
pub open spec fn next_std_marker(ls: Seq<Seq<char>>, j: int) -> int
    decreases ls.len() - j,
{
    if j < 0 || j >= ls.len() {
        ls.len() as int
    } else if is_search_marker(ls[j]) || is_divider_marker(ls[j]) || is_replace_marker(ls[j]) {
        j
    } else {
        next_std_marker(ls, j + 1)
    }
}

pub proof fn lemma_next_std_marker(ls: Seq<Seq<char>>, j: int)
    requires
        0 <= j,
    ensures
        j <= next_std_marker(ls, j) || j > ls.len(),
        next_std_marker(ls, j) <= ls.len(),
        next_std_marker(ls, j) < ls.len() ==> (is_search_marker(ls[next_std_marker(ls, j)])
            || is_divider_marker(ls[next_std_marker(ls, j)]) || is_replace_marker(
            ls[next_std_marker(ls, j)],
        )),
    decreases ls.len() - j,
{
    if j < ls.len() && !(is_search_marker(ls[j]) || is_divider_marker(ls[j]) || is_replace_marker(
        ls[j],
    )) {
        lemma_next_std_marker(ls, j + 1);
    }
}

pub open spec fn prepend_blocks(b: Seq<FileBlockView>, r: Option<Option<Seq<FileBlockView>>>) -> Option<
    Option<Seq<FileBlockView>>,
> {
    match r {
        Some(Some(x)) => Some(Some(b + x)),
        other => other,
    }
}

/// Blocks in the standard format from line `i` on: `Some(Some(blocks))`;
/// `Some(None)` when the text is malformed (the format then yields nothing);
/// `None` where the parser would index past the last line (a final
/// `# occurrence:` line).
pub open spec fn std_scan(ls: Seq<Seq<char>>, i: int) -> Option<Option<Seq<FileBlockView>>>
    decreases ls.len() - i,
{
    if i < 0 || i >= ls.len() {
        Some(Some(seq![]))
    } else {
        let occ = if is_occ_line(ls[i]) {
            occ_value(ls[i])
        } else {
            None
        };
        let j = if is_occ_line(ls[i]) {
            i + 1
        } else {
            i
        };
        if j < ls.len() && is_search_marker(ls[j]) {
            let d = next_std_marker(ls, j + 1);
            if d >= ls.len() || !is_divider_marker(ls[d]) {
                Some(None)
            } else {
                let r = next_std_marker(ls, d + 1);
                if r >= ls.len() || !is_replace_marker(ls[r]) {
                    Some(None)
                } else {
                    proof {
                        lemma_next_std_marker(ls, j + 1);
                        lemma_next_std_marker(ls, d + 1);
                    }
                    prepend_blocks(
                        seq![(ls.subrange(j + 1, d), ls.subrange(d + 1, r), occ)],
                        std_scan(ls, r + 1),
                    )
                }
            }
        } else if j >= ls.len() {
            None
        } else if starts_with(trim(ls[j]), seq!['#']) {
            std_scan(ls, j + 1)
        } else if is_replace_marker(ls[j]) || is_divider_marker(ls[j]) {
            Some(None)
        } else {
            std_scan(ls, j + 1)
        }
    }
}

/// The blocks the standard format yields (empty when malformed).
pub open spec fn std_blocks(ls: Seq<Seq<char>>) -> Seq<FileBlockView> {
    match std_scan(ls, 0) {
        Some(Some(b)) => b,
        _ => seq![],
    }
}

fn next_std_marker_exec(ls: &Vec<Vec<char>>, j: usize) -> (k: usize)
    ensures
        k as int == next_std_marker(char_lines(ls@), j as int),
        j <= k || j > ls.len(),
        k <= ls.len(),
{
    let ghost lv = char_lines(ls@);
    if j > ls.len() {
        return ls.len();
    }
    let mut k = j;
    while k < ls.len() && !(search_marker(ls[k].as_slice()) || divider_marker(ls[k].as_slice())
        || replace_marker(ls[k].as_slice()))
        invariant
            j <= k <= ls.len(),
            lv == char_lines(ls@),
            next_std_marker(lv, j as int) == next_std_marker(lv, k as int),
        decreases ls.len() - k,
    {
        proof {
            assert(lv[k as int] == ls@[k as int]@);
        }
        k += 1;
    }
    proof {
        if k < ls.len() {
            assert(lv[k as int] == ls@[k as int]@);
        }
    }
    k
}

fn is_occ_line_exec(l: &[char]) -> (b: bool)
    ensures
        b == is_occ_line(l@),
{
    let t = trim_chars(l);
    let p = to_chars("# occurrence:");
    starts_with_chars(t.as_slice(), p.as_slice())
}

/// Parses blocks using the standard format with explicit SEARCH/REPLACE markers
fn parse_standard_format(ls: &Vec<Vec<char>>) -> (r: Vec<SearchReplaceBlock>)
    requires
        std_scan(char_lines(ls@), 0) is Some,
    ensures
        fblocks_view(r@) == std_blocks(char_lines(ls@)),
{
    let ghost lv = char_lines(ls@);
    let n = ls.len();
    let mut blocks: Vec<SearchReplaceBlock> = Vec::new();
    let mut i: usize = 0;
    let hash = vec!['#'];
    proof {
        assert(hash@ =~= seq!['#']);
        match std_scan(lv, 0) {
            Some(Some(x)) => {
                assert(fblocks_view(blocks@) + x =~= x);
            },
            _ => {},
        }
    }
    while i < n
        invariant
            n == ls.len(),
            i <= n,
            lv == char_lines(ls@),
            lv.len() == n,
            hash@ == seq!['#'],
            std_scan(lv, 0) == prepend_blocks(fblocks_view(blocks@), std_scan(lv, i as int)),
            std_scan(lv, 0) is Some,
        decreases n - i,
    {
        let mut j = i;
        proof {
            assert(lv[i as int] == ls@[i as int]@);
        }
        let mut occ: Option<usize> = None;
        if is_occ_line_exec(ls[i].as_slice()) {
            occ = occ_value_exec(ls[i].as_slice());
            j = i + 1;
        }
        proof {
            if j < n {
                assert(lv[j as int] == ls@[j as int]@);
            }
        }
        if j < n && search_marker(ls[j].as_slice()) {
            let d = next_std_marker_exec(ls, j + 1);
            proof {
                if d < n {
                    assert(lv[d as int] == ls@[d as int]@);
                }
            }
            if d >= n || !divider_marker(ls[d].as_slice()) {
                return Vec::new();
            }
            let r = next_std_marker_exec(ls, d + 1);
            proof {
                if r < n {
                    assert(lv[r as int] == ls@[r as int]@);
                }
            }
            if r >= n || !replace_marker(ls[r].as_slice()) {
                return Vec::new();
            }
            let search_lines = lines_to_strings(ls, j + 1, d);
            let replace_lines = lines_to_strings(ls, d + 1, r);
            let block = SearchReplaceBlock { search_lines, replace_lines, occurrence_index: occ };
            let ghost prev = fblocks_view(blocks@);
            blocks.push(block);
            proof {
                assert(fblocks_view(blocks@) =~= prev.push(block@));
                let bv = seq![(lv.subrange(j + 1, d as int), lv.subrange(d + 1, r as int), block@.2)];
                assert(block@ == bv[0]);
                assert(std_scan(lv, i as int) == prepend_blocks(bv, std_scan(lv, r + 1)));
                match std_scan(lv, r + 1) {
                    Some(Some(x)) => {
                        assert(prev + (bv + x) =~= prev.push(block@) + x);
                    },
                    _ => {},
                }
            }
            i = r + 1;
        } else {
            if j >= n {
                proof {
                    assert(std_scan(lv, i as int) is None);
                    assert(false);
                }
                return Vec::new();
            }
            let t = trim_chars(ls[j].as_slice());
            if starts_with_chars(t.as_slice(), hash.as_slice()) {
                i = j + 1;
            } else if replace_marker(ls[j].as_slice()) || divider_marker(ls[j].as_slice()) {
                return Vec::new();
            } else {
                i = j + 1;
            }
        }
    }
    proof {
        assert(fblocks_view(blocks@) + Seq::<FileBlockView>::empty() =~= fblocks_view(blocks@));
    }
    blocks
}

// ---------------------------------------------------------------------------
// Simple format: `<<<` search `>>>` `<<<` replace `>>>`
// ---------------------------------------------------------------------------

pub open spec fn is_simple(l: Seq<char>) -> bool {
    is_simple_start(l) || is_simple_end(l)
}

/// Indices `< k` of the lines that are `<<<` or `>>>` markers, in order.
pub open spec fn simple_marks(ls: Seq<Seq<char>>, k: int) -> Seq<int>
    decreases k,
{
    if k <= 0 || k > ls.len() {
        seq![]
    } else {
        simple_marks(ls, k - 1) + if is_simple(ls[k - 1]) {
            seq![k - 1]
        } else {
            seq![]
        }
    }
}

/// Markers alternate: `<<<` at even positions, `>>>` at odd ones.
pub open spec fn marks_alternate(ls: Seq<Seq<char>>, m: Seq<int>) -> bool {
    forall|t: int|
        0 <= t < m.len() ==> (t % 2 == 0 ==> is_simple_start(ls[#[trigger] m[t]])) && (t % 2 == 1
            ==> is_simple_end(ls[m[t]]))
}

/// Blocks of the simple format: each four markers give one block; none when
/// the markers are odd in number or do not alternate.
pub open spec fn simple_blocks(ls: Seq<Seq<char>>) -> Seq<FileBlockView> {
    let m = simple_marks(ls, ls.len() as int);
    if m.len() % 2 != 0 || !marks_alternate(ls, m) {
        seq![]
    } else {
        Seq::new(
            m.len() / 4,
            |g: int|
                (
                    ls.subrange(m[4 * g] + 1, m[4 * g + 1]),
                    ls.subrange(m[4 * g + 2] + 1, m[4 * g + 3]),
                    None,
                ),
        )
    }
}

proof fn lemma_simple_marks(ls: Seq<Seq<char>>, k: int)
    requires
        0 <= k <= ls.len(),
    ensures
        forall|t: int| 0 <= t < simple_marks(ls, k).len() ==> 0 <= #[trigger] simple_marks(ls, k)[t] < k,
        forall|t: int, u: int|
            0 <= t < u < simple_marks(ls, k).len() ==> simple_marks(ls, k)[t] < simple_marks(ls, k)[u],
        simple_marks(ls, k).len() <= k,
    decreases k,
{
    if k > 0 {
        lemma_simple_marks(ls, k - 1);
    }
}

fn parse_simple_format(ls: &Vec<Vec<char>>) -> (r: Vec<SearchReplaceBlock>)
    ensures
        fblocks_view(r@) == simple_blocks(char_lines(ls@)),
{
    let ghost lv = char_lines(ls@);
    let mut marks: Vec<usize> = Vec::new();
    let mut i: usize = 0;
    while i < ls.len()
        invariant
            i <= ls.len(),
            lv == char_lines(ls@),
            marks@.map_values(|x: usize| x as int) == simple_marks(lv, i as int),
        decreases ls.len() - i,
    {
        proof {
            assert(lv[i as int] == ls@[i as int]@);
        }
        if simple_start(ls[i].as_slice()) || simple_end(ls[i].as_slice()) {
            let ghost prev = marks@.map_values(|x: usize| x as int);
            marks.push(i);
            proof {
                assert(marks@.map_values(|x: usize| x as int) =~= prev + seq![i as int]);
            }
        } else {
            proof {
                assert(simple_marks(lv, i + 1) =~= simple_marks(lv, i as int));
            }
        }
        i += 1;
    }
    let ghost m = simple_marks(lv, lv.len() as int);
    proof {
        lemma_simple_marks(lv, lv.len() as int);
        assert forall|t: int| 0 <= t < marks.len() implies marks@[t] as int == m[t] by {
            assert(marks@.map_values(|x: usize| x as int)[t] == marks@[t] as int);
        }
    }
    if marks.len() % 2 != 0 {
        return Vec::new();
    }
    let mut t: usize = 0;
    while t < marks.len()
        invariant
            t <= marks.len(),
            marks.len() == m.len(),
            lv == char_lines(ls@),
            lv.len() == ls.len(),
            m == simple_marks(lv, lv.len() as int),
            forall|u: int| 0 <= u < marks.len() ==> marks@[u] as int == m[u],
            forall|u: int| 0 <= u < m.len() ==> 0 <= #[trigger] m[u] < lv.len(),
            forall|u: int|
                0 <= u < t ==> (u % 2 == 0 ==> is_simple_start(lv[#[trigger] m[u]])) && (u % 2 == 1
                    ==> is_simple_end(lv[m[u]])),
        decreases marks.len() - t,
    {
        proof {
            assert(marks@[t as int] as int == m[t as int]);
            assert(0 <= m[t as int] < lv.len());
        }
        let line = &ls[marks[t]];
        proof {
            assert(lv[m[t as int]] == ls@[marks@[t as int] as int]@);
        }
        let ok = if t % 2 == 0 {
            simple_start(line.as_slice())
        } else {
            simple_end(line.as_slice())
        };
        if !ok {
            proof {
                assert(!marks_alternate(lv, m));
            }
            return Vec::new();
        }
        t += 1;
    }
    proof {
        assert(marks_alternate(lv, m));
    }
    let mut blocks: Vec<SearchReplaceBlock> = Vec::new();
    let mut g: usize = 0;
    while g + 3 < marks.len()
        invariant
            marks.len() == m.len(),
            m.len() % 2 == 0,
            lv == char_lines(ls@),
            g % 4 == 0,
            g <= marks.len(),
            lv.len() == ls.len(),
            forall|u: int| 0 <= u < marks.len() ==> marks@[u] as int == m[u],
            forall|u: int| 0 <= u < m.len() ==> 0 <= #[trigger] m[u] < lv.len(),
            forall|u: int, v: int| 0 <= u < v < m.len() ==> m[u] < m[v],
            fblocks_view(blocks@) =~= simple_blocks(lv).take(g as int / 4),
            simple_blocks(lv).len() == m.len() / 4,
            simple_blocks(lv) == Seq::new(
                m.len() / 4,
                |h: int|
                    (
                        lv.subrange(m[4 * h] + 1, m[4 * h + 1]),
                        lv.subrange(m[4 * h + 2] + 1, m[4 * h + 3]),
                        None::<nat>,
                    ),
            ),
        decreases marks.len() - g,
    {
        let a = marks[g];
        let b = marks[g + 1];
        let c = marks[g + 2];
        let d = marks[g + 3];
        proof {
            assert(m[g as int] < m[g + 1]);
            assert(m[g + 2] < m[g + 3]);
        }
        let search_lines = lines_to_strings(ls, a + 1, b);
        let replace_lines = lines_to_strings(ls, c + 1, d);
        let block = SearchReplaceBlock { search_lines, replace_lines, occurrence_index: None };
        let ghost prev = fblocks_view(blocks@);
        blocks.push(block);
        proof {
            let h = g as int / 4;
            assert(4 * h == g);
            assert(fblocks_view(blocks@) =~= prev.push(block@));
            assert(simple_blocks(lv)[h] == block@);
            assert(simple_blocks(lv).take(h + 1) =~= simple_blocks(lv).take(h).push(block@));
        }
        g += 4;
    }
    proof {
        assert(g as int / 4 == m.len() / 4);
        assert(simple_blocks(lv).take(g as int / 4) =~= simple_blocks(lv));
    }
    blocks
}

// ---------------------------------------------------------------------------
// Markdown format: two code fences, search then replace
// ---------------------------------------------------------------------------

/// First index `>= j` holding a fence, or the number of lines.
pub open spec fn next_fence(ls: Seq<Seq<char>>, j: int) -> int
    decreases ls.len() - j,
{
    if j < 0 || j >= ls.len() {
        ls.len() as int
    } else if is_fence(ls[j]) {
        j
    } else {
        next_fence(ls, j + 1)
    }
}

/// First index `>= j` holding a non-blank line, or the number of lines.
pub open spec fn next_nonblank(ls: Seq<Seq<char>>, j: int) -> int
    decreases ls.len() - j,
{
    if j < 0 || j >= ls.len() {
        ls.len() as int
    } else if !is_blank(ls[j]) {
        j
    } else {
        next_nonblank(ls, j + 1)
    }
}

pub proof fn lemma_next_fence(ls: Seq<Seq<char>>, j: int)
    requires
        0 <= j,
    ensures
        j <= next_fence(ls, j) || j > ls.len(),
        next_fence(ls, j) <= ls.len(),
    decreases ls.len() - j,
{
    if j < ls.len() && !is_fence(ls[j]) {
        lemma_next_fence(ls, j + 1);
    }
}

pub proof fn lemma_next_nonblank(ls: Seq<Seq<char>>, j: int)
    requires
        0 <= j,
    ensures
        j <= next_nonblank(ls, j) || j > ls.len(),
        next_nonblank(ls, j) <= ls.len(),
    decreases ls.len() - j,
{
    if j < ls.len() && is_blank(ls[j]) {
        lemma_next_nonblank(ls, j + 1);
    }
}

/// Blocks of the markdown format from line `i` on; `None` when malformed.
pub open spec fn md_scan(ls: Seq<Seq<char>>, i: int) -> Option<Seq<FileBlockView>>
    decreases ls.len() - i,
{
    if i < 0 || i >= ls.len() {
        Some(seq![])
    } else if is_fence(ls[i]) {
        let ss = i + 1;
        let se = next_fence(ls, ss);
        if se >= ls.len() || ss >= se {
            None
        } else {
            let k = next_nonblank(ls, se + 1);
            if k >= ls.len() || !is_fence(ls[k]) {
                None
            } else {
                let rs = k + 1;
                let re = next_fence(ls, rs);
                if re >= ls.len() || rs >= re {
                    None
                } else {
                    proof {
                        lemma_next_fence(ls, ss);
                        lemma_next_nonblank(ls, se + 1);
                        lemma_next_fence(ls, rs);
                    }
                    match md_scan(ls, re + 1) {
                        Some(x) => Some(
                            seq![(ls.subrange(ss, se), ls.subrange(rs, re), None)] + x,
                        ),
                        None => None,
                    }
                }
            }
        }
    } else {
        md_scan(ls, i + 1)
    }
}

pub open spec fn md_blocks(ls: Seq<Seq<char>>) -> Seq<FileBlockView> {
    match md_scan(ls, 0) {
        Some(b) => b,
        None => seq![],
    }
}

fn next_fence_exec(ls: &Vec<Vec<char>>, j: usize) -> (k: usize)
    ensures
        k as int == next_fence(char_lines(ls@), j as int),
        j <= k || j > ls.len(),
        k <= ls.len(),
{
    let ghost lv = char_lines(ls@);
    if j > ls.len() {
        return ls.len();
    }
    let mut k = j;
    while k < ls.len() && !fence(ls[k].as_slice())
        invariant
            j <= k <= ls.len(),
            lv == char_lines(ls@),
            next_fence(lv, j as int) == next_fence(lv, k as int),
        decreases ls.len() - k,
    {
        proof {
            assert(lv[k as int] == ls@[k as int]@);
        }
        k += 1;
    }
    proof {
        if k < ls.len() {
            assert(lv[k as int] == ls@[k as int]@);
        }
    }
    k
}

fn next_nonblank_exec(ls: &Vec<Vec<char>>, j: usize) -> (k: usize)
    ensures
        k as int == next_nonblank(char_lines(ls@), j as int),
        j <= k || j > ls.len(),
        k <= ls.len(),
{
    let ghost lv = char_lines(ls@);
    if j > ls.len() {
        return ls.len();
    }
    let mut k = j;
    while k < ls.len() && chars_blank(ls[k].as_slice())
        invariant
            j <= k <= ls.len(),
            lv == char_lines(ls@),
            next_nonblank(lv, j as int) == next_nonblank(lv, k as int),
        decreases ls.len() - k,
    {
        proof {
            assert(lv[k as int] == ls@[k as int]@);
        }
        k += 1;
    }
    proof {
        if k < ls.len() {
            assert(lv[k as int] == ls@[k as int]@);
        }
    }
    k
}

fn parse_markdown_format(ls: &Vec<Vec<char>>) -> (r: Vec<SearchReplaceBlock>)
    ensures
        fblocks_view(r@) == md_blocks(char_lines(ls@)),
{
    let ghost lv = char_lines(ls@);
    let n = ls.len();
    let mut blocks: Vec<SearchReplaceBlock> = Vec::new();
    let mut i: usize = 0;
    proof {
        match md_scan(lv, 0) {
            Some(x) => {
                assert(fblocks_view(blocks@) + x =~= x);
            },
            None => {},
        }
    }
    while i < n
        invariant
            n == ls.len(),
            i <= n,
            lv == char_lines(ls@),
            lv.len() == n,
            md_scan(lv, 0) == match md_scan(lv, i as int) {
                Some(x) => Some(fblocks_view(blocks@) + x),
                None => None,
            },
        decreases n - i,
    {
        proof {
            assert(lv[i as int] == ls@[i as int]@);
        }
        if fence(ls[i].as_slice()) {
            let ss = i + 1;
            let se = next_fence_exec(ls, ss);
            if se >= n || ss >= se {
                return Vec::new();
            }
            let k = next_nonblank_exec(ls, se + 1);
            proof {
                if k < n {
                    assert(lv[k as int] == ls@[k as int]@);
                }
            }
            if k >= n || !fence(ls[k].as_slice()) {
                return Vec::new();
            }
            let rs = k + 1;
            let re = next_fence_exec(ls, rs);
            if re >= n || rs >= re {
                return Vec::new();
            }
            let search_lines = lines_to_strings(ls, ss, se);
            let replace_lines = lines_to_strings(ls, rs, re);
            let block = SearchReplaceBlock { search_lines, replace_lines, occurrence_index: None };
            let ghost prev = fblocks_view(blocks@);
            blocks.push(block);
            proof {
                assert(fblocks_view(blocks@) =~= prev.push(block@));
                let bv = seq![(lv.subrange(ss as int, se as int), lv.subrange(rs as int, re as int), None::<nat>)];
                assert(block@ == bv[0]);
                match md_scan(lv, re + 1) {
                    Some(x) => {
                        assert(md_scan(lv, i as int) == Some(bv + x));
                        assert(prev + (bv + x) =~= prev.push(block@) + x);
                    },
                    None => {},
                }
            }
            i = re + 1;
        } else {
            i += 1;
        }
    }
    proof {
        assert(fblocks_view(blocks@) + Seq::<FileBlockView>::empty() =~= fblocks_view(blocks@));
    }
    blocks
}

// ---------------------------------------------------------------------------
// Parsing entry point
// ---------------------------------------------------------------------------

pub open spec fn help_text() -> Seq<char> {
    "\n\nPlease use one of these formats:\n\n\
     1. Standard format (recommended):\n\
     <<<<<<< SEARCH\n\
     search content\n\
     =======\n\
     replace content\n\
     >>>>>>> REPLACE\n\n\
     For specific occurrence (optional):\n\
     # occurrence: 0  // first occurrence\n\
     <<<<<<< SEARCH\n\
     search content\n\
     =======\n\
     replace content\n\
     >>>>>>> REPLACE\n\n\
     2. Simple format:\n\
     <<<\n\
     search content\n\
     >>>\n\
     replace content\n\n\
     3. Markdown code blocks format:\n\
     ```\n\
     search content\n\
     ```\n\n\
     ```\n\
     replace content\n\
     ```\n\n\
     Common mistakes to avoid:\n\
     - Using ORIGINAL instead of SEARCH\n\
     - Using UPDATED instead of REPLACE\n\
     - Missing the divider (=======)\n\
     - Not including enough context to make the match unique"@
}

fn help_str() -> (r: &'static str)
    ensures
        r@ == help_text(),
{
    "\n\nPlease use one of these formats:\n\n\
     1. Standard format (recommended):\n\
     <<<<<<< SEARCH\n\
     search content\n\
     =======\n\
     replace content\n\
     >>>>>>> REPLACE\n\n\
     For specific occurrence (optional):\n\
     # occurrence: 0  // first occurrence\n\
     <<<<<<< SEARCH\n\
     search content\n\
     =======\n\
     replace content\n\
     >>>>>>> REPLACE\n\n\
     2. Simple format:\n\
     <<<\n\
     search content\n\
     >>>\n\
     replace content\n\n\
     3. Markdown code blocks format:\n\
     ```\n\
     search content\n\
     ```\n\n\
     ```\n\
     replace content\n\
     ```\n\n\
     Common mistakes to avoid:\n\
     - Using ORIGINAL instead of SEARCH\n\
     - Using UPDATED instead of REPLACE\n\
     - Missing the divider (=======)\n\
     - Not including enough context to make the match unique"
}

pub open spec fn generic_text() -> Seq<char> {
    "No valid search replace blocks found. Please use one of these formats:\n\n\
     1. Standard format (recommended):\n\
     <<<<<<< SEARCH\n\
     search content\n\
     =======\n\
     replace content\n\
     >>>>>>> REPLACE\n\n\
     2. Simple format:\n\
     <<<\n\
     search content\n\
     >>>\n\
     replace content\n\n\
     3. Markdown code blocks format:\n\
     ```\n\
     search content\n\
     ```\n\n\
     ```\n\
     replace content\n\
     ```\n"@
}

fn generic_str() -> (r: &'static str)
    ensures
        r@ == generic_text(),
{
    "No valid search replace blocks found. Please use one of these formats:\n\n\
     1. Standard format (recommended):\n\
     <<<<<<< SEARCH\n\
     search content\n\
     =======\n\
     replace content\n\
     >>>>>>> REPLACE\n\n\
     2. Simple format:\n\
     <<<\n\
     search content\n\
     >>>\n\
     replace content\n\n\
     3. Markdown code blocks format:\n\
     ```\n\
     search content\n\
     ```\n\n\
     ```\n\
     replace content\n\
     ```\n"
}

pub open spec fn original_marker_text() -> Seq<char> {
    "<<<<<<< ORIGINAL"@
}

pub open spec fn updated_marker_text() -> Seq<char> {
    ">>>>>>> UPDATED"@
}

pub open spec fn original_mistake() -> Seq<char> {
    "Syntax error: Found '<<<<<<< ORIGINAL' which is incorrect. Use '<<<<<<< SEARCH' instead."@
}

pub open spec fn updated_mistake() -> Seq<char> {
    "Syntax error: Found '>>>>>>> UPDATED' which is incorrect. Use '>>>>>>> REPLACE' instead."@
}

/// The parser does not index past the last line: no final `# occurrence:`
/// line is reached while scanning the marker format.
pub open spec fn parse_defined(input: Seq<char>) -> bool {
    std_scan(lines(input), 0) is Some
}

/// What `parse_search_replace_blocks` gives: the first of the standard, simple
/// and markdown formats that yields blocks, else the syntax error's message.
pub open spec fn parse_file_blocks_spec(input: Seq<char>) -> Result<Seq<FileBlockView>, Seq<char>> {
    let ls = lines(input);
    if std_blocks(ls).len() > 0 {
        Ok(std_blocks(ls))
    } else if simple_blocks(ls).len() > 0 {
        Ok(simple_blocks(ls))
    } else if md_blocks(ls).len() > 0 {
        Ok(md_blocks(ls))
    } else {
        let joined = join(ls, nl());
        if contains(joined, original_marker_text()) || contains(joined, updated_marker_text()) {
            Err(
                (if contains(joined, original_marker_text()) {
                    original_mistake()
                } else {
                    updated_mistake()
                }) + help_text(),
            )
        } else {
            Err(generic_text())
        }
    }
}

fn join_char_lines(ls: &Vec<Vec<char>>) -> (r: Vec<char>)
    ensures
        r@ == join(char_lines(ls@), nl()),
{
    let ghost ps = char_lines(ls@);
    let mut r: Vec<char> = Vec::new();
    let mut i: usize = 0;
    while i < ls.len()
        invariant
            i <= ls.len(),
            ps == char_lines(ls@),
            r@ == join(ps.take(i as int), nl()),
        decreases ls.len() - i,
    {
        proof {
            assert(ps.take(i + 1).drop_last() =~= ps.take(i as int));
            assert(ps[i as int] == ls@[i as int]@);
        }
        if i > 0 {
            r.push('\n');
            proof {
                assert(r@ =~= join(ps.take(i as int), nl()) + nl());
            }
        }
        push_chars(&mut r, ls[i].as_slice());
        i += 1;
        proof {
            if i == 1 {
                assert(r@ =~= ps.take(1)[0]);
            }
        }
    }
    proof {
        assert(ps.take(ls.len() as int) =~= ps);
    }
    r
}

/// Parses search/replace blocks from input text, supporting multiple syntax formats
pub fn parse_search_replace_blocks(input: &str) -> (r: Result<
    Vec<SearchReplaceBlock>,
    SearchReplaceError,
>)
    requires
        parse_defined(input@),
    ensures
        match parse_file_blocks_spec(input@) {
            Ok(bs) => r matches Ok(v) && fblocks_view(v@) == bs,
            Err(m) => r matches Err(SearchReplaceError::SyntaxError(s)) && s@ == m,
        },
{
    let tv = to_chars(input);
    let ls = split_lines_chars(tv.as_slice());
    let standard = parse_standard_format(&ls);
    if standard.len() > 0 {
        return Ok(standard);
    }
    let simple = parse_simple_format(&ls);
    if simple.len() > 0 {
        return Ok(simple);
    }
    let markdown = parse_markdown_format(&ls);
    if markdown.len() > 0 {
        return Ok(markdown);
    }
    let joined = join_char_lines(&ls);
    let orig = to_chars("<<<<<<< ORIGINAL");
    let upd = to_chars(">>>>>>> UPDATED");
    let has_orig = contains_chars(joined.as_slice(), orig.as_slice());
    let has_upd = contains_chars(joined.as_slice(), upd.as_slice());
    let mut m: Vec<char> = Vec::new();
    if has_orig || has_upd {
        if has_orig {
            push_str(
                &mut m,
                "Syntax error: Found '<<<<<<< ORIGINAL' which is incorrect. Use '<<<<<<< SEARCH' instead.",
            );
        } else {
            push_str(
                &mut m,
                "Syntax error: Found '>>>>>>> UPDATED' which is incorrect. Use '>>>>>>> REPLACE' instead.",
            );
        }
        push_str(&mut m, help_str());
    } else {
        push_str(&mut m, generic_str());
    }
    Err(SearchReplaceError::SyntaxError(from_chars(m.as_slice())))
}

// ---------------------------------------------------------------------------
// Detecting edit blocks
// ---------------------------------------------------------------------------

pub open spec fn count_fences(ls: Seq<Seq<char>>) -> nat
    decreases ls.len(),
{
    if ls.len() == 0 {
        0
    } else {
        count_fences(ls.drop_last()) + if is_fence(ls.last()) {
            1nat
        } else {
            0nat
        }
    }
}

pub open spec fn opens_block(l: Seq<char>) -> bool {
    is_search_marker(l) || is_simple_start(l) || is_fence(l)
}

pub open spec fn any_block_marker(l: Seq<char>) -> bool {
    is_search_marker(l) || is_divider_marker(l) || is_replace_marker(l) || is_simple_start(l)
        || is_simple_end(l)
}

/// Whether content is meant as edit blocks rather than a whole file: one of its
/// first ten lines opens a block, or, when at most half the file is to change,
/// it holds at least four code fences in an even number, or any block marker.
pub open spec fn is_search_replace_spec(content: Seq<char>, percentage_to_change: int) -> bool {
    let ls = lines(content);
    ||| exists|i: int| 0 <= i < ls.len() && i < 10 && opens_block(#[trigger] ls[i])
    ||| percentage_to_change <= 50 && ((count_fences(ls) >= 4 && count_fences(ls) % 2 == 0)
        || exists|i: int| 0 <= i < ls.len() && any_block_marker(#[trigger] ls[i]))
}

/// Lowering the share of the file to change never turns detection off, and
/// a search marker on one of the first ten lines is detected whatever the
/// share.
pub proof fn law_detection_monotone_in_percentage(content: Seq<char>, p1: int, p2: int, i: int)
    requires
        p2 <= p1,
    ensures
        is_search_replace_spec(content, p1) ==> is_search_replace_spec(content, p2),
        (0 <= i < lines(content).len() && i < 10 && is_search_marker(lines(content)[i]))
            ==> is_search_replace_spec(content, p1),
{
}

/// Determines if content is a search/replace block based on markers and structure
pub fn is_search_replace_content(content: &str, percentage_to_change: i32) -> (b: bool)
    ensures
        b == is_search_replace_spec(content@, percentage_to_change as int),
{
    let tv = to_chars(content);
    let ls = split_lines_chars(tv.as_slice());
    let ghost lv = char_lines(ls@);
    let mut i: usize = 0;
    while i < ls.len() && i < 10
        invariant
            i <= ls.len(),
            lv == char_lines(ls@),
            lv == lines(content@),
            forall|k: int| 0 <= k < i ==> !opens_block(#[trigger] lv[k]),
        decreases ls.len() - i,
    {
        proof {
            assert(lv[i as int] == ls@[i as int]@);
        }
        if search_marker(ls[i].as_slice()) || simple_start(ls[i].as_slice()) || fence(
            ls[i].as_slice(),
        ) {
            return true;
        }
        i += 1;
    }
    if percentage_to_change <= 50 {
        let mut count: usize = 0;
        let mut j: usize = 0;
        while j < ls.len()
            invariant
                j <= ls.len(),
                lv == char_lines(ls@),
                count == count_fences(lv.take(j as int)),
                count <= j,
            decreases ls.len() - j,
        {
            proof {
                assert(lv.take(j + 1).drop_last() =~= lv.take(j as int));
                assert(lv[j as int] == ls@[j as int]@);
            }
            if fence(ls[j].as_slice()) {
                count += 1;
            }
            j += 1;
        }
        proof {
            assert(lv.take(ls.len() as int) =~= lv);
        }
        if count >= 4 && count % 2 == 0 {
            return true;
        }
        let mut k: usize = 0;
        while k < ls.len()
            invariant
                k <= ls.len(),
                lv == char_lines(ls@),
                lv == lines(content@),
                percentage_to_change <= 50,
                forall|q: int| 0 <= q < k ==> !any_block_marker(#[trigger] lv[q]),
            decreases ls.len() - k,
        {
            proof {
                assert(lv[k as int] == ls@[k as int]@);
            }
            let l = ls[k].as_slice();
            if search_marker(l) || divider_marker(l) || replace_marker(l) || simple_start(l)
                || simple_end(l) {
                return true;
            }
            k += 1;
        }
    }
    false
}

// ---------------------------------------------------------------------------
// Matching
// ---------------------------------------------------------------------------

/// The search lines match the content from line `p` once normalised by `tol`.
pub open spec fn fwindow(c: Seq<Seq<char>>, s: Seq<Seq<char>>, tol: ToleranceLevel, p: int) -> bool {
    &&& 0 <= p
    &&& p + s.len() <= c.len()
    &&& forall|j: int| 0 <= j < s.len() ==> tol.normalize(#[trigger] c[p + j]) == tol.normalize(s[j])
}

/// Number of the first `k` search lines that differ from the content lines they matched.
pub open spec fn diff_count(c: Seq<Seq<char>>, s: Seq<Seq<char>>, p: int, k: int) -> nat
    decreases k,
{
    if k <= 0 {
        0
    } else {
        diff_count(c, s, p, k - 1) + if c[p + k - 1] != s[k - 1] {
            1nat
        } else {
            0nat
        }
    }
}

pub open spec fn mk_match(c: Seq<Seq<char>>, s: Seq<Seq<char>>, tol: ToleranceLevel, p: int) -> MatchResult {
    let n = diff_count(c, s, p, s.len() as int);
    MatchResult {
        range_start: p as usize,
        range_end: (p + s.len()) as usize,
        tolerance: ToleranceHit { level: tol, count: n as usize },
        score: (tol.half_multiplier() * n) as u64,
    }
}

/// Positions matched at a level tried before level number `k`.
pub open spec fn found_before(c: Seq<Seq<char>>, s: Seq<Seq<char>>, k: int, p: int) -> bool {
    exists|m: int| 0 <= m < k && fwindow(c, s, level_at(m), p)
}

/// Matches at level number `k` from position `q` on, skipping positions an
/// earlier level matched, in increasing order.
pub open spec fn level_matches(c: Seq<Seq<char>>, s: Seq<Seq<char>>, k: int, q: int) -> Seq<MatchResult>
    decreases c.len() - q,
{
    if q < 0 || s.len() == 0 || q + s.len() > c.len() {
        seq![]
    } else if !found_before(c, s, k, q) && fwindow(c, s, level_at(k), q) {
        seq![mk_match(c, s, level_at(k), q)] + level_matches(c, s, k, q + 1)
    } else {
        level_matches(c, s, k, q + 1)
    }
}

/// Every match, level by level in the order exact, trailing, leading, all.
pub open spec fn all_matches(c: Seq<Seq<char>>, s: Seq<Seq<char>>) -> Seq<MatchResult> {
    level_matches(c, s, 0, 0) + level_matches(c, s, 1, 0) + level_matches(c, s, 2, 0)
        + level_matches(c, s, 3, 0)
}

/// Where an item with score `sc` goes in a list sorted by score, after the
/// items with equal score.
pub open spec fn ins_pos(v: Seq<MatchResult>, sc: u64) -> nat
    decreases v.len(),
{
    if v.len() == 0 || v[0].score > sc {
        0
    } else {
        1 + ins_pos(v.drop_first(), sc)
    }
}

pub open spec fn insert_sorted(v: Seq<MatchResult>, x: MatchResult) -> Seq<MatchResult> {
    let p = ins_pos(v, x.score) as int;
    v.take(p).push(x) + v.skip(p)
}

/// A stable sort by score (lower first; equal scores keep their order).
pub open spec fn sort_by_score(v: Seq<MatchResult>) -> Seq<MatchResult>
    decreases v.len(),
{
    if v.len() == 0 {
        v
    } else {
        insert_sorted(sort_by_score(v.drop_last()), v.last())
    }
}

/// The match for a search block that is the whole content.
pub open spec fn whole_match(c: Seq<Seq<char>>) -> MatchResult {
    MatchResult {
        range_start: 0,
        range_end: c.len() as usize,
        tolerance: ToleranceHit { level: ToleranceLevel::Exact, count: 0 },
        score: 0,
    }
}

/// What `find_matches` returns: the whole content when the joined search
/// lines equal the joined content, else every match sorted by score.
pub open spec fn find_matches_file(c: Seq<Seq<char>>, s: Seq<Seq<char>>) -> Seq<MatchResult> {
    if join(s, nl()) == join(c, nl()) {
        seq![whole_match(c)]
    } else {
        sort_by_score(all_matches(c, s))
    }
}

/// `find_matches` indexes the first search line unless the search block is the
/// whole content.
pub open spec fn find_matches_defined(c: Seq<Seq<char>>, s: Seq<Seq<char>>) -> bool {
    s.len() > 0 || join(s, nl()) == join(c, nl())
}

proof fn lemma_ins_pos(v: Seq<MatchResult>, sc: u64, k: int)
    requires
        0 <= k <= v.len(),
        forall|j: int| 0 <= j < k ==> (#[trigger] v[j]).score <= sc,
        k == v.len() || v[k].score > sc,
    ensures
        ins_pos(v, sc) == k,
    decreases k,
{
    if k > 0 {
        let t = v.drop_first();
        assert forall|j: int| 0 <= j < k - 1 implies (#[trigger] t[j]).score <= sc by {
            assert(t[j] == v[j + 1]);
        }
        if k < v.len() {
            assert(t[k - 1] == v[k]);
        }
        lemma_ins_pos(t, sc, k - 1);
    }
}

fn sort_matches(v: Vec<MatchResult>) -> (r: Vec<MatchResult>)
    ensures
        r@ == sort_by_score(v@),
{
    let mut r: Vec<MatchResult> = Vec::new();
    let mut i: usize = 0;
    while i < v.len()
        invariant
            i <= v.len(),
            r@ == sort_by_score(v@.take(i as int)),
        decreases v.len() - i,
    {
        let x = v[i];
        let mut p: usize = 0;
        while p < r.len() && r[p].score <= x.score
            invariant
                p <= r.len(),
                forall|j: int| 0 <= j < p ==> (#[trigger] r@[j]).score <= x.score,
            decreases r.len() - p,
        {
            p += 1;
        }
        proof {
            lemma_ins_pos(r@, x.score, p as int);
            assert(v@.take(i + 1).drop_last() =~= v@.take(i as int));
            assert(v@.take(i + 1).last() == x);
        }
        let ghost before = r@;
        r.insert(p, x);
        proof {
            assert(r@ =~= before.take(p as int).push(x) + before.skip(p as int));
        }
        i += 1;
    }
    proof {
        assert(v@.take(v.len() as int) =~= v@);
    }
    r
}

fn lines_eq(a: &String, b: &String) -> (r: bool)
    ensures
        r == (a@ == b@),
{
    let x = to_chars(a.as_str());
    let y = to_chars(b.as_str());
    chars_eq(x.as_slice(), y.as_slice())
}

/// Matches at level number `k`, with the number of differing lines counted.
fn fwindow_exec(c: &[String], s: &[String], tol: ToleranceLevel, p: usize) -> (r: Option<usize>)
    requires
        p + s.len() <= c.len(),
    ensures
        (r is Some) == fwindow(c@.map_values(|x: String| x@), s@.map_values(|x: String| x@), tol, p as int),
        r matches Some(n) ==> n == diff_count(
            c@.map_values(|x: String| x@),
            s@.map_values(|x: String| x@),
            p as int,
            s.len() as int,
        ),
{
    let ghost cv = c@.map_values(|x: String| x@);
    let ghost sv = s@.map_values(|x: String| x@);
    let mut j: usize = 0;
    let mut n: usize = 0;
    while j < s.len()
        invariant
            p + s.len() <= c.len(),
            j <= s.len(),
            n <= j,
            cv == c@.map_values(|x: String| x@),
            sv == s@.map_values(|x: String| x@),
            n == diff_count(cv, sv, p as int, j as int),
            forall|k: int| 0 <= k < j ==> tol.normalize(#[trigger] cv[p + k]) == tol.normalize(sv[k]),
        decreases s.len() - j,
    {
        proof {
            assert(cv[p + j] == c@[p + j as int]@);
            assert(sv[j as int] == s@[j as int]@);
        }
        let a = to_chars(c[p + j].as_str());
        let b = to_chars(s[j].as_str());
        let na = tol.process_chars(a.as_slice());
        let nb = tol.process_chars(b.as_slice());
        if !chars_eq(na.as_slice(), nb.as_slice()) {
            return None;
        }
        if !lines_eq(&c[p + j], &s[j]) {
            n += 1;
        }
        j += 1;
    }
    Some(n)
}

fn join_string_lines(v: &[String]) -> (r: Vec<char>)
    ensures
        r@ == join(v@.map_values(|x: String| x@), nl()),
{
    let sep = vec!['\n'];
    proof {
        assert(sep@ =~= nl());
    }
    join_strings(v, sep.as_slice())
}

/// Finds all possible matches for a search block using multiple tolerance levels
fn find_matches(content_lines: &[String], search_lines: &[String]) -> (r: Vec<MatchResult>)
    requires
        find_matches_defined(
            content_lines@.map_values(|x: String| x@),
            search_lines@.map_values(|x: String| x@),
        ),
        search_lines.len() < 0x0100_0000_0000_0000,
    ensures
        r@ == find_matches_file(
            content_lines@.map_values(|x: String| x@),
            search_lines@.map_values(|x: String| x@),
        ),
{
    let ghost cv = content_lines@.map_values(|x: String| x@);
    let ghost sv = search_lines@.map_values(|x: String| x@);
    let st = join_string_lines(search_lines);
    let ct = join_string_lines(content_lines);
    if chars_eq(st.as_slice(), ct.as_slice()) {
        let m = MatchResult {
            range_start: 0,
            range_end: content_lines.len(),
            tolerance: ToleranceHit { level: ToleranceLevel::Exact, count: 0 },
            score: 0,
        };
        let mut r: Vec<MatchResult> = Vec::new();
        r.push(m);
        proof {
            assert(r@ =~= seq![whole_match(cv)]);
        }
        return r;
    }
    let mut all: Vec<MatchResult> = Vec::new();
    let mut k: usize = 0;
    while k < 4
        invariant
            k <= 4,
            cv == content_lines@.map_values(|x: String| x@),
            sv == search_lines@.map_values(|x: String| x@),
            sv.len() > 0,
            search_lines.len() < 0x0100_0000_0000_0000,
            all@ == if k == 0 {
                Seq::<MatchResult>::empty()
            } else if k == 1 {
                level_matches(cv, sv, 0, 0)
            } else if k == 2 {
                level_matches(cv, sv, 0, 0) + level_matches(cv, sv, 1, 0)
            } else if k == 3 {
                level_matches(cv, sv, 0, 0) + level_matches(cv, sv, 1, 0) + level_matches(cv, sv, 2, 0)
            } else {
                all_matches(cv, sv)
            },
        decreases 4 - k,
    {
        let level = level_exec(k);
        let ghost before = all@;
        if search_lines.len() <= content_lines.len() {
            let last = content_lines.len() - search_lines.len();
            let mut q: usize = 0;
            while q <= last
                invariant
                    last == content_lines.len() - search_lines.len(),
                    search_lines.len() <= content_lines.len(),
                    q <= last + 1,
                    k < 4,
                    level == level_at(k as int),
                    cv == content_lines@.map_values(|x: String| x@),
                    sv == search_lines@.map_values(|x: String| x@),
                    sv.len() > 0,
                    search_lines.len() < 0x0100_0000_0000_0000,
                    before + level_matches(cv, sv, k as int, 0) == all@ + level_matches(
                        cv,
                        sv,
                        k as int,
                        q as int,
                    ),
                decreases last + 1 - q,
            {
                let mut seen = false;
                let mut e: usize = 0;
                while e < k
                    invariant
                        e <= k,
                        k < 4,
                        q + search_lines.len() <= content_lines.len(),
                        cv == content_lines@.map_values(|x: String| x@),
                        sv == search_lines@.map_values(|x: String| x@),
                        seen == exists|m: int| 0 <= m < e && fwindow(cv, sv, level_at(m), q as int),
                    decreases k - e,
                {
                    if !seen {
                        let r = fwindow_exec(content_lines, search_lines, level_exec(e), q);
                        if r.is_some() {
                            seen = true;
                        }
                    }
                    e += 1;
                }
                let ghost prev = all@;
                if !seen {
                    match fwindow_exec(content_lines, search_lines, level, q) {
                        Some(n) => {
                            proof {
                                assert(n <= search_lines.len()) by {
                                    lemma_count_le_len(cv, sv, q as int);
                                }
                            }
                            let mult = level.score_multiplier();
                            proof {
                                assert(mult * n < 0x8000_0000_0000_0000) by (nonlinear_arith)
                                    requires
                                        mult <= 100,
                                        n < 0x0100_0000_0000_0000,
                                ;
                            }
                            let m = MatchResult {
                                range_start: q,
                                range_end: q + search_lines.len(),
                                tolerance: ToleranceHit { level, count: n },
                                score: mult * (n as u64),
                            };
                            all.push(m);
                            proof {
                                assert(m == mk_match(cv, sv, level, q as int));
                                assert(prev + level_matches(cv, sv, k as int, q as int) =~= all@
                                    + level_matches(cv, sv, k as int, q + 1));
                            }
                        },
                        None => {},
                    }
                }
                q += 1;
            }
            proof {
                assert(level_matches(cv, sv, k as int, q as int) =~= Seq::<MatchResult>::empty());
                assert(all@ + Seq::<MatchResult>::empty() =~= all@);
            }
        } else {
            proof {
                assert(level_matches(cv, sv, k as int, 0) =~= Seq::<MatchResult>::empty());
                assert(all@ =~= before + level_matches(cv, sv, k as int, 0));
            }
        }
        proof {
            if k == 0 {
                assert(all@ =~= level_matches(cv, sv, 0, 0));
            }
        }
        k += 1;
    }
    sort_matches(all)
}

proof fn lemma_count_le_len(c: Seq<Seq<char>>, s: Seq<Seq<char>>, p: int)
    ensures
        diff_count(c, s, p, s.len() as int) <= s.len(),
{
    lemma_diff_count_bound(c, s, p, s.len() as int);
}

proof fn lemma_diff_count_bound(c: Seq<Seq<char>>, s: Seq<Seq<char>>, p: int, k: int)
    ensures
        diff_count(c, s, p, k) <= if k < 0 { 0 } else { k },
    decreases k,
{
    if k > 0 {
        lemma_diff_count_bound(c, s, p, k - 1);
    }
}

// ---------------------------------------------------------------------------
// Indentation of replacement lines
// ---------------------------------------------------------------------------

pub open spec fn indent_of(l: Seq<char>) -> Seq<char> {
    l.take(leading_ws(l) as int)
}

/// Indentations of the non-blank lines, in order.
pub open spec fn nonblank_indents(ls: Seq<Seq<char>>) -> Seq<Seq<char>>
    decreases ls.len(),
{
    if ls.len() == 0 {
        seq![]
    } else if is_blank(ls.last()) {
        nonblank_indents(ls.drop_last())
    } else {
        nonblank_indents(ls.drop_last()).push(indent_of(ls.last()))
    }
}

/// Byte difference between the k-th search and matched indentation.
pub open spec fn indent_diff(mi: Seq<Seq<char>>, si: Seq<Seq<char>>, k: int) -> int {
    byte_len(si[k]) as int - byte_len(mi[k]) as int
}

/// One replacement line shifted by `d` bytes of indentation: `-d` spaces added
/// when `d < 0`, else its first `d` characters dropped when its indentation has
/// at least `d` bytes, else its indentation dropped.
pub open spec fn shift_line(l: Seq<char>, d: int) -> Seq<char> {
    if is_blank(l) {
        l
    } else if d < 0 {
        Seq::new((-d) as nat, |i: int| ' ') + l
    } else if d <= byte_len(indent_of(l)) {
        if d <= l.len() {
            l.skip(d)
        } else {
            seq![]
        }
    } else {
        trim_start(l)
    }
}

/// What `fix_indentation` returns: the replacement lines shifted by the
/// indentation difference between search and matched lines, when every
/// non-blank pair differs by the same non-zero amount; otherwise unchanged.
pub open spec fn fix_spec(m: Seq<Seq<char>>, s: Seq<Seq<char>>, r: Seq<Seq<char>>) -> Seq<Seq<char>> {
    let mi = nonblank_indents(m);
    let si = nonblank_indents(s);
    if m.len() == 0 || s.len() == 0 || r.len() == 0 {
        r
    } else if mi.len() == 0 || si.len() == 0 || mi.len() != si.len() {
        r
    } else if !(forall|k: int| 0 <= k < mi.len() ==> #[trigger] indent_diff(mi, si, k) == indent_diff(mi, si, 0)) {
        r
    } else if indent_diff(mi, si, 0) == 0 {
        r
    } else {
        r.map_values(|l: Seq<char>| shift_line(l, indent_diff(mi, si, 0)))
    }
}

fn indent_chars(l: &[char]) -> (r: Vec<char>)
    ensures
        r@ == indent_of(l@),
{
    let k = count_leading_ws(l);
    proof {
        crate::text::lemma_leading_ws_bounds(l@);
    }
    slice_chars(l, 0, k)
}

fn nonblank_indent_bytes(ls: &[String]) -> (r: Vec<u128>)
    ensures
        r@.len() == nonblank_indents(ls@.map_values(|x: String| x@)).len(),
        forall|k: int| 0 <= k < r@.len() ==> #[trigger] r@[k] == byte_len(nonblank_indents(ls@.map_values(|x: String| x@))[k]),
        forall|k: int| 0 <= k < r@.len() ==> #[trigger] r@[k] <= 4 * (usize::MAX as int),
{
    let ghost lv = ls@.map_values(|x: String| x@);
    let mut r: Vec<u128> = Vec::new();
    let mut i: usize = 0;
    while i < ls.len()
        invariant
            i <= ls.len(),
            lv == ls@.map_values(|x: String| x@),
            r@.len() == nonblank_indents(lv.take(i as int)).len(),
            forall|k: int| 0 <= k < r@.len() ==> r@[k] == byte_len(#[trigger] nonblank_indents(lv.take(i as int))[k]),
            forall|k: int| 0 <= k < r@.len() ==> #[trigger] r@[k] <= 4 * (usize::MAX as int),
        decreases ls.len() - i,
    {
        proof {
            assert(lv.take(i + 1).drop_last() =~= lv.take(i as int));
            assert(lv[i as int] == ls@[i as int]@);
        }
        let c = to_chars(ls[i].as_str());
        if !chars_blank(c.as_slice()) {
            let ind = indent_chars(c.as_slice());
            let b = byte_len_of(ind.as_slice());
            r.push(b);
        }
        i += 1;
    }
    proof {
        assert(lv.take(ls.len() as int) =~= lv);
    }
    r
}

fn push_repeat_u128(out: &mut Vec<char>, c: char, n: u128)
    ensures
        final(out)@ == old(out)@ + Seq::new(n as nat, |i: int| c),
{
    let ghost start = out@;
    let mut i: u128 = 0;
    while i < n
        invariant
            i <= n,
            out@ == start + Seq::new(i as nat, |k: int| c),
        decreases n - i,
    {
        out.push(c);
        i += 1;
        proof {
            assert(Seq::new(i as nat, |k: int| c) =~= Seq::new((i - 1) as nat, |k: int| c).push(c));
        }
    }
}

/// Fix indentation in replace lines based on matched content
fn fix_indentation(matched_lines: &[String], search_lines: &[String], replace_lines: &[String]) -> (r: Vec<String>)
    ensures
        r.deep_view() == fix_spec(
            matched_lines@.map_values(|x: String| x@),
            search_lines@.map_values(|x: String| x@),
            replace_lines@.map_values(|x: String| x@),
        ),
{
    let ghost mv = matched_lines@.map_values(|x: String| x@);
    let ghost sv = search_lines@.map_values(|x: String| x@);
    let ghost rv = replace_lines@.map_values(|x: String| x@);
    let mut out: Vec<String> = Vec::new();
    proof {
        assert(out.deep_view() =~= Seq::<Seq<char>>::empty());
    }
    let mut unchanged = matched_lines.len() == 0 || search_lines.len() == 0 || replace_lines.len() == 0;
    let mut d: i128 = 0;
    if !unchanged {
        let mb = nonblank_indent_bytes(matched_lines);
        let sb = nonblank_indent_bytes(search_lines);
        if mb.len() == 0 || sb.len() == 0 || mb.len() != sb.len() {
            unchanged = true;
        } else {
            proof {
                crate::text::lemma_byte_len_bound(nonblank_indents(sv)[0]);
                crate::text::lemma_byte_len_bound(nonblank_indents(mv)[0]);
            }
            let ghost mi = nonblank_indents(mv);
            let ghost si = nonblank_indents(sv);
            proof {
                assert(sb@[0] <= 4 * (usize::MAX as int));
                assert(mb@[0] <= 4 * (usize::MAX as int));
                assert(sb@[0] == byte_len(si[0]));
                assert(mb@[0] == byte_len(mi[0]));
            }
            d = sb[0] as i128 - mb[0] as i128;
            let mut k: usize = 0;
            let mut same = true;
            while k < mb.len()
                invariant
                    k <= mb.len(),
                    mb.len() == sb.len(),
                    mb@.len() == mi.len(),
                    sb@.len() == si.len(),
                    mi.len() > 0,
                    forall|j: int| 0 <= j < mb@.len() ==> mb@[j] == byte_len(#[trigger] mi[j]),
                    forall|j: int| 0 <= j < sb@.len() ==> sb@[j] == byte_len(#[trigger] si[j]),
                    forall|j: int| 0 <= j < sb@.len() ==> #[trigger] sb@[j] <= 4 * (usize::MAX as int),
                    forall|j: int| 0 <= j < mb@.len() ==> #[trigger] mb@[j] <= 4 * (usize::MAX as int),
                    d == indent_diff(mi, si, 0),
                    same == (forall|j: int| 0 <= j < k ==> #[trigger] indent_diff(mi, si, j) == d),
                    -0x10_0000_0000_0000_0000 < d < 0x10_0000_0000_0000_0000,
                decreases mb.len() - k,
            {
                proof {
                    crate::text::lemma_byte_len_bound(si[k as int]);
                    crate::text::lemma_byte_len_bound(mi[k as int]);
                }
                proof {
                    assert(sb@[k as int] <= 4 * (usize::MAX as int));
                    assert(mb@[k as int] <= 4 * (usize::MAX as int));
                    assert(sb@[k as int] == byte_len(si[k as int]));
                    assert(mb@[k as int] == byte_len(mi[k as int]));
                    assert(indent_diff(mi, si, k as int) == sb@[k as int] - mb@[k as int]);
                }
                if sb[k] as i128 - mb[k] as i128 != d {
                    same = false;
                }
                k += 1;
            }
            if !same || d == 0 {
                unchanged = true;
            }
        }
    }
    if unchanged {
        let mut i: usize = 0;
        while i < replace_lines.len()
            invariant
                i <= replace_lines.len(),
                rv == replace_lines@.map_values(|x: String| x@),
                out.deep_view() =~= rv.take(i as int),
            decreases replace_lines.len() - i,
        {
            let c = to_chars(replace_lines[i].as_str());
            push_line(&mut out, c.as_slice());
            proof {
                assert(rv.take(i + 1) =~= rv.take(i as int).push(rv[i as int]));
            }
            i += 1;
        }
        proof {
            assert(rv.take(replace_lines.len() as int) =~= rv);
        }
        return out;
    }
    let mut i: usize = 0;
    while i < replace_lines.len()
        invariant
            i <= replace_lines.len(),
            rv == replace_lines@.map_values(|x: String| x@),
            d != 0,
            -0x10_0000_0000_0000_0000 < d < 0x10_0000_0000_0000_0000,
            d == indent_diff(nonblank_indents(mv), nonblank_indents(sv), 0),
            fix_spec(mv, sv, rv) == rv.map_values(|l: Seq<char>| shift_line(l, d as int)),
            out.deep_view() =~= rv.take(i as int).map_values(|l: Seq<char>| shift_line(l, d as int)),
        decreases replace_lines.len() - i,
    {
        let c = to_chars(replace_lines[i].as_str());
        proof {
            assert(rv[i as int] == c@);
        }
        let line: Vec<char> = if chars_blank(c.as_slice()) {
            c
        } else if d < 0 {
            let mut v: Vec<char> = Vec::new();
            push_repeat_u128(&mut v, ' ', (-d) as u128);
            push_chars(&mut v, c.as_slice());
            v
        } else {
            let ind = indent_chars(c.as_slice());
            let ib = byte_len_of(ind.as_slice());
            if (d as u128) <= ib {
                if (d as u128) <= (c.len() as u128) {
                    slice_chars(c.as_slice(), d as usize, c.len())
                } else {
                    Vec::new()
                }
            } else {
                trim_start_chars(c.as_slice())
            }
        };
        proof {
            if !is_blank(c@) && d >= 0 && d <= byte_len(indent_of(c@)) {
                if d <= c@.len() {
                    assert(line@ =~= c@.skip(d as int));
                } else {
                    assert(line@ =~= Seq::<char>::empty());
                }
            }
            assert(line@ == shift_line(rv[i as int], d as int));
        }
        push_line(&mut out, line.as_slice());
        proof {
            assert(rv.take(i + 1).map_values(|l: Seq<char>| shift_line(l, d as int)) =~= rv.take(
                i as int,
            ).map_values(|l: Seq<char>| shift_line(l, d as int)).push(shift_line(rv[i as int], d as int)));
        }
        i += 1;
    }
    proof {
        assert(rv.take(replace_lines.len() as int) =~= rv);
    }
    out
}

/// `lines` without the blank lines at its start and its end.
pub open spec fn strip_blank_ends(ls: Seq<Seq<char>>) -> Seq<Seq<char>>
    decreases ls.len(),
{
    if ls.len() == 0 {
        ls
    } else if is_blank(ls[0]) {
        strip_blank_ends(ls.drop_first())
    } else if is_blank(ls.last()) {
        strip_blank_ends(ls.drop_last())
    } else {
        ls
    }
}

/// Remove leading and trailing blank lines
fn remove_empty_boundary_lines(lines: &[String]) -> (r: Vec<String>)
    ensures
        r.deep_view() == strip_blank_ends(lines@.map_values(|x: String| x@)),
{
    let ghost lv = lines@.map_values(|x: String| x@);
    let mut start: usize = 0;
    let mut end: usize = lines.len();
    proof {
        assert(lv.subrange(0, lines.len() as int) =~= lv);
    }
    while start < end && crate::text::str_blank(lines[start].as_str())
        invariant
            start <= end <= lines.len(),
            end == lines.len(),
            lv == lines@.map_values(|x: String| x@),
            strip_blank_ends(lv) == strip_blank_ends(lv.subrange(start as int, end as int)),
        decreases end - start,
    {
        proof {
            assert(lv[start as int] == lines@[start as int]@);
            assert(lv.subrange(start as int, end as int).drop_first() =~= lv.subrange(start + 1, end as int));
        }
        start += 1;
    }
    while start < end && crate::text::str_blank(lines[end - 1].as_str())
        invariant
            start <= end <= lines.len(),
            lv == lines@.map_values(|x: String| x@),
            start < end ==> !is_blank(lv[start as int]),
            strip_blank_ends(lv) == strip_blank_ends(lv.subrange(start as int, end as int)),
        decreases end - start,
    {
        proof {
            assert(lv[end - 1] == lines@[end - 1]@);
            assert(lv.subrange(start as int, end as int).drop_last() =~= lv.subrange(start as int, end - 1));
            assert(lv.subrange(start as int, end as int)[0] == lv[start as int]);
        }
        end -= 1;
    }
    proof {
        if start < end {
            assert(lv[end - 1] == lines@[end - 1]@);
            assert(lv.subrange(start as int, end as int)[0] == lv[start as int]);
            assert(lv.subrange(start as int, end as int).last() == lv[end - 1]);
        } else {
            assert(lv.subrange(start as int, end as int) =~= Seq::<Seq<char>>::empty());
        }
    }
    let mut out: Vec<String> = Vec::new();
    let mut i = start;
    while i < end
        invariant
            start <= i <= end <= lines.len(),
            lv == lines@.map_values(|x: String| x@),
            out.deep_view() =~= lv.subrange(start as int, i as int),
        decreases end - i,
    {
        let c = to_chars(lines[i].as_str());
        push_line(&mut out, c.as_slice());
        proof {
            assert(lv[i as int] == c@);
        }
        i += 1;
    }
    out
}

// ---------------------------------------------------------------------------
// Applying blocks
// ---------------------------------------------------------------------------

/// A spec-level failure: kind (1: message of a `MatchError`, 2: message of a
/// `MultipleMatchesError`, 3: `BlockNotFound` with content and search lines).
pub type FileErrView = (u8, Seq<char>, Seq<Seq<char>>, Seq<Seq<char>>);

pub open spec fn occ_error_text(i: nat, n: nat) -> Seq<char> {
    "Requested occurrence index "@ + decimal(i) + " but only found "@ + decimal(n)
        + " matches. Valid indices: 0 to "@ + decimal((n - 1) as nat)
}

/// The matches with score `sc`, in order.
pub open spec fn score_filter(v: Seq<MatchResult>, sc: u64) -> Seq<MatchResult>
    decreases v.len(),
{
    if v.len() == 0 {
        seq![]
    } else if v.last().score == sc {
        score_filter(v.drop_last(), sc).push(v.last())
    } else {
        score_filter(v.drop_last(), sc)
    }
}

/// The match a block naming one occurrence (or covering the whole content)
/// is applied at, or why there is none.
pub open spec fn target_match(cl: Seq<Seq<char>>, b: FileBlockView, ms: Seq<MatchResult>) -> Result<
    MatchResult,
    FileErrView,
> {
    match b.2 {
        Some(i) => if i >= ms.len() {
            Err((1, occ_error_text(i, ms.len()), seq![], seq![]))
        } else {
            Ok(ms[i as int])
        },
        None => Ok(ms[0]),
    }
}

/// Whether a block is applied at every occurrence: it names none, and its
/// search lines are not the whole content.
pub open spec fn replaces_all(cl: Seq<Seq<char>>, b: FileBlockView) -> bool {
    b.2 is None && join(b.0, nl()) != join(cl, nl())
}

/// The warning a match's tolerance level gives, if any.
pub open spec fn match_warning(m: MatchResult) -> Seq<Seq<char>> {
    match m.tolerance.level.warning_text() {
        Some(x) => seq![x],
        None => seq![],
    }
}

/// The first of `ts` that starts at line `i` and ends after it, within `n`
/// lines.
pub open spec fn match_at(ts: Seq<MatchResult>, i: int, n: int) -> Option<MatchResult>
    decreases ts.len(),
{
    if ts.len() == 0 {
        None
    } else if ts[0].range_start == i && i < ts[0].range_end <= n {
        Some(ts[0])
    } else {
        match_at(ts.drop_first(), i, n)
    }
}

pub proof fn lemma_match_at(ts: Seq<MatchResult>, i: int, n: int)
    ensures
        match_at(ts, i, n) matches Some(m) ==> m.range_start == i && i < m.range_end <= n,
    decreases ts.len(),
{
    if ts.len() > 0 {
        lemma_match_at(ts.drop_first(), i, n);
    }
}

/// The lines of `cl` from line `i` on, each occurrence among `ts` (taken
/// from the top, skipping those that overlap one already replaced)
/// replaced by the replacement lines re-indented for it; and the warnings
/// of the occurrences replaced.
pub open spec fn replaced_from(
    cl: Seq<Seq<char>>,
    ts: Seq<MatchResult>,
    search: Seq<Seq<char>>,
    replace: Seq<Seq<char>>,
    i: int,
) -> (Seq<Seq<char>>, Seq<Seq<char>>)
    decreases cl.len() - i,
{
    if i < 0 || i >= cl.len() {
        (seq![], seq![])
    } else {
        match match_at(ts, i, cl.len() as int) {
            Some(m) => {
                proof {
                    lemma_match_at(ts, i, cl.len() as int);
                }
                let (rest, w) = replaced_from(cl, ts, search, replace, m.range_end as int);
                (fix_spec(cl.subrange(i, m.range_end as int), search, replace) + rest, match_warning(m) + w)
            },
            None => {
                let (rest, w) = replaced_from(cl, ts, search, replace, i + 1);
                (seq![cl[i]] + rest, w)
            },
        }
    }
}

/// Content and new warnings after applying one block; `None` where the
/// matcher would panic.
pub open spec fn apply_file_block(content: Seq<char>, b: FileBlockView) -> Option<
    Result<(Seq<char>, Seq<Seq<char>>), FileErrView>,
> {
    let cl = lines(content);
    if !find_matches_defined(cl, b.0) {
        None
    } else {
        let ms = find_matches_file(cl, b.0);
        if ms.len() == 0 {
            Some(Err((3, seq![], cl, b.0)))
        } else {
            if replaces_all(cl, b) {
                let (out, w) = replaced_from(cl, score_filter(ms, ms[0].score), b.0, b.1, 0);
                Some(Ok((join(out, nl()), w)))
            } else {
                match target_match(cl, b, ms) {
                    Err(e) => Some(Err(e)),
                    Ok(t) => {
                        let matched = cl.subrange(t.range_start as int, t.range_end as int);
                        let adj = fix_spec(matched, b.0, b.1);
                        Some(
                            Ok(
                                (
                                    join(
                                        cl.take(t.range_start as int) + adj + cl.skip(t.range_end as int),
                                        nl(),
                                    ),
                                    match_warning(t),
                                ),
                            ),
                        )
                    },
                }
            }
        }
    }
}

/// Content and warnings after the first `k` blocks.
pub open spec fn apply_file_fold(content: Seq<char>, bs: Seq<FileBlockView>, k: nat) -> Option<
    Result<(Seq<char>, Seq<Seq<char>>), FileErrView>,
>
    decreases k,
{
    if k == 0 || k > bs.len() {
        Some(Ok((content, seq![])))
    } else {
        match apply_file_fold(content, bs, (k - 1) as nat) {
            Some(Ok((c, ws))) => match apply_file_block(c, bs[k - 1]) {
                Some(Ok((c2, w2))) => Some(Ok((c2, ws + w2))),
                other => other,
            },
            other => other,
        }
    }
}

proof fn lemma_file_fold_stuck(content: Seq<char>, bs: Seq<FileBlockView>, k: nat, m: nat)
    requires
        1 <= k <= m <= bs.len(),
        !(apply_file_fold(content, bs, k) matches Some(Ok(_))),
    ensures
        apply_file_fold(content, bs, m) == apply_file_fold(content, bs, k),
    decreases m - k,
{
    if m > k {
        lemma_file_fold_stuck(content, bs, k, (m - 1) as nat);
    }
}

pub open spec fn blocks_fit(bs: Seq<SearchReplaceBlock>) -> bool {
    forall|i: int| 0 <= i < bs.len() ==> (#[trigger] bs[i]).search_lines.len() < 0x0100_0000_0000_0000
}

pub open spec fn err_matches(r: SearchReplaceError, e: FileErrView) -> bool {
    if e.0 == 1 {
        r matches SearchReplaceError::MatchError(m) && m@ == e.1
    } else if e.0 == 2 {
        r matches SearchReplaceError::MultipleMatchesError(m) && m@ == e.1
    } else {
        r matches SearchReplaceError::BlockNotFound { content_lines, search_lines }
            && content_lines.deep_view() == e.2 && search_lines.deep_view() == e.3
    }
}

proof fn lemma_dv(v: Vec<String>)
    ensures
        v.deep_view() == v@.map_values(|x: String| x@),
{
    assert(v.deep_view() =~= v@.map_values(|x: String| x@));
}

fn copy_strings(v: &[String], from: usize, to: usize) -> (r: Vec<String>)
    requires
        from <= to <= v.len(),
    ensures
        r.deep_view() == v@.map_values(|x: String| x@).subrange(from as int, to as int),
{
    let ghost vv = v@.map_values(|x: String| x@);
    let mut r: Vec<String> = Vec::new();
    let mut i = from;
    while i < to
        invariant
            from <= i <= to <= v.len(),
            vv == v@.map_values(|x: String| x@),
            r.deep_view() =~= vv.subrange(from as int, i as int),
        decreases to - i,
    {
        let c = to_chars(v[i].as_str());
        push_line(&mut r, c.as_slice());
        proof {
            assert(vv[i as int] == c@);
        }
        i += 1;
    }
    r
}

fn score_filter_exec(v: &Vec<MatchResult>, sc: u64) -> (r: Vec<MatchResult>)
    ensures
        r@ == score_filter(v@, sc),
{
    let mut r: Vec<MatchResult> = Vec::new();
    let mut i: usize = 0;
    while i < v.len()
        invariant
            i <= v.len(),
            r@ == score_filter(v@.take(i as int), sc),
        decreases v.len() - i,
    {
        proof {
            assert(v@.take(i + 1).drop_last() =~= v@.take(i as int));
        }
        if v[i].score == sc {
            r.push(v[i]);
        }
        i += 1;
    }
    proof {
        assert(v@.take(v.len() as int) =~= v@);
    }
    r
}

pub proof fn lemma_push_contains<T>(t: Seq<T>, x: T, y: T)
    ensures
        t.push(x).contains(y) <==> (t.contains(y) || x == y),
{
    if t.contains(y) {
        let w = choose|w: int| 0 <= w < t.len() && t[w] == y;
        assert(t.push(x)[w] == y);
    }
    if x == y {
        assert(t.push(x)[t.len() as int] == y);
    }
    if t.push(x).contains(y) {
        let w = choose|w: int| 0 <= w < t.len() + 1 && t.push(x)[w] == y;
        if w < t.len() {
            assert(t[w] == y);
        }
    }
}

/// Picks the match a block naming one occurrence is applied at.
fn select_target(cl: &Vec<String>, block: &SearchReplaceBlock, matches: &Vec<MatchResult>) -> (r: Result<
    MatchResult,
    SearchReplaceError,
>)
    requires
        matches@.len() > 0,
        forall|v: MatchResult| #[trigger] matches@.contains(v) ==> v.range_start <= v.range_end <= cl.len(),
    ensures
        match target_match(cl.deep_view(), block@, matches@) {
            Ok(t) => r matches Ok(x) && x == t,
            Err(e) => r matches Err(err) && err_matches(err, e),
        },
{
    proof {
        lemma_dv(*cl);
        lemma_dv(block.search_lines);
    }
    match block.occurrence_index {
        Some(index) => {
            if index >= matches.len() {
                let mut v: Vec<char> = Vec::new();
                push_str(&mut v, "Requested occurrence index ");
                push_decimal(&mut v, index as u64);
                push_str(&mut v, " but only found ");
                push_decimal(&mut v, matches.len() as u64);
                push_str(&mut v, " matches. Valid indices: 0 to ");
                push_decimal(&mut v, (matches.len() - 1) as u64);
                return Err(SearchReplaceError::MatchError(from_chars(v.as_slice())));
            }
            Ok(matches[index])
        },
        None => Ok(matches[0]),
    }
}

/// `cl[..start] + mid + cl[end..]`
fn splice(cl: &Vec<String>, start: usize, end: usize, mid: &Vec<String>) -> (r: Vec<String>)
    requires
        start <= end <= cl.len(),
    ensures
        r.deep_view() == cl.deep_view().take(start as int) + mid.deep_view() + cl.deep_view().skip(
            end as int,
        ),
{
    proof {
        lemma_dv(*cl);
    }
    let mut next = copy_strings(cl.as_slice(), 0, start);
    let tail = copy_strings(cl.as_slice(), end, cl.len());
    let ghost n0 = next.deep_view();
    let mut j: usize = 0;
    while j < mid.len()
        invariant
            j <= mid.len(),
            next.deep_view() =~= n0 + mid.deep_view().take(j as int),
        decreases mid.len() - j,
    {
        let c = to_chars(mid[j].as_str());
        push_line(&mut next, c.as_slice());
        proof {
            assert(mid.deep_view().take(j + 1) =~= mid.deep_view().take(j as int).push(c@));
        }
        j += 1;
    }
    let ghost n1 = next.deep_view();
    let mut j2: usize = 0;
    while j2 < tail.len()
        invariant
            j2 <= tail.len(),
            next.deep_view() =~= n1 + tail.deep_view().take(j2 as int),
        decreases tail.len() - j2,
    {
        let c = to_chars(tail[j2].as_str());
        push_line(&mut next, c.as_slice());
        proof {
            assert(tail.deep_view().take(j2 + 1) =~= tail.deep_view().take(j2 as int).push(c@));
        }
        j2 += 1;
    }
    proof {
        assert(mid.deep_view().take(mid.len() as int) =~= mid.deep_view());
        assert(tail.deep_view().take(tail.len() as int) =~= tail.deep_view());
        let cv = cl.deep_view();
        assert(cv.take(start as int) =~= cv.subrange(0, start as int));
        assert(cv.skip(end as int) =~= cv.subrange(end as int, cv.len() as int));
    }
    next
}


fn match_at_exec(ts: &Vec<MatchResult>, i: usize, n: usize) -> (r: Option<MatchResult>)
    ensures
        r == match_at(ts@, i as int, n as int),
{
    let mut k: usize = 0;
    proof {
        assert(ts@.skip(0) =~= ts@);
    }
    while k < ts.len()
        invariant
            k <= ts.len(),
            match_at(ts@, i as int, n as int) == match_at(ts@.skip(k as int), i as int, n as int),
        decreases ts.len() - k,
    {
        proof {
            assert(ts@.skip(k as int)[0] == ts@[k as int]);
            assert(ts@.skip(k as int).drop_first() =~= ts@.skip(k + 1));
        }
        let m = ts[k];
        if m.range_start == i && i < m.range_end && m.range_end <= n {
            return Some(m);
        }
        k += 1;
    }
    proof {
        assert(ts@.skip(k as int) =~= Seq::<MatchResult>::empty());
    }
    None
}

fn append_lines(out: &mut Vec<String>, src: &Vec<String>)
    ensures
        final(out).deep_view() == old(out).deep_view() + src.deep_view(),
{
    let ghost start = out.deep_view();
    let mut j: usize = 0;
    while j < src.len()
        invariant
            j <= src.len(),
            out.deep_view() =~= start + src.deep_view().take(j as int),
        decreases src.len() - j,
    {
        let c = to_chars(src[j].as_str());
        push_line(out, c.as_slice());
        proof {
            assert(src.deep_view().take(j + 1) =~= src.deep_view().take(j as int).push(c@));
        }
        j += 1;
    }
    proof {
        assert(src.deep_view().take(src.len() as int) =~= src.deep_view());
    }
}

/// Every occurrence among `ts` replaced, from the top (see `replaced_from`).
fn replace_occurrences(cl: &Vec<String>, ts: &Vec<MatchResult>, block: &SearchReplaceBlock) -> (r: (
    Vec<String>,
    Vec<&'static str>,
))
    ensures
        r.0.deep_view() == replaced_from(cl.deep_view(), ts@, block@.0, block@.1, 0).0,
        r.1@.map_values(|x: &str| x@) == replaced_from(cl.deep_view(), ts@, block@.0, block@.1, 0).1,
{
    proof {
        lemma_dv(*cl);
        lemma_dv(block.search_lines);
        lemma_dv(block.replace_lines);
    }
    let ghost cv = cl.deep_view();
    let ghost sv = block@.0;
    let ghost rv = block@.1;
    let mut out: Vec<String> = Vec::new();
    let mut ws: Vec<&'static str> = Vec::new();
    let mut i: usize = 0;
    proof {
        assert(out.deep_view() =~= Seq::<Seq<char>>::empty());
        assert(ws@.map_values(|x: &str| x@) =~= Seq::<Seq<char>>::empty());
        assert(replaced_from(cv, ts@, sv, rv, 0).0 =~= Seq::<Seq<char>>::empty() + replaced_from(cv, ts@, sv, rv, 0).0);
        assert(replaced_from(cv, ts@, sv, rv, 0).1 =~= Seq::<Seq<char>>::empty() + replaced_from(cv, ts@, sv, rv, 0).1);
    }
    while i < cl.len()
        invariant
            i <= cl.len(),
            cv == cl.deep_view(),
            cv == cl@.map_values(|x: String| x@),
            sv == block.search_lines@.map_values(|x: String| x@),
            rv == block.replace_lines@.map_values(|x: String| x@),
            replaced_from(cv, ts@, sv, rv, 0).0 == out.deep_view() + replaced_from(cv, ts@, sv, rv, i as int).0,
            replaced_from(cv, ts@, sv, rv, 0).1 == ws@.map_values(|x: &str| x@) + replaced_from(
                cv,
                ts@,
                sv,
                rv,
                i as int,
            ).1,
        decreases cl.len() - i,
    {
        let ghost before_out = out.deep_view();
        let ghost before_ws = ws@.map_values(|x: &str| x@);
        proof {
            lemma_match_at(ts@, i as int, cl.len() as int);
        }
        match match_at_exec(ts, i, cl.len()) {
            Some(m) => {
                let matched = copy_strings(cl.as_slice(), i, m.range_end);
                proof {
                    lemma_dv(matched);
                }
                let adjusted = fix_indentation(
                    matched.as_slice(),
                    block.search_lines.as_slice(),
                    block.replace_lines.as_slice(),
                );
                proof {
                    lemma_dv(adjusted);
                }
                append_lines(&mut out, &adjusted);
                match m.tolerance.level.warning_message() {
                    Some(x) => {
                        ws.push(x);
                        proof {
                            assert(ws@.map_values(|x: &str| x@) =~= before_ws + match_warning(m));
                        }
                    },
                    None => {
                        proof {
                            assert(ws@.map_values(|x: &str| x@) =~= before_ws + match_warning(m));
                        }
                    },
                }
                proof {
                    let rest = replaced_from(cv, ts@, sv, rv, m.range_end as int);
                    assert(out.deep_view() + rest.0 =~= before_out + (fix_spec(
                        cv.subrange(i as int, m.range_end as int),
                        sv,
                        rv,
                    ) + rest.0));
                    assert(ws@.map_values(|x: &str| x@) + rest.1 =~= before_ws + (match_warning(m) + rest.1));
                }
                i = m.range_end;
            },
            None => {
                let c = to_chars(cl[i].as_str());
                push_line(&mut out, c.as_slice());
                proof {
                    let rest = replaced_from(cv, ts@, sv, rv, i + 1);
                    assert(out.deep_view() + rest.0 =~= before_out + (seq![cv[i as int]] + rest.0));
                }
                i += 1;
            },
        }
    }
    proof {
        assert(out.deep_view() =~= out.deep_view() + replaced_from(cv, ts@, sv, rv, i as int).0);
        assert(ws@.map_values(|x: &str| x@) =~= ws@.map_values(|x: &str| x@) + replaced_from(cv, ts@, sv, rv, i as int).1);
    }
    (out, ws)
}

/// Applies one block: the new content and the tolerance warnings, if any.
fn apply_one(content: &String, block: &SearchReplaceBlock) -> (r: Result<
    (String, Vec<&'static str>),
    SearchReplaceError,
>)
    requires
        apply_file_block(content@, block@) is Some,
        block.search_lines.len() < 0x0100_0000_0000_0000,
    ensures
        match apply_file_block(content@, block@) {
            Some(Ok((c, w))) => r matches Ok((s, wo)) && s@ == c && w == wo@.map_values(|x: &str| x@),
            Some(Err(e)) => r matches Err(err) && err_matches(err, e),
            None => false,
        },
{
    let cl = crate::text::split_lines(content.as_str());
    proof {
        lemma_dv(cl);
        lemma_dv(block.search_lines);
        lemma_dv(block.replace_lines);
    }
    let matches = find_matches(cl.as_slice(), block.search_lines.as_slice());
    if matches.len() == 0 {
        let search_lines = copy_strings(block.search_lines.as_slice(), 0, block.search_lines.len());
        proof {
            assert(block.search_lines@.map_values(|x: String| x@).subrange(
                0,
                block.search_lines.len() as int,
            ) =~= block.search_lines@.map_values(|x: String| x@));
        }
        return Err(SearchReplaceError::BlockNotFound { content_lines: cl, search_lines });
    }
    proof {
        lemma_match_bounds(cl.deep_view(), block@.0);
    }
    if block.occurrence_index.is_none() {
        let st = join_string_lines(block.search_lines.as_slice());
        let ct = join_string_lines(cl.as_slice());
        if !chars_eq(st.as_slice(), ct.as_slice()) {
            let ties = score_filter_exec(&matches, matches[0].score);
            let (out, ws) = replace_occurrences(&cl, &ties, block);
            let joined = crate::text::join_lines(out.as_slice());
            proof {
                lemma_dv(out);
            }
            return Ok((joined, ws));
        }
    }
    let target = match select_target(&cl, block, &matches) {
        Ok(t) => t,
        Err(e) => {
            return Err(e);
        },
    };
    proof {
        if block@.2 is Some {
            assert(matches@.contains(matches@[block@.2->0 as int]));
        } else {
            assert(matches@.contains(matches@[0]));
        }
        assert(matches@.contains(target));
    }
    let mut ws: Vec<&'static str> = Vec::new();
    match target.tolerance.level.warning_message() {
        Some(x) => ws.push(x),
        None => {},
    }
    proof {
        assert(ws@.map_values(|x: &str| x@) =~= match_warning(target));
    }
    let matched = copy_strings(cl.as_slice(), target.range_start, target.range_end);
    proof {
        lemma_dv(matched);
    }
    let adjusted = fix_indentation(
        matched.as_slice(),
        block.search_lines.as_slice(),
        block.replace_lines.as_slice(),
    );
    let next = splice(&cl, target.range_start, target.range_end, &adjusted);
    proof {
        lemma_dv(next);
    }
    let joined = crate::text::join_lines(next.as_slice());
    Ok((joined, ws))
}


/// Whether applying `blocks` to `original_content` can be asked for: no
/// block has too many search lines, and every block reached has search
/// lines, or is the whole content (the matcher indexes the first search
/// line). Where this is false, applying the blocks would fail past any
/// error this library reports.
pub fn edit_defined(original_content: &str, blocks: &[SearchReplaceBlock]) -> (b: bool)
    ensures
        b == (apply_file_fold(original_content@, fblocks_view(blocks@), blocks@.len()) is Some && blocks_fit(blocks@)),
{
    let mut k: usize = 0;
    while k < blocks.len()
        invariant
            k <= blocks.len(),
            forall|j: int| 0 <= j < k ==> (#[trigger] blocks@[j]).search_lines.len() < 0x0100_0000_0000_0000,
        decreases blocks.len() - k,
    {
        if blocks[k].search_lines.len() as u64 >= 0x0100_0000_0000_0000u64 {
            return false;
        }
        k += 1;
    }
    let ghost bv = fblocks_view(blocks@);
    let ghost c0 = original_content@;
    let mut content = crate::text::owned(original_content);
    let ghost mut ws: Seq<Seq<char>> = seq![];
    let mut k: usize = 0;
    while k < blocks.len()
        invariant
            k <= blocks.len(),
            bv == fblocks_view(blocks@),
            bv.len() == blocks.len(),
            c0 == original_content@,
            blocks_fit(blocks@),
            apply_file_fold(c0, bv, k as nat) == Some(Ok::<(Seq<char>, Seq<Seq<char>>), FileErrView>((content@, ws))),
        decreases blocks.len() - k,
    {
        let block = &blocks[k];
        proof {
            assert(bv[k as int] == block@);
            assert(blocks@.contains(blocks@[k as int]));
            if !(apply_file_fold(c0, bv, (k + 1) as nat) matches Some(Ok(_))) {
                lemma_file_fold_stuck(c0, bv, (k + 1) as nat, bv.len());
            }
        }
        let cl = crate::text::split_lines(content.as_str());
        proof {
            lemma_dv(cl);
            lemma_dv(block.search_lines);
        }
        let defined = block.search_lines.len() > 0 || {
            let st = join_string_lines(block.search_lines.as_slice());
            let ct = join_string_lines(cl.as_slice());
            chars_eq(st.as_slice(), ct.as_slice())
        };
        if !defined {
            return false;
        }
        match apply_one(&content, block) {
            Err(_) => {
                return true;
            },
            Ok((next, w)) => {
                proof {
                    ws = ws + w@.map_values(|x: &str| x@);
                }
                content = next;
            },
        }
        k += 1;
    }
    true
}

/// Applies search/replace blocks to file content. `logger` is told each
/// tolerance warning as it arises.
pub fn apply_search_replace<F: Fn(&str)>(
    original_content: &str,
    blocks: &[SearchReplaceBlock],
    logger: F,
) -> (r: Result<(String, Vec<String>), SearchReplaceError>)
    requires
        apply_file_fold(original_content@, fblocks_view(blocks@), blocks@.len()) is Some,
        blocks_fit(blocks@),
        forall|s: &str| call_requires(logger, (s,)),
    ensures
        file_edit_answer(original_content@, fblocks_view(blocks@), r),
{
    apply_with_logger(original_content, blocks, &logger)
}

/// `r` is what applying blocks whose views are `bv` to `content` answers:
/// the edited content with its warnings, each once, or the error of the
/// first block that fails.
pub open spec fn file_edit_answer(
    content: Seq<char>,
    bv: Seq<FileBlockView>,
    r: Result<(String, Vec<String>), SearchReplaceError>,
) -> bool {
    match apply_file_fold(content, bv, bv.len()) {
        Some(Ok((c, ws))) => r matches Ok((text, warnings)) && text@ == c
            && warnings.deep_view().no_duplicates() && (forall|w: Seq<char>|
            warnings.deep_view().contains(w) <==> ws.contains(w)),
        Some(Err(e)) => r matches Err(err) && err_matches(err, e),
        None => false,
    }
}

/// Two errors that say the same thing.
pub open spec fn same_error(a: SearchReplaceError, b: SearchReplaceError) -> bool {
    match (a, b) {
        (SearchReplaceError::MatchError(x), SearchReplaceError::MatchError(y)) => x@ == y@,
        (SearchReplaceError::MultipleMatchesError(x), SearchReplaceError::MultipleMatchesError(y)) => x@
            == y@,
        (
            SearchReplaceError::BlockNotFound { content_lines: c1, search_lines: s1 },
            SearchReplaceError::BlockNotFound { content_lines: c2, search_lines: s2 },
        ) => c1.deep_view() == c2.deep_view() && s1.deep_view() == s2.deep_view(),
        _ => false,
    }
}

/// The fallback answers as one pass over all the blocks does: where one
/// answers with content, the other answers with the same content and the
/// same warnings (as sets); where one fails, the other fails with the same
/// error. (`r1` and `r2` are any two answers the contract allows, such as
/// the fallback's and one pass's.)
pub proof fn law_fallback_answers_as_one_pass(
    content: Seq<char>,
    bv: Seq<FileBlockView>,
    r1: Result<(String, Vec<String>), SearchReplaceError>,
    r2: Result<(String, Vec<String>), SearchReplaceError>,
)
    requires
        file_edit_answer(content, bv, r1),
        file_edit_answer(content, bv, r2),
    ensures
        r1 is Ok <==> r2 is Ok,
        r1 matches Ok((a, w1)) ==> r2 matches Ok((b, w2)) && a@ == b@ && (forall|w: Seq<char>|
            w1.deep_view().contains(w) <==> w2.deep_view().contains(w)),
        r1 matches Err(e1) ==> r2 matches Err(e2) && same_error(e1, e2),
{
    if let Some(Ok((c, ws))) = apply_file_fold(content, bv, bv.len()) {
        if let (Ok((a, w1)), Ok((b, w2))) = (r1, r2) {
            assert forall|w: Seq<char>| w1.deep_view().contains(w) <==> w2.deep_view().contains(w) by {
                assert(w1.deep_view().contains(w) <==> ws.contains(w));
                assert(w2.deep_view().contains(w) <==> ws.contains(w));
            }
        }
    }
}

fn apply_with_logger<F: Fn(&str)>(
    original_content: &str,
    blocks: &[SearchReplaceBlock],
    logger: &F,
) -> (r: Result<(String, Vec<String>), SearchReplaceError>)
    requires
        apply_file_fold(original_content@, fblocks_view(blocks@), blocks@.len()) is Some,
        blocks_fit(blocks@),
        forall|s: &str| call_requires(*logger, (s,)),
    ensures
        file_edit_answer(original_content@, fblocks_view(blocks@), r),
{
    let ghost bv = fblocks_view(blocks@);
    let ghost c0 = original_content@;
    let mut content = crate::text::owned(original_content);
    let mut warnings: Vec<String> = Vec::new();
    proof {
        assert(warnings.deep_view() =~= Seq::<Seq<char>>::empty());
    }
    let mut k: usize = 0;
    while k < blocks.len()
        invariant
            k <= blocks.len(),
            bv == fblocks_view(blocks@),
            bv.len() == blocks.len(),
            c0 == original_content@,
            blocks_fit(blocks@),
            forall|s: &str| call_requires(*logger, (s,)),
            apply_file_fold(c0, bv, bv.len()) is Some,
            apply_file_fold(c0, bv, k as nat) == Some(
                Ok::<(Seq<char>, Seq<Seq<char>>), FileErrView>((content@, warnings.deep_view())),
            ),
        decreases blocks.len() - k,
    {
        let block = &blocks[k];
        proof {
            assert(bv[k as int] == block@);
            if !(apply_file_fold(c0, bv, (k + 1) as nat) matches Some(Ok(_))) {
                lemma_file_fold_stuck(c0, bv, (k + 1) as nat, bv.len());
            }
            assert(blocks@.contains(blocks@[k as int]));
        }
        match apply_one(&content, block) {
            Err(e) => {
                return Err(e);
            },
            Ok((next, w)) => {
                let ghost wprev = warnings.deep_view();
                let mut j: usize = 0;
                while j < w.len()
                    invariant
                        j <= w.len(),
                        forall|s: &str| call_requires(*logger, (s,)),
                        warnings.deep_view() == wprev + w@.map_values(|x: &str| x@).take(j as int),
                    decreases w.len() - j,
                {
                    let x = w[j];
                    logger(x);
                    let o = crate::text::owned(x);
                    let ghost wb = warnings.deep_view();
                    warnings.push(o);
                    proof {
                        assert(warnings.deep_view() =~= wb.push(o@));
                        assert(w@.map_values(|x: &str| x@).take(j + 1) =~= w@.map_values(|x: &str| x@).take(
                            j as int,
                        ).push(x@));
                    }
                    j += 1;
                }
                proof {
                    assert(w@.map_values(|x: &str| x@).take(w.len() as int) =~= w@.map_values(|x: &str| x@));
                }
                content = next;
            },
        }
        k += 1;
    }
    let deduped = dedup_strings(&warnings);
    Ok((content, deduped))
}

/// Each match covers lines inside the content.
proof fn lemma_match_bounds(c: Seq<Seq<char>>, s: Seq<Seq<char>>)
    requires
        c.len() <= usize::MAX,
    ensures
        forall|v: MatchResult| #[trigger] find_matches_file(c, s).contains(v) ==> v.range_start <= v.range_end <= c.len(),
{
    if join(s, nl()) == join(c, nl()) {
        assert forall|v: MatchResult| #[trigger] find_matches_file(c, s).contains(v) implies v.range_start
            <= v.range_end <= c.len() by {
            assert(find_matches_file(c, s)[0] == whole_match(c));
        }
    } else {
        let a = all_matches(c, s);
        lemma_level_matches_in(c, s, 0, 0);
        lemma_level_matches_in(c, s, 1, 0);
        lemma_level_matches_in(c, s, 2, 0);
        lemma_level_matches_in(c, s, 3, 0);
        assert forall|v: MatchResult| #[trigger] a.contains(v) implies v.range_start <= v.range_end
            <= c.len() by {
            let i = choose|i: int| 0 <= i < a.len() && a[i] == v;
            let l0 = level_matches(c, s, 0, 0);
            let l1 = level_matches(c, s, 1, 0);
            let l2 = level_matches(c, s, 2, 0);
            let l3 = level_matches(c, s, 3, 0);
            if i < l0.len() {
                assert(a[i] == l0[i]);
            } else if i < l0.len() + l1.len() {
                assert(a[i] == l1[i - l0.len()]);
            } else if i < l0.len() + l1.len() + l2.len() {
                assert(a[i] == l2[i - l0.len() - l1.len()]);
            } else {
                assert(a[i] == l3[i - l0.len() - l1.len() - l2.len()]);
            }
        }
        lemma_sort_contains(a);
    }
}

proof fn lemma_level_matches_in(c: Seq<Seq<char>>, s: Seq<Seq<char>>, k: int, q: int)
    requires
        c.len() <= usize::MAX,
    ensures
        forall|i: int|
            0 <= i < level_matches(c, s, k, q).len() ==> (#[trigger] level_matches(c, s, k, q)[i]).range_start
                <= level_matches(c, s, k, q)[i].range_end <= c.len(),
    decreases c.len() - q,
{
    if q < 0 || s.len() == 0 || q + s.len() > c.len() {
    } else {
        lemma_level_matches_in(c, s, k, q + 1);
        let all = level_matches(c, s, k, q);
        let rest = level_matches(c, s, k, q + 1);
        if !found_before(c, s, k, q) && fwindow(c, s, level_at(k), q) {
            assert forall|i: int| 0 <= i < all.len() implies (#[trigger] all[i]).range_start <= all[i].range_end
                <= c.len() by {
                if i > 0 {
                    assert(all[i] == rest[i - 1]);
                }
            }
        }
    }
}

proof fn lemma_sort_contains(v: Seq<MatchResult>)
    ensures
        forall|x: MatchResult| #[trigger] sort_by_score(v).contains(x) ==> v.contains(x),
    decreases v.len(),
{
    if v.len() > 0 {
        let t = sort_by_score(v.drop_last());
        lemma_sort_contains(v.drop_last());
        lemma_ins_pos_bound(t, v.last().score);
        let p = ins_pos(t, v.last().score) as int;
        assert forall|x: MatchResult| #[trigger] sort_by_score(v).contains(x) implies v.contains(x) by {
            let r = sort_by_score(v);
            let i = choose|i: int| 0 <= i < r.len() && r[i] == x;
            if i < p {
                assert(r[i] == t[i]);
                assert(t.contains(x));
                assert(v.drop_last().contains(x));
                let w = choose|w: int| 0 <= w < v.drop_last().len() && v.drop_last()[w] == x;
                assert(v[w] == x);
            } else if i == p {
                assert(r[i] == v.last());
                assert(v[v.len() - 1] == x);
            } else {
                assert(r[i] == t[i - 1]);
                assert(t.contains(x));
                assert(v.drop_last().contains(x));
                let w = choose|w: int| 0 <= w < v.drop_last().len() && v.drop_last()[w] == x;
                assert(v[w] == x);
            }
        }
    }
}

proof fn lemma_ins_pos_bound(v: Seq<MatchResult>, sc: u64)
    ensures
        ins_pos(v, sc) <= v.len(),
    decreases v.len(),
{
    if v.len() > 0 && v[0].score <= sc {
        lemma_ins_pos_bound(v.drop_first(), sc);
    }
}

/// The distinct strings of `v`, first occurrences kept in order.
fn dedup_strings(v: &Vec<String>) -> (r: Vec<String>)
    ensures
        r.deep_view().no_duplicates(),
        forall|w: Seq<char>| r.deep_view().contains(w) <==> v.deep_view().contains(w),
{
    let ghost vv = v.deep_view();
    let mut r: Vec<String> = Vec::new();
    let mut i: usize = 0;
    while i < v.len()
        invariant
            i <= v.len(),
            vv == v.deep_view(),
            r.deep_view().no_duplicates(),
            forall|w: Seq<char>| r.deep_view().contains(w) <==> vv.take(i as int).contains(w),
        decreases v.len() - i,
    {
        let ghost before = r.deep_view();
        let mut found = false;
        let mut j: usize = 0;
        while j < r.len()
            invariant
                j <= r.len(),
                vv == v.deep_view(),
                i < v.len(),
                found == r.deep_view().take(j as int).contains(vv[i as int]),
            decreases r.len() - j,
        {
            proof {
                assert(r.deep_view().take(j + 1) =~= r.deep_view().take(j as int).push(r.deep_view()[j as int]));
                lemma_push_contains(r.deep_view().take(j as int), r.deep_view()[j as int], vv[i as int]);
                assert(r.deep_view()[j as int] == r@[j as int]@);
                assert(vv[i as int] == v@[i as int]@);
            }
            if lines_eq(&r[j], &v[i]) {
                found = true;
            }
            j += 1;
        }
        proof {
            assert(r.deep_view().take(r.len() as int) =~= r.deep_view());
            assert(vv.take(i + 1) =~= vv.take(i as int).push(vv[i as int]));
            assert forall|w: Seq<char>| vv.take(i + 1).contains(w) <==> (vv.take(i as int).contains(w) || vv[i as int] == w) by {
                lemma_push_contains(vv.take(i as int), vv[i as int], w);
            }
        }
        if !found {
            let c = to_chars(v[i].as_str());
            let ghost prev = r.deep_view();
            push_line(&mut r, c.as_slice());
            proof {
                assert(c@ == vv[i as int]);
                assert(r.deep_view() == prev.push(c@));
                assert forall|w: Seq<char>| r.deep_view().contains(w) <==> (prev.contains(w) || c@ == w) by {
                    lemma_push_contains(prev, c@, w);
                }
                assert forall|a: int, b: int| 0 <= a < b < r.deep_view().len() implies r.deep_view()[a] != r.deep_view()[b] by {
                    if b == prev.len() {
                        assert(prev.contains(prev[a]));
                    }
                }
            }
        }
        proof {
            assert forall|w: Seq<char>| r.deep_view().contains(w) <==> vv.take(i + 1).contains(w) by {
                lemma_push_contains(vv.take(i as int), vv[i as int], w);
                assert(before.contains(w) <==> vv.take(i as int).contains(w));
                if found {
                    assert(r.deep_view() == before);
                    assert(before.contains(vv[i as int]));
                } else {
                    lemma_push_contains(before, vv[i as int], w);
                }
            }
        }
        i += 1;
    }
    proof {
        assert(vv.take(v.len() as int) =~= vv);
    }
    r
}

fn clone_block(b: &SearchReplaceBlock) -> (r: SearchReplaceBlock)
    ensures
        r@ == b@,
        r.search_lines.len() == b.search_lines.len(),
{
    proof {
        lemma_dv(b.search_lines);
        lemma_dv(b.replace_lines);
    }
    let s = copy_strings(b.search_lines.as_slice(), 0, b.search_lines.len());
    let t = copy_strings(b.replace_lines.as_slice(), 0, b.replace_lines.len());
    proof {
        assert(b.search_lines@.map_values(|x: String| x@).subrange(0, b.search_lines.len() as int)
            =~= b.search_lines@.map_values(|x: String| x@));
        assert(b.replace_lines@.map_values(|x: String| x@).subrange(0, b.replace_lines.len() as int)
            =~= b.replace_lines@.map_values(|x: String| x@));
        lemma_dv(s);
    }
    SearchReplaceBlock { search_lines: s, replace_lines: t, occurrence_index: b.occurrence_index }
}

/// Applies the blocks all at once; when that fails and there are several
/// blocks, logs that it retries and applies them one at a time, which stops at
/// the same failing block with the same error.
pub fn apply_search_replace_with_fallback<F: Fn(&str) + Clone>(
    original_content: &str,
    blocks: &[SearchReplaceBlock],
    logger: F,
) -> (r: Result<(String, Vec<String>), SearchReplaceError>)
    requires
        apply_file_fold(original_content@, fblocks_view(blocks@), blocks@.len()) is Some,
        blocks_fit(blocks@),
        forall|s: &str| call_requires(logger, (s,)),
    ensures
        file_edit_answer(original_content@, fblocks_view(blocks@), r),
{
    let ghost bv = fblocks_view(blocks@);
    let ghost c0 = original_content@;
    match apply_with_logger(original_content, blocks, &logger) {
        Ok(res) => Ok(res),
        Err(err) => {
            if blocks.len() <= 1 {
                return Err(err);
            }
            logger("Trying blocks individually in sequence...");
            let mut current = crate::text::owned(original_content);
            let mut all_warnings: Vec<String> = Vec::new();
            let ghost mut ws: Seq<Seq<char>> = seq![];
            let mut k: usize = 0;
            while k < blocks.len()
                invariant
                    k <= blocks.len(),
                    bv == fblocks_view(blocks@),
                    bv.len() == blocks.len(),
                    c0 == original_content@,
                    blocks_fit(blocks@),
                    forall|s: &str| call_requires(logger, (s,)),
                    apply_file_fold(c0, bv, bv.len()) matches Some(Err(_)),
                    apply_file_fold(c0, bv, k as nat) == Some(
                        Ok::<(Seq<char>, Seq<Seq<char>>), FileErrView>((current@, ws)),
                    ),
                decreases blocks.len() - k,
            {
                let single = vec![clone_block(&blocks[k])];
                proof {
                    assert(bv[k as int] == blocks@[k as int]@);
                    assert(blocks@.contains(blocks@[k as int]));
                    assert(fblocks_view(single@) =~= seq![bv[k as int]]);
                    if !(apply_file_fold(c0, bv, (k + 1) as nat) matches Some(Ok(_))) {
                        lemma_file_fold_stuck(c0, bv, (k + 1) as nat, bv.len());
                    }
                    assert(apply_file_fold(current@, fblocks_view(single@), 0) == Some(
                        Ok::<(Seq<char>, Seq<Seq<char>>), FileErrView>((current@, Seq::<Seq<char>>::empty())),
                    ));
                    assert(apply_file_fold(current@, fblocks_view(single@), 1) == match apply_file_block(
                        current@,
                        bv[k as int],
                    ) {
                        Some(Ok((c2, w2))) => Some(
                            Ok::<(Seq<char>, Seq<Seq<char>>), FileErrView>((c2, Seq::<Seq<char>>::empty() + w2)),
                        ),
                        other => other,
                    });
                }
                match apply_with_logger(current.as_str(), single.as_slice(), &logger) {
                    Ok((c, w)) => {
                        proof {
                            let step = apply_file_block(current@, bv[k as int]);
                            ws = ws + step->0->Ok_0.1;
                        }
                        current = c;
                        let mut i: usize = 0;
                        while i < w.len()
                            invariant
                                i <= w.len(),
                            decreases w.len() - i,
                        {
                            let x = crate::text::owned(w[i].as_str());
                            all_warnings.push(x);
                            i += 1;
                        }
                    },
                    Err(e) => {
                        proof {
                            if k + 1 < bv.len() {
                                lemma_file_fold_stuck(c0, bv, (k + 1) as nat, bv.len());
                            }
                        }
                        return Err(e);
                    },
                }
                k += 1;
            }
            proof {
                assert(false);
            }
            Ok((current, all_warnings))
        },
    }
}


// ---------------------------------------------------------------------------
// Uniqueness of a search block
// ---------------------------------------------------------------------------

/// Whether a search block picks out exactly one place in some content.
#[derive(Debug)]
pub enum UniquenessCheck {
    /// The one place the block matches.
    Unique(MatchResult),
    /// The block matches several places: how many, the line ranges of the
    /// first four, and the block followed by advice on making it unique.
    MultipleMatches { count: usize, sample_matches: Vec<(usize, usize)>, block_content: String },
    /// The block matches nowhere (how close the nearest lines come is a
    /// similarity measure the caller computes).
    NotFound,
}

/// The advice appended to a search block of `n` lines that matches several
/// places.
pub open spec fn uniqueness_advice(n: nat) -> Seq<char> {
    if n < 3 {
        "\n\nSUGGESTION: This search block is very short (less than 3 lines), which increases the chance of multiple matches. Try including more unique context."@
    } else if n < 5 {
        "\n\nSUGGESTION: Include more unique lines around your block to make the match unique."@
    } else {
        "\n\nSUGGESTION: Your block has good length but still matches multiple locations. Check for repeated patterns in the file."@
    }
}

/// The line ranges of the first four matches.
pub open spec fn sample_ranges(ms: Seq<MatchResult>) -> Seq<(usize, usize)> {
    let k = if ms.len() < 4 { ms.len() as int } else { 4 };
    ms.take(k).map_values(|m: MatchResult| (m.range_start, m.range_end))
}

/// Checks whether `search_block` matches exactly one place in `content`,
/// with the same whitespace tolerances that applying an edit uses.
pub fn verify_search_block_uniqueness(content: &str, search_block: &str) -> (r: UniquenessCheck)
    requires
        search_block@.len() < 0x0100_0000_0000_0000,
    ensures
        ({
            let c = lines(content@);
            let s = lines(search_block@);
            let ms = find_matches_file(c, s);
            &&& s.len() == 0 ==> r is NotFound
            &&& s.len() > 0 ==> (r is NotFound <==> ms.len() == 0)
            &&& s.len() > 0 && ms.len() == 1 ==> r == UniquenessCheck::Unique(ms[0])
            &&& s.len() > 0 && ms.len() > 1 ==> (r matches UniquenessCheck::MultipleMatches {
                count,
                sample_matches,
                block_content,
            } && count == ms.len() && sample_matches@ == sample_ranges(ms) && block_content@
                == search_block@ + uniqueness_advice(s.len()))
        }),
{
    let content_lines = crate::text::split_lines(content);
    let search_lines = crate::text::split_lines(search_block);
    proof {
        lemma_dv(content_lines);
        lemma_dv(search_lines);
        crate::text::lemma_lines_count(search_block@);
    }
    if search_lines.len() == 0 {
        return UniquenessCheck::NotFound;
    }
    let matches = find_matches(content_lines.as_slice(), search_lines.as_slice());
    if matches.len() == 0 {
        return UniquenessCheck::NotFound;
    }
    if matches.len() == 1 {
        return UniquenessCheck::Unique(matches[0]);
    }
    let k: usize = if matches.len() < 4 { matches.len() } else { 4 };
    let mut samples: Vec<(usize, usize)> = Vec::new();
    let mut i: usize = 0;
    while i < k
        invariant
            i <= k <= matches.len(),
            k == (if matches.len() < 4 { matches.len() } else { 4 }),
            samples@ == matches@.take(i as int).map_values(
                |m: MatchResult| (m.range_start, m.range_end),
            ),
        decreases k - i,
    {
        let m = matches[i];
        samples.push((m.range_start, m.range_end));
        proof {
            assert(matches@.take(i + 1) =~= matches@.take(i as int).push(m));
            assert(matches@.take(i + 1).map_values(|m: MatchResult| (m.range_start, m.range_end))
                =~= matches@.take(i as int).map_values(
                |m: MatchResult| (m.range_start, m.range_end),
            ).push((m.range_start, m.range_end)));
        }
        i += 1;
    }
    let advice: &str = if search_lines.len() < 3 {
        "\n\nSUGGESTION: This search block is very short (less than 3 lines), which increases the chance of multiple matches. Try including more unique context."
    } else if search_lines.len() < 5 {
        "\n\nSUGGESTION: Include more unique lines around your block to make the match unique."
    } else {
        "\n\nSUGGESTION: Your block has good length but still matches multiple locations. Check for repeated patterns in the file."
    };
    let mut text: Vec<char> = Vec::new();
    push_str(&mut text, search_block);
    push_str(&mut text, advice);
    UniquenessCheck::MultipleMatches {
        count: matches.len(),
        sample_matches: samples,
        block_content: from_chars(text.as_slice()),
    }
}


/// Every tolerance level only drops whitespace (the text is the same once
/// all whitespace is dropped), and applying a level twice changes nothing
/// more.
pub proof fn law_tolerance_drops_only_whitespace(l: ToleranceLevel, s: Seq<char>)
    ensures
        ToleranceLevel::IgnoreAllWhitespace.normalize(l.normalize(s)) == ToleranceLevel::IgnoreAllWhitespace.normalize(s),
        l.normalize(l.normalize(s)) == l.normalize(s),
{
    crate::text::lemma_trim_start_laws(s);
    crate::text::lemma_trim_end_laws(s);
    crate::text::lemma_strip_ws_idempotent(s);
}

} // verus!
