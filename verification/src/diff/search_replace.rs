//! Line-based search/replace edit blocks with whitespace tolerance.
//!
//! Blocks are written either with markers
//! (`<<<<<<< SEARCH` / `=======` / `>>>>>>> REPLACE`) or with
//! `search:` / `replace:` prefix lines. A block is applied to the first place
//! where its search lines match, trying exact matching first and then
//! increasingly whitespace-tolerant comparisons.
use vstd::prelude::*;
use crate::markers::{is_marker, marker_match};
use crate::text::{
    byte_len, byte_len_of, char_count_at_byte, char_count_at_byte_exec, chars_blank,
    count_leading_ws, decimal, from_chars, is_blank, join, join_lines, leading_ws, lines, nl,
    push_chars, push_decimal, push_str, slice_chars, split_lines_chars, strip_ws, strip_ws_chars,
    to_chars, trim, trim_chars, trim_end, trim_end_chars, trim_start, trim_start_chars,
};

verus! {

// ---------------------------------------------------------------------------
// Tolerance levels
// ---------------------------------------------------------------------------

/// Defines tolerance levels for matching
#[derive(Debug, Clone, Copy, PartialEq, Eq, Structural)]
pub enum ToleranceLevel {
    /// Exact match
    Exact,
    /// Ignore trailing whitespace
    IgnoreTrailingWhitespace,
    /// Ignore leading whitespace (indentation)
    IgnoreLeadingWhitespace,
    /// Ignore all whitespace
    IgnoreAllWhitespace,
}

impl ToleranceLevel {
    /// How a line is normalised before comparison at this level.
    pub open spec fn normalize(self, s: Seq<char>) -> Seq<char> {
        match self {
            ToleranceLevel::Exact => s,
            ToleranceLevel::IgnoreTrailingWhitespace => trim_end(s),
            ToleranceLevel::IgnoreLeadingWhitespace => trim_start(s),
            ToleranceLevel::IgnoreAllWhitespace => strip_ws(s),
        }
    }

    pub open spec fn message_text(self) -> Seq<char> {
        match self {
            ToleranceLevel::Exact => "Exact match"@,
            ToleranceLevel::IgnoreTrailingWhitespace => "Ignoring trailing whitespace"@,
            ToleranceLevel::IgnoreLeadingWhitespace => "Ignoring indentation"@,
            ToleranceLevel::IgnoreAllWhitespace => "Ignoring all whitespace"@,
        }
    }

    /// The level's score; lower is better.
    pub open spec fn rank(self) -> u32 {
        match self {
            ToleranceLevel::Exact => 0,
            ToleranceLevel::IgnoreTrailingWhitespace => 1,
            ToleranceLevel::IgnoreLeadingWhitespace => 5,
            ToleranceLevel::IgnoreAllWhitespace => 10,
        }
    }

    /// Applies this level's line normalisation to `line`.
    pub fn processor(&self, line: &str) -> (r: String)
        ensures
            r@ == self.normalize(line@),
    {
        let v = to_chars(line);
        let out = self.process_chars(v.as_slice());
        from_chars(out.as_slice())
    }

    pub fn process_chars(&self, line: &[char]) -> (r: Vec<char>)
        ensures
            r@ == self.normalize(line@),
    {
        match self {
            ToleranceLevel::Exact => slice_chars(line, 0, line.len()),
            ToleranceLevel::IgnoreTrailingWhitespace => trim_end_chars(line),
            ToleranceLevel::IgnoreLeadingWhitespace => trim_start_chars(line),
            ToleranceLevel::IgnoreAllWhitespace => strip_ws_chars(line),
        }
    }

    /// Returns a descriptive message for this tolerance level
    pub fn message(&self) -> (m: &'static str)
        ensures
            m@ == self.message_text(),
    {
        match self {
            ToleranceLevel::Exact => "Exact match",
            ToleranceLevel::IgnoreTrailingWhitespace => "Ignoring trailing whitespace",
            ToleranceLevel::IgnoreLeadingWhitespace => "Ignoring indentation",
            ToleranceLevel::IgnoreAllWhitespace => "Ignoring all whitespace",
        }
    }

    /// Returns whether this tolerance level should generate a warning
    pub fn should_warn(&self) -> (b: bool)
        ensures
            b == (*self != ToleranceLevel::Exact),
    {
        match self {
            ToleranceLevel::Exact => false,
            _ => true,
        }
    }

    /// Returns the score for this tolerance level (lower is better)
    pub fn score(&self) -> (s: u32)
        ensures
            s == self.rank(),
    {
        match self {
            ToleranceLevel::Exact => 0,
            ToleranceLevel::IgnoreTrailingWhitespace => 1,
            ToleranceLevel::IgnoreLeadingWhitespace => 5,
            ToleranceLevel::IgnoreAllWhitespace => 10,
        }
    }
}

/// The order in which tolerance levels are tried.
pub open spec fn level_at(k: int) -> ToleranceLevel {
    if k == 0 {
        ToleranceLevel::Exact
    } else if k == 1 {
        ToleranceLevel::IgnoreTrailingWhitespace
    } else if k == 2 {
        ToleranceLevel::IgnoreLeadingWhitespace
    } else {
        ToleranceLevel::IgnoreAllWhitespace
    }
}

fn level_exec(k: usize) -> (l: ToleranceLevel)
    ensures
        l == level_at(k as int),
{
    if k == 0 {
        ToleranceLevel::Exact
    } else if k == 1 {
        ToleranceLevel::IgnoreTrailingWhitespace
    } else if k == 2 {
        ToleranceLevel::IgnoreLeadingWhitespace
    } else {
        ToleranceLevel::IgnoreAllWhitespace
    }
}

/// Represents a match with tolerance
#[derive(Debug, Clone, Copy)]
pub struct ToleranceMatch {
    /// The tolerance level applied
    pub level: ToleranceLevel,
    /// The match score (lower is better)
    pub score: u32,
    /// Line range matched (start, end), both inclusive
    pub range: (usize, usize),
    /// Whether this should generate a warning
    pub has_warning: bool,
}

impl ToleranceMatch {
    pub open spec fn of(level: ToleranceLevel, range: (usize, usize)) -> ToleranceMatch {
        ToleranceMatch {
            level,
            score: level.rank(),
            range,
            has_warning: level != ToleranceLevel::Exact,
        }
    }

    /// Creates a new ToleranceMatch instance
    pub fn new(level: ToleranceLevel, range: (usize, usize)) -> (m: Self)
        ensures
            m == Self::of(level, range),
    {
        ToleranceMatch {
            level,
            score: level.score(),
            range,
            has_warning: level.should_warn(),
        }
    }

    pub open spec fn warning_text(self) -> Seq<char> {
        "Warning: "@ + self.level.message_text() + " for block at lines "@ + decimal(
            (self.range.0 + 1) as nat,
        ) + "-"@ + decimal((self.range.1 + 1) as nat)
    }

    /// Returns a warning message for this match, if applicable
    pub fn warning_message(&self) -> (r: Option<String>)
        requires
            self.has_warning ==> self.range.0 < usize::MAX && self.range.1 < usize::MAX,
        ensures
            self.has_warning ==> r is Some && r->0@ == self.warning_text(),
            !self.has_warning ==> r is None,
    {
        if self.has_warning {
            let mut v: Vec<char> = Vec::new();
            push_str(&mut v, "Warning: ");
            push_str(&mut v, self.level.message());
            push_str(&mut v, " for block at lines ");
            push_decimal(&mut v, (self.range.0 + 1) as u64);
            push_str(&mut v, "-");
            push_decimal(&mut v, (self.range.1 + 1) as u64);
            Some(from_chars(v.as_slice()))
        } else {
            None
        }
    }
}

// ---------------------------------------------------------------------------
// Blocks and results
// ---------------------------------------------------------------------------

/// Represents a search/replace block for file editing
#[derive(Debug, Clone)]
pub struct SearchReplaceBlock {
    /// Search lines
    pub search_lines: Vec<String>,
    /// Replacement lines
    pub replace_lines: Vec<String>,
}

impl View for SearchReplaceBlock {
    type V = (Seq<Seq<char>>, Seq<Seq<char>>);

    open spec fn view(&self) -> (Seq<Seq<char>>, Seq<Seq<char>>) {
        (self.search_lines.deep_view(), self.replace_lines.deep_view())
    }
}

pub open spec fn render_lines(ls: Seq<Seq<char>>) -> Seq<char>
    decreases ls.len(),
{
    if ls.len() == 0 {
        seq![]
    } else {
        render_lines(ls.drop_last()) + ls.last() + nl()
    }
}

fn push_rendered_lines(out: &mut Vec<char>, ls: &Vec<String>)
    ensures
        final(out)@ == old(out)@ + render_lines(ls.deep_view()),
{
    let ghost start = out@;
    let mut i: usize = 0;
    while i < ls.len()
        invariant
            i <= ls.len(),
            out@ == start + render_lines(ls.deep_view().take(i as int)),
        decreases ls.len() - i,
    {
        proof {
            assert(ls.deep_view().take(i + 1).drop_last() =~= ls.deep_view().take(i as int));
        }
        push_str(out, ls[i].as_str());
        out.push('\n');
        i += 1;
        proof {
            assert(out@ =~= start + render_lines(ls.deep_view().take(i as int)));
        }
    }
    proof {
        assert(ls.deep_view().take(ls.len() as int) =~= ls.deep_view());
    }
}

impl SearchReplaceBlock {
    pub open spec fn rendered(self) -> Seq<char> {
        "<<<<<<< SEARCH\n"@ + render_lines(self.search_lines.deep_view()) + "=======\n"@
            + render_lines(self.replace_lines.deep_view()) + ">>>>>>> REPLACE\n"@
    }

    /// The block in marker format, one line per line and each ending in a newline
    /// (what the block's `Display` prints).
    pub fn render(&self) -> (s: String)
        ensures
            s@ == self.rendered(),
    {
        let mut v: Vec<char> = Vec::new();
        push_str(&mut v, "<<<<<<< SEARCH\n");
        push_rendered_lines(&mut v, &self.search_lines);
        push_str(&mut v, "=======\n");
        push_rendered_lines(&mut v, &self.replace_lines);
        push_str(&mut v, ">>>>>>> REPLACE\n");
        from_chars(v.as_slice())
    }
}

/// Result of an edit operation
#[derive(Debug, Clone)]
pub struct EditResult {
    /// Edited content
    pub content: String,
    /// Warnings generated during editing
    pub warnings: Vec<String>,
    /// Whether changes were made
    pub changes_made: bool,
}

/// Syntax error for search/replace blocks
#[derive(Debug)]
pub struct SearchReplaceSyntaxError {
    pub message: String,
    pub line_number: Option<usize>,
}

/// A spec-level error: message and optional 1-based line number.
pub type ErrorView = (Seq<char>, Option<nat>);

/// A spec-level block: search lines and replacement lines.
pub type BlockView = (Seq<Seq<char>>, Seq<Seq<char>>);

impl SearchReplaceSyntaxError {
    pub open spec fn view_err(self) -> ErrorView {
        (
            self.message@,
            match self.line_number {
                Some(n) => Some(n as nat),
                None => None,
            },
        )
    }

    pub open spec fn display(self) -> Seq<char> {
        match self.line_number {
            Some(n) => "Syntax error at line "@ + decimal(n as nat) + ": "@ + self.message@,
            None => "Syntax error: "@ + self.message@,
        }
    }

    fn build(message: Vec<char>, line_number: Option<usize>) -> (e: Self)
        ensures
            e.message@ == message@,
            e.line_number == line_number,
    {
        SearchReplaceSyntaxError { message: from_chars(message.as_slice()), line_number }
    }

    /// The error's text, as its `Display` prints it.
    pub fn to_text(&self) -> (s: String)
        ensures
            s@ == self.display(),
    {
        let mut v: Vec<char> = Vec::new();
        match self.line_number {
            Some(n) => {
                push_str(&mut v, "Syntax error at line ");
                push_decimal(&mut v, n as u64);
                push_str(&mut v, ": ");
            },
            None => {
                push_str(&mut v, "Syntax error: ");
            },
        }
        push_str(&mut v, self.message.as_str());
        from_chars(v.as_slice())
    }
}

// ---------------------------------------------------------------------------
// Marker grammar
// ---------------------------------------------------------------------------

pub open spec fn search_word() -> Seq<char> {
    seq!['S', 'E', 'A', 'R', 'C', 'H']
}

pub open spec fn replace_word() -> Seq<char> {
    seq!['R', 'E', 'P', 'L', 'A', 'C', 'E']
}

/// `^<{7,}\s*SEARCH\s*$`
pub open spec fn is_search_line(l: Seq<char>) -> bool {
    is_marker(l, '<', 7, search_word())
}

/// `^={7,}\s*$`
pub open spec fn is_divider_line(l: Seq<char>) -> bool {
    is_marker(l, '=', 7, seq![])
}

/// `^>{7,}\s*REPLACE\s*$`
pub open spec fn is_replace_line(l: Seq<char>) -> bool {
    is_marker(l, '>', 7, replace_word())
}

pub open spec fn is_any_marker(l: Seq<char>) -> bool {
    is_search_line(l) || is_divider_line(l) || is_replace_line(l)
}

fn search_line(l: &[char]) -> (b: bool)
    ensures
        b == is_search_line(l@),
{
    let w = vec!['S', 'E', 'A', 'R', 'C', 'H'];
    proof {
        assert(w@ =~= search_word());
    }
    marker_match(l, '<', 7, w.as_slice())
}

fn divider_line(l: &[char]) -> (b: bool)
    ensures
        b == is_divider_line(l@),
{
    let w: Vec<char> = Vec::new();
    proof {
        assert(w@ =~= Seq::<char>::empty());
    }
    marker_match(l, '=', 7, w.as_slice())
}

fn replace_line(l: &[char]) -> (b: bool)
    ensures
        b == is_replace_line(l@),
{
    let w = vec!['R', 'E', 'P', 'L', 'A', 'C', 'E'];
    proof {
        assert(w@ =~= replace_word());
    }
    marker_match(l, '>', 7, w.as_slice())
}

/// First index `>= j` holding any marker, or the number of lines.
pub open spec fn next_marker(ls: Seq<Seq<char>>, j: int) -> int
    decreases ls.len() - j,
{
    if j < 0 || j >= ls.len() {
        ls.len() as int
    } else if is_any_marker(ls[j]) {
        j
    } else {
        next_marker(ls, j + 1)
    }
}

pub proof fn lemma_next_marker(ls: Seq<Seq<char>>, j: int)
    requires
        0 <= j,
    ensures
        j <= next_marker(ls, j) || j > ls.len(),
        next_marker(ls, j) <= ls.len(),
        next_marker(ls, j) < ls.len() ==> is_any_marker(ls[next_marker(ls, j)]),
    decreases ls.len() - j,
{
    if j < ls.len() && !is_any_marker(ls[j]) {
        lemma_next_marker(ls, j + 1);
    }
}

pub open spec fn with_prefix(b: Seq<BlockView>, r: Result<Seq<BlockView>, ErrorView>) -> Result<
    Seq<BlockView>,
    ErrorView,
> {
    match r {
        Ok(x) => Ok(b + x),
        Err(e) => Err(e),
    }
}

/// Blocks in the marker format from line `i` on, or the first syntax error.
pub open spec fn scan_markers(ls: Seq<Seq<char>>, i: int) -> Result<Seq<BlockView>, ErrorView>
    decreases ls.len() - i,
{
    if i < 0 || i >= ls.len() {
        Ok(seq![])
    } else if is_search_line(ls[i]) {
        let d = next_marker(ls, i + 1);
        if d >= ls.len() {
            Err(("Unclosed SEARCH block - missing ======= marker"@, Some((i + 1) as nat)))
        } else if !is_divider_line(ls[d]) {
            Err(("Unexpected marker in SEARCH block: "@ + ls[d], Some((d + 1) as nat)))
        } else if d == i + 1 {
            Err(("SEARCH block cannot be empty"@, Some((i + 1) as nat)))
        } else {
            let r = next_marker(ls, d + 1);
            if r >= ls.len() {
                Err(("Unclosed block - missing REPLACE marker"@, Some((i + 1) as nat)))
            } else if !is_replace_line(ls[r]) {
                Err(("Unexpected marker in REPLACE block: "@ + ls[r], Some((r + 1) as nat)))
            } else {
                proof {
                    lemma_next_marker(ls, i + 1);
                    lemma_next_marker(ls, d + 1);
                }
                with_prefix(
                    seq![(ls.subrange(i + 1, d), ls.subrange(d + 1, r))],
                    scan_markers(ls, r + 1),
                )
            }
        }
    } else if is_replace_line(ls[i]) || is_divider_line(ls[i]) {
        Err(("Unexpected marker outside a block: "@ + ls[i], Some((i + 1) as nat)))
    } else {
        scan_markers(ls, i + 1)
    }
}

/// What parsing the marker format gives for the lines `ls`.
pub open spec fn parse_markers_spec(ls: Seq<Seq<char>>) -> Result<Seq<BlockView>, ErrorView> {
    match scan_markers(ls, 0) {
        Ok(b) => if b.len() == 0 {
            Err(("No valid search/replace blocks found in marker format"@, None))
        } else {
            Ok(b)
        },
        Err(e) => Err(e),
    }
}

pub open spec fn blocks_view(v: Seq<SearchReplaceBlock>) -> Seq<BlockView> {
    v.map_values(|b: SearchReplaceBlock| b@)
}

pub open spec fn result_view(r: Result<Vec<SearchReplaceBlock>, SearchReplaceSyntaxError>) -> Result<
    Seq<BlockView>,
    ErrorView,
> {
    match r {
        Ok(v) => Ok(blocks_view(v@)),
        Err(e) => Err(e.view_err()),
    }
}

pub open spec fn char_lines(ls: Seq<Vec<char>>) -> Seq<Seq<char>> {
    ls.map_values(|l: Vec<char>| l@)
}

fn next_marker_exec(ls: &Vec<Vec<char>>, j: usize) -> (k: usize)
    ensures
        k as int == next_marker(char_lines(ls@), j as int),
        j <= k || j > ls.len(),
        k <= ls.len(),
{
    let ghost lv = char_lines(ls@);
    let mut k = j;
    if k > ls.len() {
        return ls.len();
    }
    while k < ls.len() && !(search_line(ls[k].as_slice()) || divider_line(ls[k].as_slice())
        || replace_line(ls[k].as_slice()))
        invariant
            j <= k <= ls.len(),
            lv == char_lines(ls@),
            next_marker(lv, j as int) == next_marker(lv, k as int),
        decreases ls.len() - k,
    {
        k += 1;
    }
    k
}

/// Owned copies of the lines `ls[from..to]`.
fn lines_to_strings(ls: &Vec<Vec<char>>, from: usize, to: usize) -> (out: Vec<String>)
    requires
        from <= to <= ls.len(),
    ensures
        out.deep_view() == char_lines(ls@).subrange(from as int, to as int),
{
    let mut out: Vec<String> = Vec::new();
    let mut i = from;
    while i < to
        invariant
            from <= i <= to,
            to <= ls.len(),
            out.deep_view() =~= char_lines(ls@).subrange(from as int, i as int),
        decreases to - i,
    {
        let s = from_chars(ls[i].as_slice());
        let ghost old_out = out.deep_view();
        out.push(s);
        proof {
            assert(out.deep_view() =~= old_out.push(s@));
        }
        i += 1;
    }
    out
}

fn err_with_line(prefix: &str, line: &[char], at: usize) -> (e: SearchReplaceSyntaxError)
    ensures
        e.view_err() == (prefix@ + line@, Some(at as nat)),
{
    let mut m: Vec<char> = Vec::new();
    push_str(&mut m, prefix);
    push_chars(&mut m, line);
    SearchReplaceSyntaxError::build(m, Some(at))
}

fn err_plain(msg: &str, at: Option<usize>) -> (e: SearchReplaceSyntaxError)
    ensures
        e.message@ == msg@,
        e.line_number == at,
{
    let mut m: Vec<char> = Vec::new();
    push_str(&mut m, msg);
    SearchReplaceSyntaxError::build(m, at)
}

/// Parse blocks using the standard marker format (<<<<<<< SEARCH)
fn parse_marker_format(text: &str) -> (r: Result<Vec<SearchReplaceBlock>, SearchReplaceSyntaxError>)
    ensures
        result_view(r) == parse_markers_spec(lines(text@)),
{
    let tv = to_chars(text);
    let ls = split_lines_chars(tv.as_slice());
    let ghost lv = char_lines(ls@);
    assert(lv == lines(text@));
    let n = ls.len();
    let mut blocks: Vec<SearchReplaceBlock> = Vec::new();
    let mut i: usize = 0;
    proof {
        assert(blocks_view(blocks@) + Seq::<BlockView>::empty() =~= Seq::<BlockView>::empty());
        assert(with_prefix(blocks_view(blocks@), scan_markers(lv, 0)) == scan_markers(lv, 0)) by {
            match scan_markers(lv, 0) {
                Ok(x) => {
                    assert(blocks_view(blocks@) + x =~= x);
                },
                Err(e) => {},
            }
        }
    }
    while i < n
        invariant
            n == ls.len(),
            i <= n,
            lv == char_lines(ls@),
            lv == lines(text@),
            lv.len() == n,
            scan_markers(lv, 0) == with_prefix(blocks_view(blocks@), scan_markers(lv, i as int)),
        decreases n - i,
    {
        proof {
            assert(lv[i as int] == ls@[i as int]@);
        }
        if search_line(ls[i].as_slice()) {
            let d = next_marker_exec(&ls, i + 1);
            proof {
                if d < n {
                    assert(lv[d as int] == ls@[d as int]@);
                }
            }
            if d >= n {
                let e = err_plain("Unclosed SEARCH block - missing ======= marker", Some(i + 1));
                return Err(e);
            }
            if !divider_line(ls[d].as_slice()) {
                let e = err_with_line("Unexpected marker in SEARCH block: ", ls[d].as_slice(), d + 1);
                return Err(e);
            }
            if d == i + 1 {
                let e = err_plain("SEARCH block cannot be empty", Some(i + 1));
                return Err(e);
            }
            let r = next_marker_exec(&ls, d + 1);
            proof {
                if r < n {
                    assert(lv[r as int] == ls@[r as int]@);
                }
            }
            if r >= n {
                let e = err_plain("Unclosed block - missing REPLACE marker", Some(i + 1));
                return Err(e);
            }
            if !replace_line(ls[r].as_slice()) {
                let e = err_with_line("Unexpected marker in REPLACE block: ", ls[r].as_slice(), r + 1);
                return Err(e);
            }
            let search_lines = lines_to_strings(&ls, i + 1, d);
            let replace_lines = lines_to_strings(&ls, d + 1, r);
            let block = SearchReplaceBlock { search_lines, replace_lines };
            let ghost prev = blocks_view(blocks@);
            blocks.push(block);
            proof {
                assert(blocks_view(blocks@) =~= prev.push(block@));
                let bv = seq![(lv.subrange(i + 1, d as int), lv.subrange(d + 1, r as int))];
                assert(block@ == bv[0]);
                assert(scan_markers(lv, i as int) == with_prefix(bv, scan_markers(lv, r + 1)));
                match scan_markers(lv, r + 1) {
                    Ok(x) => {
                        assert(prev + (bv + x) =~= prev.push(block@) + x);
                    },
                    Err(e) => {},
                }
            }
            i = r + 1;
        } else {
            if replace_line(ls[i].as_slice()) || divider_line(ls[i].as_slice()) {
                let e = err_with_line("Unexpected marker outside a block: ", ls[i].as_slice(), i + 1);
                return Err(e);
            }
            i += 1;
        }
    }
    proof {
        assert(scan_markers(lv, n as int) == Ok::<Seq<BlockView>, ErrorView>(seq![]));
        assert(blocks_view(blocks@) + Seq::<BlockView>::empty() =~= blocks_view(blocks@));
    }
    if blocks.len() == 0 {
        let e = err_plain("No valid search/replace blocks found in marker format", None);
        return Err(e);
    }
    Ok(blocks)
}

// ---------------------------------------------------------------------------
// The `search:` / `replace:` prefix format
// ---------------------------------------------------------------------------

/// Parser state: in a search part, in a replace part, the pending search lines,
/// the pending replacement lines, the finished blocks, and the 1-based line of
/// the last `search:`.
pub type PrefixState = (bool, bool, Seq<Seq<char>>, Seq<Seq<char>>, Seq<BlockView>, nat);

pub open spec fn search_key() -> Seq<char> {
    seq!['s', 'e', 'a', 'r', 'c', 'h', ':']
}

pub open spec fn replace_key() -> Seq<char> {
    seq!['r', 'e', 'p', 'l', 'a', 'c', 'e', ':']
}

/// One line of the prefix format; `i` is its 0-based index.
pub open spec fn prefix_step(st: PrefixState, line: Seq<char>, i: nat) -> Result<
    PrefixState,
    ErrorView,
> {
    let (in_search, in_replace, cur_s, cur_r, blocks, line_num) = st;
    let t = trim(line);
    if t == search_key() {
        if cur_s.len() > 0 && in_replace {
            Ok((true, false, seq![], seq![], blocks.push((cur_s, cur_r)), i + 1))
        } else if in_search {
            Err(
                (
                    "Found 'search:' without matching 'replace:' for previous block"@,
                    Some(i + 1),
                ),
            )
        } else {
            Ok((true, false, cur_s, cur_r, blocks, i + 1))
        }
    } else if t == replace_key() {
        if !in_search || cur_s.len() == 0 {
            Err(("Found 'replace:' without preceding 'search:' block"@, Some(i + 1)))
        } else {
            Ok((false, true, cur_s, cur_r, blocks, line_num))
        }
    } else if in_search {
        Ok((in_search, in_replace, cur_s.push(line), cur_r, blocks, line_num))
    } else if in_replace {
        Ok((in_search, in_replace, cur_s, cur_r.push(line), blocks, line_num))
    } else {
        Ok(st)
    }
}

/// State after the first `k` lines, or the first error.
pub open spec fn prefix_fold(ls: Seq<Seq<char>>, k: nat) -> Result<PrefixState, ErrorView>
    decreases k,
{
    if k == 0 || k > ls.len() {
        Ok((false, false, seq![], seq![], seq![], 0))
    } else {
        match prefix_fold(ls, (k - 1) as nat) {
            Ok(st) => prefix_step(st, ls[k - 1], (k - 1) as nat),
            Err(e) => Err(e),
        }
    }
}

pub proof fn lemma_prefix_fold_err(ls: Seq<Seq<char>>, k: nat, m: nat)
    requires
        1 <= k <= m <= ls.len(),
        prefix_fold(ls, k) is Err,
    ensures
        prefix_fold(ls, m) == prefix_fold(ls, k),
    decreases m - k,
{
    if m > k {
        lemma_prefix_fold_err(ls, k, (m - 1) as nat);
    }
}

/// What parsing the prefix format gives for the lines `ls`.
pub open spec fn parse_prefix_spec(ls: Seq<Seq<char>>) -> Result<Seq<BlockView>, ErrorView> {
    match prefix_fold(ls, ls.len()) {
        Err(e) => Err(e),
        Ok((in_search, in_replace, cur_s, cur_r, blocks, line_num)) => {
            if in_search && cur_s.len() > 0 {
                Err(("Missing 'replace:' for last search block"@, Some(line_num)))
            } else {
                let all = if cur_s.len() > 0 && cur_r.len() > 0 {
                    blocks.push((cur_s, cur_r))
                } else {
                    blocks
                };
                if all.len() == 0 {
                    Err(("No valid search/replace blocks found in prefix format"@, None))
                } else {
                    Ok(all)
                }
            }
        },
    }
}

fn push_line(v: &mut Vec<String>, line: &[char])
    ensures
        final(v).deep_view() == old(v).deep_view().push(line@),
{
    let s = from_chars(line);
    v.push(s);
    proof {
        assert(v.deep_view() =~= old(v).deep_view().push(line@));
    }
}

/// Parse blocks using the alternative format with "search:" and "replace:" prefixes
fn parse_prefix_format(text: &str) -> (r: Result<Vec<SearchReplaceBlock>, SearchReplaceSyntaxError>)
    ensures
        result_view(r) == parse_prefix_spec(lines(text@)),
{
    let tv = to_chars(text);
    let ls = split_lines_chars(tv.as_slice());
    let ghost lv = char_lines(ls@);
    let skey = vec!['s', 'e', 'a', 'r', 'c', 'h', ':'];
    let rkey = vec!['r', 'e', 'p', 'l', 'a', 'c', 'e', ':'];
    proof {
        assert(skey@ =~= search_key());
        assert(rkey@ =~= replace_key());
    }
    let mut blocks: Vec<SearchReplaceBlock> = Vec::new();
    let mut in_search = false;
    let mut in_replace = false;
    let mut cur_s: Vec<String> = Vec::new();
    let mut cur_r: Vec<String> = Vec::new();
    let mut line_num: usize = 0;
    let mut i: usize = 0;
    proof {
        assert(cur_s.deep_view() =~= Seq::<Seq<char>>::empty());
        assert(cur_r.deep_view() =~= Seq::<Seq<char>>::empty());
        assert(blocks_view(blocks@) =~= Seq::<BlockView>::empty());
    }
    while i < ls.len()
        invariant
            i <= ls.len(),
            lv == char_lines(ls@),
            lv == lines(text@),
            skey@ == search_key(),
            rkey@ == replace_key(),
            prefix_fold(lv, i as nat) == Ok::<PrefixState, ErrorView>(
                (
                    in_search,
                    in_replace,
                    cur_s.deep_view(),
                    cur_r.deep_view(),
                    blocks_view(blocks@),
                    line_num as nat,
                ),
            ),
            line_num <= i,
        decreases ls.len() - i,
    {
        proof {
            assert(lv[i as int] == ls@[i as int]@);
        }
        let t = trim_chars(ls[i].as_slice());
        if chars_eq_vec(&t, &skey) {
            line_num = i + 1;
            if cur_s.len() > 0 && in_replace {
                let ghost prev = blocks_view(blocks@);
                let block = SearchReplaceBlock { search_lines: cur_s, replace_lines: cur_r };
                blocks.push(block);
                proof {
                    assert(blocks_view(blocks@) =~= prev.push(block@));
                }
                cur_s = Vec::new();
                cur_r = Vec::new();
                proof {
                    assert(cur_s.deep_view() =~= Seq::<Seq<char>>::empty());
                    assert(cur_r.deep_view() =~= Seq::<Seq<char>>::empty());
                }
            } else if in_search {
                let e = err_plain(
                    "Found 'search:' without matching 'replace:' for previous block",
                    Some(i + 1),
                );
                proof {
                    lemma_prefix_fold_err(lv, (i + 1) as nat, lv.len());
                }
                return Err(e);
            }
            in_search = true;
            in_replace = false;
            i += 1;
            continue ;
        }
        if chars_eq_vec(&t, &rkey) {
            if !in_search || cur_s.len() == 0 {
                let e = err_plain("Found 'replace:' without preceding 'search:' block", Some(i + 1));
                proof {
                    lemma_prefix_fold_err(lv, (i + 1) as nat, lv.len());
                }
                return Err(e);
            }
            in_search = false;
            in_replace = true;
            i += 1;
            continue ;
        }
        if in_search {
            push_line(&mut cur_s, ls[i].as_slice());
        } else if in_replace {
            push_line(&mut cur_r, ls[i].as_slice());
        }
        i += 1;
    }
    if in_search && cur_s.len() > 0 {
        let e = err_plain("Missing 'replace:' for last search block", Some(line_num));
        return Err(e);
    } else if cur_s.len() > 0 && cur_r.len() > 0 {
        let ghost prev = blocks_view(blocks@);
        let block = SearchReplaceBlock { search_lines: cur_s, replace_lines: cur_r };
        blocks.push(block);
        proof {
            assert(blocks_view(blocks@) =~= prev.push(block@));
        }
    }
    if blocks.len() == 0 {
        let e = err_plain("No valid search/replace blocks found in prefix format", None);
        return Err(e);
    }
    Ok(blocks)
}

fn chars_eq_vec(a: &Vec<char>, b: &Vec<char>) -> (r: bool)
    ensures
        r == (a@ == b@),
{
    crate::text::chars_eq(a.as_slice(), b.as_slice())
}

/// What `parse_search_replace_blocks` gives: the marker format if it parses,
/// else the prefix format if it parses, else an error.
pub open spec fn parse_blocks_spec(text: Seq<char>) -> Result<Seq<BlockView>, ErrorView> {
    let ls = lines(text);
    if parse_markers_spec(ls) is Ok {
        parse_markers_spec(ls)
    } else if parse_prefix_spec(ls) is Ok {
        parse_prefix_spec(ls)
    } else {
        Err(
            (
                "No valid search/replace blocks found in either standard or alternative format"@,
                None,
            ),
        )
    }
}

/// Parses search/replace blocks from text, supporting both standard format (with markers)
/// and alternative format with "search:" and "replace:" prefixes
pub fn parse_search_replace_blocks(text: &str) -> (r: Result<
    Vec<SearchReplaceBlock>,
    SearchReplaceSyntaxError,
>)
    ensures
        result_view(r) == parse_blocks_spec(text@),
{
    let m = parse_marker_format(text);
    if m.is_ok() {
        return m;
    }
    let p = parse_prefix_format(text);
    if p.is_ok() {
        return p;
    }
    let e = err_plain(
        "No valid search/replace blocks found in either standard or alternative format",
        None,
    );
    Err(e)
}

// ---------------------------------------------------------------------------
// Matching
// ---------------------------------------------------------------------------

/// The search lines match the content lines starting at `p` once both are
/// normalised by `level`.
pub open spec fn window_matches(
    c: Seq<Seq<char>>,
    s: Seq<Seq<char>>,
    level: ToleranceLevel,
    p: int,
) -> bool {
    &&& 0 <= p
    &&& p + s.len() <= c.len()
    &&& forall|j: int| 0 <= j < s.len() ==> level.normalize(#[trigger] c[p + j]) == level.normalize(s[j])
}

/// All matches at `level` starting at positions `>= q`, in increasing order.
pub open spec fn level_matches_from(
    c: Seq<Seq<char>>,
    s: Seq<Seq<char>>,
    level: ToleranceLevel,
    q: int,
) -> Seq<ToleranceMatch>
    decreases c.len() - q,
{
    if q < 0 || s.len() == 0 || q + s.len() > c.len() {
        seq![]
    } else if window_matches(c, s, level, q) {
        seq![ToleranceMatch::of(level, (q as usize, (q + s.len() - 1) as usize))]
            + level_matches_from(c, s, level, q + 1)
    } else {
        level_matches_from(c, s, level, q + 1)
    }
}

/// The matches that `find_matches` reports: those of the first level, in the
/// order exact, trailing, leading, all whitespace, that has any.
pub open spec fn find_matches_spec(c: Seq<Seq<char>>, s: Seq<Seq<char>>, start: int) -> Seq<
    ToleranceMatch,
> {
    let m0 = level_matches_from(c, s, level_at(0), start);
    let m1 = level_matches_from(c, s, level_at(1), start);
    let m2 = level_matches_from(c, s, level_at(2), start);
    let m3 = level_matches_from(c, s, level_at(3), start);
    if m0.len() > 0 {
        m0
    } else if m1.len() > 0 {
        m1
    } else if m2.len() > 0 {
        m2
    } else {
        m3
    }
}

fn window_eq(c: &[String], s: &[String], level: ToleranceLevel, p: usize) -> (b: bool)
    requires
        p + s.len() <= c.len(),
    ensures
        b == window_matches(c@.map_values(|x: String| x@), s@.map_values(|x: String| x@), level, p as int),
{
    let ghost cv = c@.map_values(|x: String| x@);
    let ghost sv = s@.map_values(|x: String| x@);
    let mut j: usize = 0;
    while j < s.len()
        invariant
            p + s.len() <= c.len(),
            j <= s.len(),
            cv == c@.map_values(|x: String| x@),
            sv == s@.map_values(|x: String| x@),
            forall|k: int| 0 <= k < j ==> level.normalize(#[trigger] cv[p + k]) == level.normalize(sv[k]),
        decreases s.len() - j,
    {
        let a = to_chars(c[p + j].as_str());
        let b = to_chars(s[j].as_str());
        let na = level.process_chars(a.as_slice());
        let nb = level.process_chars(b.as_slice());
        if !chars_eq_vec(&na, &nb) {
            proof {
                assert(cv[p + j] == c@[p + j as int]@);
                assert(sv[j as int] == s@[j as int]@);
            }
            return false;
        }
        proof {
            assert(cv[p + j] == c@[p + j as int]@);
            assert(sv[j as int] == s@[j as int]@);
        }
        j += 1;
    }
    true
}

/// Finds matches for a search block in content with various tolerance levels
pub fn find_matches(content_lines: &[String], search_lines: &[String], start_line: usize) -> (r: Vec<
    ToleranceMatch,
>)
    ensures
        r@ == find_matches_spec(
            content_lines@.map_values(|x: String| x@),
            search_lines@.map_values(|x: String| x@),
            start_line as int,
        ),
{
    let ghost cv = content_lines@.map_values(|x: String| x@);
    let ghost sv = search_lines@.map_values(|x: String| x@);
    let mut k: usize = 0;
    while k < 4
        invariant
            k <= 4,
            cv == content_lines@.map_values(|x: String| x@),
            sv == search_lines@.map_values(|x: String| x@),
            forall|m: int| 0 <= m < k ==> (#[trigger] level_matches_from(cv, sv, level_at(m), start_line as int)).len() == 0,
        decreases 4 - k,
    {
        let level = level_exec(k);
        let mut matches: Vec<ToleranceMatch> = Vec::new();
        if search_lines.len() > 0 && start_line <= content_lines.len() && search_lines.len()
            <= content_lines.len() - start_line {
            let mut q = start_line;
            let last = content_lines.len() - search_lines.len();
            while q <= last
                invariant
                    start_line <= q,
                    last == content_lines.len() - search_lines.len(),
                    search_lines.len() > 0,
                    search_lines.len() <= content_lines.len(),
                    q <= last + 1,
                    cv == content_lines@.map_values(|x: String| x@),
                    sv == search_lines@.map_values(|x: String| x@),
                    level_matches_from(cv, sv, level, start_line as int) == matches@
                        + level_matches_from(cv, sv, level, q as int),
                decreases last + 1 - q,
            {
                let ghost prev = matches@;
                if window_eq(content_lines, search_lines, level, q) {
                    let m = ToleranceMatch::new(level, (q, q + search_lines.len() - 1));
                    matches.push(m);
                    proof {
                        assert(prev + level_matches_from(cv, sv, level, q as int) =~= matches@
                            + level_matches_from(cv, sv, level, q + 1));
                    }
                }
                q += 1;
            }
            proof {
                assert(level_matches_from(cv, sv, level, q as int) =~= Seq::<ToleranceMatch>::empty());
                assert(matches@ + Seq::<ToleranceMatch>::empty() =~= matches@);
            }
        } else {
            proof {
                assert(level_matches_from(cv, sv, level, start_line as int) =~= Seq::<ToleranceMatch>::empty());
            }
        }
        if matches.len() > 0 {
            return matches;
        }
        k += 1;
    }
    proof {
        assert(level_matches_from(cv, sv, level_at(3), start_line as int).len() == 0);
    }
    Vec::new()
}

// ---------------------------------------------------------------------------
// Indentation
// ---------------------------------------------------------------------------

/// The leading whitespace of a line.
pub open spec fn indent_of(l: Seq<char>) -> Seq<char> {
    l.take(leading_ws(l) as int)
}

/// The indentations of the first pair of original/search lines, from index `k`
/// on, in which neither line is blank.
pub open spec fn first_indent_pair(o: Seq<Seq<char>>, s: Seq<Seq<char>>, k: int) -> Option<
    (Seq<char>, Seq<char>),
>
    decreases o.len() - k,
{
    if k < 0 || k >= o.len() || k >= s.len() {
        None
    } else if is_blank(o[k]) || is_blank(s[k]) {
        first_indent_pair(o, s, k + 1)
    } else {
        Some((indent_of(o[k]), indent_of(s[k])))
    }
}

/// The indentation put in front of replacement lines: the original
/// indentation without as many bytes as the search indentation has; `None`
/// where that byte count does not fall on a character boundary (the slice
/// would panic).
pub open spec fn target_indent(oi: Seq<char>, si: Seq<char>) -> Option<Seq<char>> {
    if byte_len(oi) >= byte_len(si) {
        match char_count_at_byte(oi, (byte_len(oi) - byte_len(si)) as nat) {
            Some(k) => Some(oi.take(k as int)),
            None => None,
        }
    } else {
        Some(seq![])
    }
}

/// A replacement line with the target indentation put in front of it;
/// blank lines stay as they are.
pub open spec fn reindent(t: Seq<char>, l: Seq<char>) -> Seq<char> {
    if is_blank(l) {
        l
    } else {
        t + l
    }
}

/// What `adjust_indentation` returns; `None` where it would panic.
pub open spec fn adjust_spec(o: Seq<Seq<char>>, s: Seq<Seq<char>>, r: Seq<Seq<char>>) -> Option<
    Seq<Seq<char>>,
> {
    if o.len() == 0 || s.len() == 0 || r.len() == 0 {
        Some(r)
    } else {
        match first_indent_pair(o, s, 0) {
            None => Some(r),
            Some((oi, si)) => match target_indent(oi, si) {
                None => None,
                Some(t) => Some(r.map_values(|l: Seq<char>| reindent(t, l))),
            },
        }
    }
}

fn indent_chars(l: &[char]) -> (r: Vec<char>)
    ensures
        r@ == indent_of(l@),
{
    let k = count_leading_ws(l);
    proof {
        crate::text::lemma_leading_ws_bounds(l@);
    }
    slice_chars(l, 0, k)
}

pub(crate) fn copy_lines(v: &[String]) -> (r: Vec<String>)
    ensures
        r.deep_view() == v@.map_values(|x: String| x@),
{
    let mut r: Vec<String> = Vec::new();
    let mut i: usize = 0;
    while i < v.len()
        invariant
            i <= v.len(),
            r.deep_view() =~= v@.map_values(|x: String| x@).take(i as int),
        decreases v.len() - i,
    {
        let c = to_chars(v[i].as_str());
        push_line(&mut r, c.as_slice());
        proof {
            assert(v@.map_values(|x: String| x@).take(i + 1) =~= v@.map_values(|x: String| x@).take(
                i as int,
            ).push(v@[i as int]@));
        }
        i += 1;
    }
    r
}

/// Adjusts indentation of replacement lines based on original lines
pub fn adjust_indentation(
    original_lines: &[String],
    search_lines: &[String],
    replace_lines: &[String],
) -> (r: Vec<String>)
    requires
        adjust_spec(
            original_lines@.map_values(|x: String| x@),
            search_lines@.map_values(|x: String| x@),
            replace_lines@.map_values(|x: String| x@),
        ) is Some,
    ensures
        Some(r.deep_view()) == adjust_spec(
            original_lines@.map_values(|x: String| x@),
            search_lines@.map_values(|x: String| x@),
            replace_lines@.map_values(|x: String| x@),
        ),
{
    match adjust_checked(original_lines, search_lines, replace_lines) {
        Some(v) => v,
        None => {
            proof {
                assert(false);
            }
            Vec::new()
        },
    }
}

pub(crate) fn adjust_checked(
    original_lines: &[String],
    search_lines: &[String],
    replace_lines: &[String],
) -> (r: Option<Vec<String>>)
    ensures
        match r {
            Some(v) => Some(v.deep_view()) == adjust_spec(
                original_lines@.map_values(|x: String| x@),
                search_lines@.map_values(|x: String| x@),
                replace_lines@.map_values(|x: String| x@),
            ),
            None => adjust_spec(
                original_lines@.map_values(|x: String| x@),
                search_lines@.map_values(|x: String| x@),
                replace_lines@.map_values(|x: String| x@),
            ) is None,
        },
{
    let ghost ov = original_lines@.map_values(|x: String| x@);
    let ghost sv = search_lines@.map_values(|x: String| x@);
    let ghost rv = replace_lines@.map_values(|x: String| x@);
    if original_lines.len() == 0 || search_lines.len() == 0 || replace_lines.len() == 0 {
        return Some(copy_lines(replace_lines));
    }
    let mut k: usize = 0;
    while k < original_lines.len() && k < search_lines.len() && (str_is_blank(&original_lines[k])
        || str_is_blank(&search_lines[k]))
        invariant
            k <= original_lines.len(),
            ov == original_lines@.map_values(|x: String| x@),
            sv == search_lines@.map_values(|x: String| x@),
            first_indent_pair(ov, sv, 0) == first_indent_pair(ov, sv, k as int),
        decreases original_lines.len() - k,
    {
        proof {
            assert(ov[k as int] == original_lines@[k as int]@);
            assert(sv[k as int] == search_lines@[k as int]@);
        }
        k += 1;
    }
    if k >= original_lines.len() || k >= search_lines.len() {
        return Some(copy_lines(replace_lines));
    }
    proof {
        assert(ov[k as int] == original_lines@[k as int]@);
        assert(sv[k as int] == search_lines@[k as int]@);
    }
    let ol = to_chars(original_lines[k].as_str());
    let sl = to_chars(search_lines[k].as_str());
    let oi = indent_chars(ol.as_slice());
    let si = indent_chars(sl.as_slice());
    let ob = byte_len_of(oi.as_slice());
    let sb = byte_len_of(si.as_slice());
    let target: Vec<char> = if ob >= sb {
        match char_count_at_byte_exec(oi.as_slice(), ob - sb) {
            Some(n) => {
                proof {
                    assert(n <= oi@.len()) by {
                        let w = choose|k: nat| k <= oi@.len() && byte_len(oi@.take(k as int)) == (ob - sb) as nat;
                        assert(exists|k: nat| k <= oi@.len() && byte_len(oi@.take(k as int)) == (ob - sb) as nat);
                    }
                }
                slice_chars(oi.as_slice(), 0, n)
            },
            None => {
                return None;
            },
        }
    } else {
        Vec::new()
    };
    proof {
        assert(target_indent(oi@, si@) == Some(target@)) by {
            if ob >= sb {
                assert(target@ =~= oi@.take(target@.len() as int));
            } else {
                assert(target@ =~= Seq::<char>::empty());
            }
        }
    }
    let mut out: Vec<String> = Vec::new();
    let mut i: usize = 0;
    while i < replace_lines.len()
        invariant
            i <= replace_lines.len(),
            rv == replace_lines@.map_values(|x: String| x@),
            out.deep_view() =~= rv.take(i as int).map_values(|l: Seq<char>| reindent(target@, l)),
        decreases replace_lines.len() - i,
    {
        let lc = to_chars(replace_lines[i].as_str());
        proof {
            assert(rv[i as int] == lc@);
        }
        let line: Vec<char> = if chars_blank(lc.as_slice()) {
            lc
        } else {
            let mut v = slice_chars(target.as_slice(), 0, target.len());
            proof {
                assert(v@ =~= target@);
            }
            push_chars(&mut v, lc.as_slice());
            v
        };
        assert(line@ == reindent(target@, rv[i as int]));
        push_line(&mut out, line.as_slice());
        proof {
            assert(rv.take(i + 1).map_values(|l: Seq<char>| reindent(target@, l)) =~= rv.take(
                i as int,
            ).map_values(|l: Seq<char>| reindent(target@, l)).push(reindent(target@, rv[i as int])));
        }
        i += 1;
    }
    proof {
        assert(rv.take(replace_lines.len() as int) =~= rv);
    }
    Some(out)
}

fn str_is_blank(s: &String) -> (b: bool)
    ensures
        b == is_blank(s@),
{
    crate::text::str_blank(s.as_str())
}

// ---------------------------------------------------------------------------
// Applying blocks
// ---------------------------------------------------------------------------

pub proof fn lemma_level_matches_bounds(
    c: Seq<Seq<char>>,
    s: Seq<Seq<char>>,
    level: ToleranceLevel,
    q: int,
)
    requires
        c.len() <= usize::MAX,
    ensures
        forall|i: int|
            0 <= i < level_matches_from(c, s, level, q).len() ==> {
                let m = #[trigger] level_matches_from(c, s, level, q)[i];
                &&& m == ToleranceMatch::of(level, m.range)
                &&& q <= m.range.0
                &&& m.range.0 + s.len() - 1 == m.range.1
                &&& m.range.1 < c.len()
                &&& s.len() > 0
                &&& window_matches(c, s, level, m.range.0 as int)
            },
    decreases c.len() - q,
{
    if q < 0 || s.len() == 0 || q + s.len() > c.len() {
    } else {
        lemma_level_matches_bounds(c, s, level, q + 1);
        let rest = level_matches_from(c, s, level, q + 1);
        if window_matches(c, s, level, q) {
            let all = level_matches_from(c, s, level, q);
            assert forall|i: int| 0 <= i < all.len() implies {
                let m = #[trigger] all[i];
                &&& m == ToleranceMatch::of(level, m.range)
                &&& q <= m.range.0
                &&& m.range.0 + s.len() - 1 == m.range.1
                &&& m.range.1 < c.len()
                &&& s.len() > 0
                &&& window_matches(c, s, level, m.range.0 as int)
            } by {
                if i > 0 {
                    assert(all[i] == rest[i - 1]);
                }
            }
        }
    }
}

pub proof fn lemma_find_matches_bounds(c: Seq<Seq<char>>, s: Seq<Seq<char>>, start: int)
    requires
        c.len() <= usize::MAX,
    ensures
        forall|i: int|
            0 <= i < find_matches_spec(c, s, start).len() ==> {
                let m = #[trigger] find_matches_spec(c, s, start)[i];
                &&& m == ToleranceMatch::of(m.level, m.range)
                &&& m.range.0 + s.len() - 1 == m.range.1
                &&& m.range.1 < c.len()
                &&& s.len() > 0
            },
{
    lemma_level_matches_bounds(c, s, level_at(0), start);
    lemma_level_matches_bounds(c, s, level_at(1), start);
    lemma_level_matches_bounds(c, s, level_at(2), start);
    lemma_level_matches_bounds(c, s, level_at(3), start);
}

pub open spec fn multi_warning(n: nat) -> Seq<char> {
    "Warning: Search block #"@ + decimal(n)
        + " matches multiple parts of the file. Using the first match."@
}

/// Lines and warnings after one block; `Err(n)` when block number `n` (1-based)
/// matches nowhere; `None` where the edit would panic.
pub open spec fn apply_block(
    ls: Seq<Seq<char>>,
    ws: Seq<Seq<char>>,
    b: BlockView,
    idx: nat,
) -> Option<Result<(Seq<Seq<char>>, Seq<Seq<char>>), nat>> {
    apply_block_with(ls, ws, b, idx, true)
}

/// Block number `idx` (from 0) applied to the lines `ls` with the warnings
/// `ws` so far; the replacement is re-indented after a match that ignored
/// leading whitespace only where `fix` is set.
pub open spec fn apply_block_with(
    ls: Seq<Seq<char>>,
    ws: Seq<Seq<char>>,
    b: BlockView,
    idx: nat,
    fix: bool,
) -> Option<Result<(Seq<Seq<char>>, Seq<Seq<char>>), nat>> {
    let ms = find_matches_spec(ls, b.0, 0);
    if ms.len() == 0 {
        Some(Err(idx + 1))
    } else {
        let best = ms[0];
        let w1 = if best.has_warning {
            ws.push(best.warning_text())
        } else {
            ws
        };
        let w2 = if ms.len() > 1 {
            w1.push(multi_warning(idx + 1))
        } else {
            w1
        };
        let st = best.range.0 as int;
        let en = best.range.1 as int;
        let repl = if fix && best.level == ToleranceLevel::IgnoreLeadingWhitespace {
            adjust_spec(ls.subrange(st, en + 1), b.0, b.1)
        } else {
            Some(b.1)
        };
        match repl {
            None => None,
            Some(r) => Some(Ok((ls.take(st) + r + ls.skip(en + 1), w2))),
        }
    }
}

/// The state after the first `k` blocks.
pub open spec fn apply_fold(ls0: Seq<Seq<char>>, bs: Seq<BlockView>, k: nat) -> Option<
    Result<(Seq<Seq<char>>, Seq<Seq<char>>), nat>,
> {
    apply_fold_with(ls0, bs, k, true)
}

/// The state after the first `k` blocks, re-indenting as `fix` says.
pub open spec fn apply_fold_with(ls0: Seq<Seq<char>>, bs: Seq<BlockView>, k: nat, fix: bool) -> Option<
    Result<(Seq<Seq<char>>, Seq<Seq<char>>), nat>,
>
    decreases k,
{
    if k == 0 || k > bs.len() {
        Some(Ok((ls0, seq![])))
    } else {
        match apply_fold_with(ls0, bs, (k - 1) as nat, fix) {
            Some(Ok((ls, ws))) => apply_block_with(ls, ws, bs[k - 1], (k - 1) as nat, fix),
            other => other,
        }
    }
}

/// What applying `bs` to `content` gives: the joined content, the warnings and
/// whether anything changed; `Err(n)` when block `n` matches nowhere; `None`
/// where the edit would panic.
pub open spec fn apply_spec(content: Seq<char>, bs: Seq<BlockView>) -> Option<
    Result<(Seq<char>, Seq<Seq<char>>, bool), nat>,
> {
    match apply_fold(lines(content), bs, bs.len()) {
        None => None,
        Some(Err(n)) => Some(Err(n)),
        Some(Ok((ls, ws))) => Some(Ok((join(ls, nl()), ws, bs.len() > 0))),
    }
}

proof fn lemma_apply_fold_stuck(ls0: Seq<Seq<char>>, bs: Seq<BlockView>, k: nat, m: nat)
    requires
        1 <= k <= m <= bs.len(),
        !(apply_fold(ls0, bs, k) matches Some(Ok(_))),
    ensures
        apply_fold(ls0, bs, m) == apply_fold(ls0, bs, k),
{
    lemma_apply_fold_with_stuck(ls0, bs, k, m, true);
}

pub(crate) proof fn lemma_apply_fold_with_stuck(ls0: Seq<Seq<char>>, bs: Seq<BlockView>, k: nat, m: nat, fix: bool)
    requires
        1 <= k <= m <= bs.len(),
        !(apply_fold_with(ls0, bs, k, fix) matches Some(Ok(_))),
    ensures
        apply_fold_with(ls0, bs, m, fix) == apply_fold_with(ls0, bs, k, fix),
    decreases m - k,
{
    if m > k {
        lemma_apply_fold_with_stuck(ls0, bs, k, (m - 1) as nat, fix);
    }
}

/// Why applying blocks failed.
#[derive(Debug)]
pub enum ApplyError {
    /// The blocks could not be parsed.
    Syntax(SearchReplaceSyntaxError),
    /// Block number `block_number` (1-based) matches nowhere in the content.
    NoMatch { block_number: usize, search_lines: Vec<String> },
}

pub(crate) proof fn lemma_dv(v: Vec<String>)
    ensures
        v.deep_view() == v@.map_values(|x: String| x@),
{
    assert(v.deep_view() =~= v@.map_values(|x: String| x@));
}

pub(crate) fn clone_line(s: &String) -> (r: String)
    ensures
        r@ == s@,
{
    s.clone()
}

/// `v[from..to]` appended to `out`.
pub(crate) fn push_range(out: &mut Vec<String>, v: &Vec<String>, from: usize, to: usize)
    requires
        from <= to <= v.len(),
    ensures
        final(out).deep_view() == old(out).deep_view() + v.deep_view().subrange(from as int, to as int),
{
    let ghost start = out.deep_view();
    let mut i = from;
    while i < to
        invariant
            from <= i <= to,
            to <= v.len(),
            out.deep_view() =~= start + v.deep_view().subrange(from as int, i as int),
        decreases to - i,
    {
        let c = clone_line(&v[i]);
        let ghost prev = out.deep_view();
        out.push(c);
        proof {
            assert(out.deep_view() =~= prev.push(c@));
            assert(v.deep_view().subrange(from as int, i + 1) =~= v.deep_view().subrange(
                from as int,
                i as int,
            ).push(v.deep_view()[i as int]));
        }
        i += 1;
    }
}

/// Applies a list of search/replace blocks to content
pub fn apply_search_replace(content: &str, blocks: &[SearchReplaceBlock]) -> (r: Result<
    EditResult,
    ApplyError,
>)
    requires
        apply_spec(content@, blocks_view(blocks@)) is Some,
    ensures
        edit_answer(content@, blocks_view(blocks@), r),
{
    match apply_checked(content, blocks) {
        Some(r) => {
            proof {
                if let Some(Err(n)) = apply_spec(content@, blocks_view(blocks@)) {
                    assert(blocks_view(blocks@)[n - 1] == blocks@[n - 1]@);
                }
            }
            r
        },
        None => {
            proof {
                assert(false);
            }
            Err(ApplyError::NoMatch { block_number: 0, search_lines: Vec::new() })
        },
    }
}

/// Whether `apply_search_replace` can be asked to apply `blocks` to
/// `content`: no block would re-indent its replacement by cutting the
/// original indentation inside a character.
pub fn edit_applicable(content: &str, blocks: &[SearchReplaceBlock]) -> (b: bool)
    ensures
        b == (apply_spec(content@, blocks_view(blocks@)) is Some),
{
    apply_checked(content, blocks).is_some()
}

/// Whether `apply_search_replace_from_text` can be asked to apply the
/// blocks of `search_replace_text` to `content` (see `edit_applicable`).
pub fn text_edit_applicable(content: &str, search_replace_text: &str) -> (b: bool)
    ensures
        b == apply_text_ok(content@, search_replace_text@),
{
    match parse_search_replace_blocks(search_replace_text) {
        Ok(bs) => {
            proof {
                assert(result_view(Ok::<Vec<SearchReplaceBlock>, SearchReplaceSyntaxError>(bs)) matches Ok(v)
                    && v == blocks_view(bs@));
            }
            edit_applicable(content, bs.as_slice())
        },
        Err(_) => true,
    }
}

fn apply_checked(content: &str, blocks: &[SearchReplaceBlock]) -> (r: Option<Result<EditResult, ApplyError>>)
    ensures
        match apply_spec(content@, blocks_view(blocks@)) {
            Some(Ok((c, ws, changed))) => r matches Some(Ok(res)) && res.content@ == c
                && res.warnings.deep_view() == ws && res.changes_made == changed,
            Some(Err(n)) => r matches Some(Err(ApplyError::NoMatch { block_number, search_lines }))
                && block_number == n && 1 <= n <= blocks@.len() && search_lines.deep_view()
                == blocks@[n - 1]@.0,
            None => r is None,
        },
{
    let ghost bv = blocks_view(blocks@);
    let ghost ls0 = lines(content@);
    let mut result_lines = crate::text::split_lines(content);
    let mut warnings: Vec<String> = Vec::new();
    proof {
        assert(warnings.deep_view() =~= Seq::<Seq<char>>::empty());
    }
    let mut idx: usize = 0;
    while idx < blocks.len()
        invariant
            idx <= blocks.len(),
            bv == blocks_view(blocks@),
            bv.len() == blocks.len(),
            ls0 == lines(content@),
            apply_fold(ls0, bv, idx as nat) == Some(
                Ok::<(Seq<Seq<char>>, Seq<Seq<char>>), nat>(
                    (result_lines.deep_view(), warnings.deep_view()),
                ),
            ),
        decreases blocks.len() - idx,
    {
        let block = &blocks[idx];
        proof {
            assert(bv[idx as int] == block@);
            lemma_dv(result_lines);
            lemma_dv(block.search_lines);
            lemma_dv(block.replace_lines);
        }
        let matches = find_matches(result_lines.as_slice(), block.search_lines.as_slice(), 0);
        proof {
            lemma_find_matches_bounds(result_lines.deep_view(), block@.0, 0);
        }
        if matches.len() == 0 {
            proof {
                if idx + 1 < bv.len() {
                    lemma_apply_fold_stuck(ls0, bv, (idx + 1) as nat, bv.len());
                }
            }
            let search_lines = copy_lines(block.search_lines.as_slice());
            return Some(Err(ApplyError::NoMatch { block_number: idx + 1, search_lines }));
        }
        let best = matches[0];
        proof {
            assert(matches@[0] == best);
        }
        match best.warning_message() {
            Some(w) => {
                let ghost prev = warnings.deep_view();
                warnings.push(w);
                proof {
                    assert(warnings.deep_view() =~= prev.push(w@));
                }
            },
            None => {},
        }
        if matches.len() > 1 {
            let mut v: Vec<char> = Vec::new();
            push_str(&mut v, "Warning: Search block #");
            push_decimal(&mut v, (idx + 1) as u64);
            push_str(&mut v, " matches multiple parts of the file. Using the first match.");
            let w = from_chars(v.as_slice());
            let ghost prev = warnings.deep_view();
            warnings.push(w);
            proof {
                assert(warnings.deep_view() =~= prev.push(w@));
            }
        }
        let (start, end) = best.range;
        let ghost ls = result_lines.deep_view();
        let replace_lines: Vec<String> = if best.level == ToleranceLevel::IgnoreLeadingWhitespace {
            let mut orig: Vec<String> = Vec::new();
            push_range(&mut orig, &result_lines, start, end + 1);
            proof {
                assert(orig.deep_view() =~= ls.subrange(start as int, end + 1));
                lemma_dv(orig);
            }
            match adjust_checked(orig.as_slice(), block.search_lines.as_slice(), block.replace_lines.as_slice()) {
                Some(v) => v,
                None => {
                    proof {
                        if idx + 1 < bv.len() {
                            lemma_apply_fold_stuck(ls0, bv, (idx + 1) as nat, bv.len());
                        }
                    }
                    return None;
                },
            }
        } else {
            copy_lines(block.replace_lines.as_slice())
        };
        let mut next: Vec<String> = Vec::new();
        proof {
            assert(next.deep_view() =~= Seq::<Seq<char>>::empty());
        }
        push_range(&mut next, &result_lines, 0, start);
        let ghost mid = next.deep_view();
        let mut j: usize = 0;
        while j < replace_lines.len()
            invariant
                j <= replace_lines.len(),
                next.deep_view() =~= mid + replace_lines.deep_view().take(j as int),
            decreases replace_lines.len() - j,
        {
            let c = clone_line(&replace_lines[j]);
            let ghost prev = next.deep_view();
            next.push(c);
            proof {
                assert(next.deep_view() =~= prev.push(c@));
                assert(replace_lines.deep_view().take(j + 1) =~= replace_lines.deep_view().take(
                    j as int,
                ).push(c@));
            }
            j += 1;
        }
        proof {
            assert(replace_lines.deep_view().take(replace_lines.len() as int) =~= replace_lines.deep_view());
        }
        push_range(&mut next, &result_lines, end + 1, result_lines.len());
        proof {
            assert(ls.take(start as int) =~= ls.subrange(0, start as int));
            assert(ls.skip(end + 1) =~= ls.subrange(end + 1, ls.len() as int));
            assert(next.deep_view() =~= ls.take(start as int) + replace_lines.deep_view() + ls.skip(
                end + 1,
            ));
        }
        result_lines = next;
        idx += 1;
    }
    let joined = join_lines(result_lines.as_slice());
    proof {
        lemma_dv(result_lines);
    }
    Some(Ok(EditResult { content: joined, warnings, changes_made: blocks.len() > 0 }))
}

/// What `apply_search_replace_from_text` gives: a syntax error, or the result of
/// applying the parsed blocks.
pub open spec fn apply_text_ok(content: Seq<char>, text: Seq<char>) -> bool {
    match parse_blocks_spec(text) {
        Ok(bs) => apply_spec(content, bs) is Some,
        Err(_) => true,
    }
}

/// `r` is what applying blocks whose views are `bs` to `content` answers:
/// the edited content, its warnings and whether anything changed, or the
/// first block that matches nowhere.
pub open spec fn edit_answer(content: Seq<char>, bs: Seq<BlockView>, r: Result<EditResult, ApplyError>) -> bool {
    match apply_spec(content, bs) {
        Some(Ok((c, ws, changed))) => r matches Ok(res) && res.content@ == c && res.warnings.deep_view()
            == ws && res.changes_made == changed,
        Some(Err(n)) => r matches Err(ApplyError::NoMatch { block_number, search_lines })
            && block_number == n && 1 <= n <= bs.len() && search_lines.deep_view() == bs[n - 1].0,
        None => false,
    }
}

/// `r` is what applying the blocks written in `text` to `content` answers:
/// the syntax error where `text` holds no valid block, else what applying
/// the parsed blocks answers.
pub open spec fn text_edit_answer(content: Seq<char>, text: Seq<char>, r: Result<EditResult, ApplyError>) -> bool {
    match parse_blocks_spec(text) {
        Err(e) => r matches Err(ApplyError::Syntax(se)) && se.view_err() == e,
        Ok(bs) => edit_answer(content, bs, r),
    }
}

/// Applies search/replace blocks from text containing the blocks
pub fn apply_search_replace_from_text(content: &str, search_replace_text: &str) -> (r: Result<
    EditResult,
    ApplyError,
>)
    requires
        apply_text_ok(content@, search_replace_text@),
    ensures
        text_edit_answer(content@, search_replace_text@, r),
{
    match parse_search_replace_blocks(search_replace_text) {
        Err(e) => Err(ApplyError::Syntax(e)),
        Ok(blocks) => {
            proof {
                assert(result_view(Ok::<Vec<SearchReplaceBlock>, SearchReplaceSyntaxError>(blocks)) matches Ok(v)
                    && v == blocks_view(blocks@));
            }
            apply_search_replace(content, blocks.as_slice())
        },
    }
}

/// Applying the blocks written in a text is parsing them and then applying
/// what was parsed: where the text parses, both answer alike; where it does
/// not, the answer is the syntax error and no edit.
pub proof fn law_text_edit_is_parse_then_apply(
    content: Seq<char>,
    text: Seq<char>,
    r: Result<EditResult, ApplyError>,
)
    ensures
        parse_blocks_spec(text) matches Ok(bs) ==> (text_edit_answer(content, text, r) == edit_answer(
            content,
            bs,
            r,
        )),
        parse_blocks_spec(text) is Err ==> (text_edit_answer(content, text, r) ==> r matches Err(
            ApplyError::Syntax(_),
        )),
{
}


/// Every tolerance level only drops whitespace (the text is the same once
/// all whitespace is dropped), and applying a level twice changes nothing
/// more.
pub proof fn law_tolerance_drops_only_whitespace(l: ToleranceLevel, s: Seq<char>)
    ensures
        ToleranceLevel::IgnoreAllWhitespace.normalize(l.normalize(s)) == ToleranceLevel::IgnoreAllWhitespace.normalize(s),
        l.normalize(l.normalize(s)) == l.normalize(s),
{
    crate::text::lemma_trim_start_laws(s);
    crate::text::lemma_trim_end_laws(s);
    crate::text::lemma_strip_ws_idempotent(s);
}

} // verus!
