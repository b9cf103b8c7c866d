//! The file tools: reading with line ranges, writing, editing, and the
//! texts of their answers. The files themselves are read and written
//! outside the library; the whitelist that guards overwriting lives in
//! `crate::file::operations`.
use vstd::prelude::*;
use crate::lsp::utils::joined_path;
use crate::security::path_starts_with;
use crate::text::{
    byte_len, byte_len_of, contains, decimal, from_chars, join, lines, owned, push_decimal, push_str,
    str_contains, to_chars,
};

verus! {

/// The tool that reads, writes and edits files.
#[derive(Debug, Clone, Copy)]
pub struct FileOperations {}

/// The tool that creates new files or fills empty ones.
#[derive(Debug, Clone, Copy)]
pub struct WriteIfEmpty {}

/// The tool that edits files with search/replace blocks.
#[derive(Debug, Clone, Copy)]
pub struct FileEdit {}

/// Files to read, each optionally with a line range ("path:10-20").
#[derive(Debug, Clone)]
pub struct ReadFilesParams {
    /// Paths of files to read
    pub file_paths: Vec<String>,
    /// Reason for showing line numbers
    pub show_line_numbers_reason: Option<String>,
}

/// A file to write whole or edit with search/replace blocks.
#[derive(Debug, Clone)]
pub struct FileWriteOrEditParams {
    /// Path of file to write or edit
    pub file_path: String,
    /// Percentage of file to change (0-100)
    pub percentage_to_change: i32,
    /// File content or search/replace blocks
    pub file_content_or_search_replace_blocks: String,
}

/// A file to create.
#[derive(Debug, Clone)]
pub struct WriteIfEmptyParams {
    /// Path of file to write
    pub file_path: String,
    /// Content to write to file
    pub file_content: String,
}

/// A file to edit.
#[derive(Debug, Clone)]
pub struct FileEditParams {
    /// Path of file to edit
    pub file_path: String,
    /// Edit using search/replace blocks
    pub file_edit_using_search_replace_blocks: String,
}

/// An image to read.
#[derive(Debug, Clone)]
pub struct ReadImageParams {
    /// Path of image to read
    pub file_path: String,
}

impl FileOperations {
    pub fn new() -> (r: Self) {
        FileOperations {}
    }
}

impl Default for FileOperations {
    fn default() -> (r: Self) {
        FileOperations {}
    }
}

impl FileEdit {
    pub fn new() -> (r: Self) {
        FileEdit {}
    }
}

impl Default for FileEdit {
    fn default() -> (r: Self) {
        FileEdit {}
    }
}

// ---------------------------------------------------------------------------
// Line ranges in paths
// ---------------------------------------------------------------------------

pub open spec fn is_digit(c: char) -> bool {
    '0' <= c && c <= '9'
}

/// All characters of `s` are decimal digits.
pub open spec fn all_digits(s: Seq<char>) -> bool {
    forall|i: int| 0 <= i < s.len() ==> is_digit(#[trigger] s[i])
}

/// The number the digits of `s` write.
pub open spec fn digits_value(s: Seq<char>) -> nat
    decreases s.len(),
{
    if s.len() == 0 {
        0
    } else {
        digits_value(s.drop_last()) * 10 + ((s.last() as u32) - ('0' as u32)) as nat
    }
}

/// What `usize::from_str` gives for a run of digits: nothing for an empty
/// run or one too large.
pub open spec fn parse_digits(s: Seq<char>) -> Option<usize> {
    if s.len() == 0 || digits_value(s) > usize::MAX {
        None
    } else {
        Some(digits_value(s) as usize)
    }
}

/// `t` is digits, a `-`, then digits (both runs may be empty), with the
/// position of the `-`.
pub open spec fn range_tail(t: Seq<char>, k: int) -> bool {
    0 <= k < t.len() && t[k] == '-' && all_digits(t.take(k)) && all_digits(t.skip(k + 1))
}

/// A `:` at `p >= 1` followed by a range to the end.
pub open spec fn range_at(s: Seq<char>, p: int) -> bool {
    1 <= p < s.len() && s[p] == ':' && exists|k: int| #[trigger] range_tail(s.skip(p + 1), k)
}

/// Where the path ends and the range starts: the first such `:`.
pub open spec fn first_range(s: Seq<char>) -> Option<int> {
    if exists|p: int| #[trigger] range_at(s, p) {
        Some(choose|p: int| #[trigger] range_at(s, p) && forall|q: int| 0 <= q < p ==> !#[trigger] range_at(s, q))
    } else {
        None
    }
}

/// A path, optionally followed by `:start-end` (each bound digits, each
/// optional), split into the path and the bounds; a text with a line
/// break, or without such a range, is all path.
pub open spec fn split_range(s: Seq<char>) -> (Seq<char>, Option<usize>, Option<usize>) {
    if contains(s, seq!['\n']) {
        (s, None, None)
    } else {
        match first_range(s) {
            None => (s, None, None),
            Some(p) => {
                let t = s.skip(p + 1);
                let k = choose|k: int| range_tail(t, k);
                (s.take(p), parse_digits(t.take(k)), parse_digits(t.skip(k + 1)))
            },
        }
    }
}

fn all_digits_exec(s: &[char], from: usize, to: usize) -> (b: bool)
    requires
        from <= to <= s.len(),
    ensures
        b == all_digits(s@.subrange(from as int, to as int)),
{
    let mut i = from;
    while i < to
        invariant
            from <= i <= to <= s.len(),
            forall|j: int| from <= j < i ==> is_digit(#[trigger] s@[j]),
        decreases to - i,
    {
        if !('0' <= s[i] && s[i] <= '9') {
            proof {
                assert(s@.subrange(from as int, to as int)[i - from] == s@[i as int]);
            }
            return false;
        }
        i += 1;
    }
    proof {
        assert forall|j: int| 0 <= j < to - from implies is_digit(#[trigger] s@.subrange(from as int, to as int)[j]) by {
            assert(s@.subrange(from as int, to as int)[j] == s@[from + j]);
        }
    }
    true
}

fn parse_digits_exec(s: &[char], from: usize, to: usize) -> (r: Option<usize>)
    requires
        from <= to <= s.len(),
        all_digits(s@.subrange(from as int, to as int)),
    ensures
        r == parse_digits(s@.subrange(from as int, to as int)),
{
    if from == to {
        return None;
    }
    let mut v: u128 = 0;
    let mut i = from;
    let mut over = false;
    while i < to
        invariant
            from <= i <= to <= s.len(),
            all_digits(s@.subrange(from as int, to as int)),
            !over ==> v == digits_value(s@.subrange(from as int, i as int)) && v <= usize::MAX,
            over ==> digits_value(s@.subrange(from as int, i as int)) > usize::MAX,
        decreases to - i,
    {
        let ghost prev = s@.subrange(from as int, i as int);
        proof {
            assert(s@.subrange(from as int, i + 1).drop_last() =~= prev);
            assert(s@.subrange(from as int, to as int)[i - from] == s@[i as int]);
            assert(is_digit(s@[i as int]));
            lemma_digits_value_grows(s@.subrange(from as int, i + 1));
        }
        if !over {
            let d = (s[i] as u32 - '0' as u32) as u128;
            let next = v * 10 + d;
            if next > usize::MAX as u128 {
                over = true;
            } else {
                v = next;
            }
        }
        i += 1;
    }
    if over {
        None
    } else {
        Some(v as usize)
    }
}

proof fn lemma_digits_value_grows(s: Seq<char>)
    requires
        s.len() > 0,
    ensures
        digits_value(s) >= digits_value(s.drop_last()),
{
}

/// Parse file path with optional line ranges: the path, the first line and
/// the last line.
pub fn parse_line_ranges(file_path: &str) -> (r: (String, Option<usize>, Option<usize>))
    ensures
        (r.0@, r.1, r.2) == split_range(file_path@),
{
    let s = to_chars(file_path);
    let nl: Vec<char> = vec!['\n'];
    if crate::text::contains_chars(s.as_slice(), nl.as_slice()) {
        proof {
            assert(nl@ =~= seq!['\n']);
        }
        return (owned(file_path), None, None);
    }
    proof {
        assert(nl@ =~= seq!['\n']);
    }
    let mut p: usize = 1;
    while p < s.len()
        invariant
            1 <= p,
            s@ == file_path@,
            !contains(s@, seq!['\n']),
            forall|q: int| 0 <= q < p ==> !#[trigger] range_at(s@, q),
        decreases s.len() - p,
    {
        if s[p] == ':' {
            // Find the '-' after the colon: the first non-digit.
            let mut k = p + 1;
            while k < s.len() && '0' <= s[k] && s[k] <= '9'
                invariant
                    p + 1 <= k <= s.len(),
                    forall|j: int| p + 1 <= j < k ==> is_digit(#[trigger] s@[j]),
                decreases s.len() - k,
            {
                k += 1;
            }
            if k < s.len() && s[k] == '-' && all_digits_exec(s.as_slice(), k + 1, s.len()) {
                let ghost t = s@.skip(p + 1);
                proof {
                    let kk = (k - p - 1) as int;
                    assert(t.take(kk) =~= s@.subrange(p + 1, k as int));
                    assert(t.skip(kk + 1) =~= s@.subrange(k + 1, s.len() as int));
                    assert forall|j: int| 0 <= j < t.take(kk).len() implies is_digit(#[trigger] t.take(kk)[j]) by {
                        assert(t.take(kk)[j] == s@[p + 1 + j]);
                    }
                    assert(range_tail(t, kk));
                    assert(range_at(s@, p as int));
                    let c = choose|c: int| #[trigger] range_at(s@, c) && forall|q: int| 0 <= q < c ==> !#[trigger] range_at(s@, q);
                    if c < p {
                        assert(!range_at(s@, c));
                    } else if c > p {
                        assert(!range_at(s@, p as int));
                    }
                    let w = choose|w: int| range_tail(t, w);
                    lemma_range_tail_unique(t, w, kk);
                    assert(s@.subrange(p + 1, k as int) =~= t.take(kk));
                }
                let path = crate::text::slice_chars(s.as_slice(), 0, p);
                let start = parse_digits_exec(s.as_slice(), p + 1, k);
                let end = parse_digits_exec(s.as_slice(), k + 1, s.len());
                let r = (from_chars(path.as_slice()), start, end);
                proof {
                    let kk = (k - p - 1) as int;
                    let t = s@.skip(p + 1);
                    assert(path@ =~= s@.take(p as int));
                    assert(first_range(s@) == Some(p as int));
                    assert(t.skip(kk + 1) =~= s@.subrange(k + 1, s.len() as int));
                    assert(t.take(kk) =~= s@.subrange(p + 1, k as int));
                    assert(!contains(s@, seq!['\n']));
                }
                return r;
            }
            proof {
                assert(!range_at(s@, p as int)) by {
                    if range_at(s@, p as int) {
                        let t = s@.skip(p + 1);
                        let w = choose|w: int| #[trigger] range_tail(t, w);
                        let kk = (k - p - 1) as int;
                        if w < kk {
                            assert(is_digit(s@[p + 1 + w]));
                            assert(t[w] == s@[p + 1 + w]);
                        } else if w > kk {
                            assert(t.take(w)[kk] == t[kk]);
                            assert(t[kk] == s@[k as int]);
                            if k < s.len() {
                                assert(!is_digit(s@[k as int]));
                            }
                        } else {
                            assert(t[kk] == s@[k as int]);
                            assert forall|j: int| 0 <= j < t.skip(kk + 1).len() implies is_digit(
                                #[trigger] s@.subrange(k + 1, s.len() as int)[j],
                            ) by {
                                assert(s@.subrange(k + 1, s.len() as int)[j] == t.skip(kk + 1)[j]);
                            }
                        }
                    }
                }
            }
        }
        p += 1;
    }
    proof {
        assert(!exists|q: int| #[trigger] range_at(s@, q));
    }
    (owned(file_path), None, None)
}

proof fn lemma_range_tail_unique(t: Seq<char>, a: int, b: int)
    requires
        range_tail(t, a),
        range_tail(t, b),
    ensures
        a == b,
{
    if a < b {
        assert(t.take(b)[a] == t[a]);
    } else if b < a {
        assert(t.take(a)[b] == t[b]);
    }
}

// ---------------------------------------------------------------------------
// Reading
// ---------------------------------------------------------------------------

/// Lines shown of a file: from `start` (1-based; default the first) to
/// `end` (default the last); for a large file read without a range, the
/// first 500.
pub open spec fn shown_bounds(total: int, start: Option<usize>, end: Option<usize>, large: bool) -> (int, int) {
    if large && start is None && end is None {
        (0, if 500 < total {
            500
        } else {
            total
        })
    } else {
        (match start {
            Some(s) => if s == 0 {
                0
            } else {
                s - 1
            },
            None => 0,
        }, match end {
            Some(e) => e as int,
            None => total,
        })
    }
}

/// The shown lines, as a slice of `ls` (empty when the bounds leave none).
pub open spec fn shown_lines(ls: Seq<Seq<char>>, a: int, b: int) -> Seq<Seq<char>> {
    let total = ls.len() as int;
    if a < total && b > 0 {
        ls.subrange(if a < total - 1 {
            a
        } else {
            total - 1
        }, if b < total {
            b
        } else {
            total
        })
    } else {
        seq![]
    }
}

/// The bounds do not cross (the slice would panic).
pub open spec fn bounds_ok(ls: Seq<Seq<char>>, a: int, b: int) -> bool {
    let total = ls.len() as int;
    a < total && b > 0 ==> (if a < total - 1 {
        a
    } else {
        total - 1
    }) <= (if b < total {
        b
    } else {
        total
    })
}

/// Numbered lines, counting from `first`.
pub open spec fn numbered(ls: Seq<Seq<char>>, first: int) -> Seq<char>
    decreases ls.len(),
{
    if ls.len() == 0 {
        seq![]
    } else {
        numbered(ls.drop_last(), first) + decimal((first + ls.len() - 1) as nat) + " "@ + ls.last() + "\n"@
    }
}

/// The section of a read file: its path and range, then its lines between
/// fences.
pub open spec fn read_section(path: Seq<char>, content: Seq<char>, start: Option<usize>, end: Option<usize>, numbers: bool) -> Seq<char> {
    let ls = lines(content);
    let large = byte_len(content) > 1_000_000;
    let (a, b) = shown_bounds(ls.len() as int, start, end, large);
    let shown = shown_lines(ls, a, b);
    "\n"@ + path + (if start is Some || end is Some {
        ":"@ + opt_decimal(start) + "-"@ + opt_decimal(end)
    } else {
        seq![]
    }) + "\n```\n"@ + (if numbers {
        numbered(shown, a + 1)
    } else {
        join(shown, "\n"@) + if shown.len() > 0 {
            "\n"@
        } else {
            seq![]
        }
    }) + "```"@
}

/// The number, or nothing.
pub open spec fn opt_decimal(n: Option<usize>) -> Seq<char> {
    match n {
        Some(v) => decimal(v as nat),
        None => seq![],
    }
}

/// The range recorded in the whitelist for a read: the given bounds, else
/// the whole file.
pub open spec fn read_range(content: Seq<char>, start: Option<usize>, end: Option<usize>) -> (usize, usize) {
    (match start {
        Some(s) => s,
        None => 1,
    }, match end {
        Some(e) => e,
        None => lines(content).len() as usize,
    })
}

impl FileOperations {
    /// The answer's section for one file read, and the line range to record
    /// as read.
    pub fn read_file_section(
        &self,
        path: &str,
        content: &str,
        start: Option<usize>,
        end: Option<usize>,
        numbers: bool,
    ) -> (r: (String, (usize, usize)))
        requires
            ({
                let ls = lines(content@);
                let (a, b) = shown_bounds(ls.len() as int, start, end, byte_len(content@) > 1_000_000);
                bounds_ok(ls, a, b)
            }),
        ensures
            r.0@ == read_section(path@, content@, start, end, numbers),
            r.1 == read_range(content@, start, end),
    {
        let ls = crate::text::split_lines(content);
        let ghost lv = lines(content@);
        let cv = to_chars(content);
        let large = byte_len_of(cv.as_slice()) > 1_000_000;
        let total = ls.len();
        let (a, b) = bounds_exec(total, start, end, large);
        let mut v: Vec<char> = Vec::new();
        push_head(&mut v, path, start, end);
        let ghost head = v@;
        let (lo, hi) = slice_bounds(total, a, b);
        proof {
            if a < total && b > 0 {
                assert(shown_lines(lv, a as int, b as int) =~= lv.subrange(lo as int, hi as int));
            } else {
                assert(shown_lines(lv, a as int, b as int) =~= lv.subrange(0, 0));
            }
            assert(lo as int == (if a < total && b > 0 { if a < total - 1 { a as int } else { total - 1 } } else { 0 }));
        }
        if numbers {
            push_numbered(&mut v, &ls, lo, hi, (a + 1) as u128);
            proof {
                if !(a < total && b > 0) {
                    assert(lv.subrange(lo as int, hi as int) =~= Seq::<Seq<char>>::empty());
                }
            }
        } else {
            push_joined(&mut v, &ls, lo, hi);
        }
        push_str(&mut v, "```");
        proof {
            assert(v@ =~= read_section(path@, content@, start, end, numbers));
        }
        let range = (match start {
            Some(s) => s,
            None => 1,
        }, match end {
            Some(e) => e,
            None => total,
        });
        (from_chars(v.as_slice()), range)
    }

    /// Why an existing file may not be overwritten yet: the line ranges not
    /// read (with the file's content), a change since it was read, or that
    /// it was never read.
    pub fn overwrite_refusal(&self, path: &str, content: Option<&str>, unread: &Vec<(usize, usize)>) -> (r: String)
        ensures
            r@ == match content {
                None => "Error: you need to read existing file "@ + path@ + " at least once before it can be overwritten."@,
                Some(c) => if unread@.len() > 0 {
                    "Error: you need to read more of the file before it can be overwritten.\nUnread line ranges: "@
                        + ranges_text(unread@)
                        + "\n\nHere's the unread content:\n```\n"@ + c@
                        + "\n```\n\nYou can now safely retry writing immediately considering the above information."@
                } else {
                    "Error: the file has changed since last read.\n\nHere's the existing file:\n```\n"@ + c@
                        + "\n```\n\nYou can now safely retry writing immediately considering the above information."@
                },
            },
    {
        let mut v: Vec<char> = Vec::new();
        match content {
            None => {
                push_str(&mut v, "Error: you need to read existing file ");
                push_str(&mut v, path);
                push_str(&mut v, " at least once before it can be overwritten.");
            },
            Some(c) => {
                if unread.len() > 0 {
                    push_str(&mut v, "Error: you need to read more of the file before it can be overwritten.\nUnread line ranges: ");
                    push_ranges(&mut v, unread);
                    push_str(&mut v, "\n\nHere's the unread content:\n```\n");
                    push_str(&mut v, c);
                    push_str(&mut v, "\n```\n\nYou can now safely retry writing immediately considering the above information.");
                } else {
                    push_str(&mut v, "Error: the file has changed since last read.\n\nHere's the existing file:\n```\n");
                    push_str(&mut v, c);
                    push_str(&mut v, "\n```\n\nYou can now safely retry writing immediately considering the above information.");
                }
            },
        }
        from_chars(v.as_slice())
    }
}

fn bounds_exec(total: usize, start: Option<usize>, end: Option<usize>, large: bool) -> (r: (usize, usize))
    ensures
        (r.0 as int, r.1 as int) == shown_bounds(total as int, start, end, large),
{
    if large && start.is_none() && end.is_none() {
        (0, if 500 < total {
            500
        } else {
            total
        })
    } else {
        (match start {
            Some(s) => if s == 0 {
                0
            } else {
                s - 1
            },
            None => 0,
        }, match end {
            Some(e) => e,
            None => total,
        })
    }
}

fn slice_bounds(total: usize, a: usize, b: usize) -> (r: (usize, usize))
    ensures
        a < total && b > 0 ==> r.0 == (if a < total - 1 { a } else { (total - 1) as usize }) && r.1 == (if b < total {
            b
        } else {
            total
        }),
        !(a < total && b > 0) ==> r.0 == 0 && r.1 == 0,
{
    if a < total && b > 0 {
        (if a < total - 1 {
            a
        } else {
            total - 1
        }, if b < total {
            b
        } else {
            total
        })
    } else {
        (0, 0)
    }
}

fn push_head(v: &mut Vec<char>, path: &str, start: Option<usize>, end: Option<usize>)
    ensures
        final(v)@ == old(v)@ + "\n"@ + path@ + (if start is Some || end is Some {
            ":"@ + opt_decimal(start) + "-"@ + opt_decimal(end)
        } else {
            seq![]
        }) + "\n```\n"@,
{
    push_str(v, "\n");
    push_str(v, path);
    if start.is_some() || end.is_some() {
        push_str(v, ":");
        match start {
            Some(s) => push_decimal(v, s as u64),
            None => {},
        }
        push_str(v, "-");
        match end {
            Some(e) => push_decimal(v, e as u64),
            None => {},
        }
    }
    push_str(v, "\n```\n");
}

fn push_numbered(v: &mut Vec<char>, ls: &Vec<String>, lo: usize, hi: usize, first: u128)
    requires
        lo <= hi <= ls.len(),
        first <= u64::MAX,
    ensures
        final(v)@ == old(v)@ + numbered(ls.deep_view().subrange(lo as int, hi as int), first as int),
{
    let ghost lv = ls.deep_view();
    let ghost head = v@;
    let mut i = lo;
    while i < hi
        invariant
            lo <= i <= hi <= ls.len(),
            first <= u64::MAX,
            lv == ls.deep_view(),
            v@ == head + numbered(lv.subrange(lo as int, i as int), first as int),
        decreases hi - i,
    {
        proof {
            assert(lv.subrange(lo as int, i + 1).drop_last() =~= lv.subrange(lo as int, i as int));
            assert(lv[i as int] == ls@[i as int]@);
        }
        let n: u128 = first + (i - lo) as u128;
        crate::text::push_decimal_u128(v, n);
        push_str(v, " ");
        push_str(v, ls[i].as_str());
        push_str(v, "\n");
        i += 1;
        proof {
            assert(v@ =~= head + numbered(lv.subrange(lo as int, i as int), first as int));
        }
    }
}

fn push_joined(v: &mut Vec<char>, ls: &Vec<String>, lo: usize, hi: usize)
    requires
        lo <= hi <= ls.len(),
    ensures
        final(v)@ == old(v)@ + join(ls.deep_view().subrange(lo as int, hi as int), "\n"@) + if hi > lo {
            "\n"@
        } else {
            seq![]
        },
{
    let ghost lv = ls.deep_view();
    let ghost head = v@;
    let mut i = lo;
    while i < hi
        invariant
            lo <= i <= hi <= ls.len(),
            lv == ls.deep_view(),
            v@ == head + join(lv.subrange(lo as int, i as int), "\n"@),
        decreases hi - i,
    {
        proof {
            assert(lv.subrange(lo as int, i + 1).drop_last() =~= lv.subrange(lo as int, i as int));
            assert(lv[i as int] == ls@[i as int]@);
        }
        if i > lo {
            push_str(v, "\n");
        }
        push_str(v, ls[i].as_str());
        i += 1;
        proof {
            if i == lo + 1 {
                assert(join(lv.subrange(lo as int, i as int), "\n"@) == lv.subrange(lo as int, i as int)[0]);
            }
            assert(v@ =~= head + join(lv.subrange(lo as int, i as int), "\n"@));
        }
    }
    if hi > lo {
        push_str(v, "\n");
    }
}

/// Each range as `start-end`, joined by ", ".
pub open spec fn ranges_text(unread: Seq<(usize, usize)>) -> Seq<char> {
    join(unread.map_values(|x: (usize, usize)| decimal(x.0 as nat) + "-"@ + decimal(x.1 as nat)), ", "@)
}

fn push_ranges(v: &mut Vec<char>, unread: &Vec<(usize, usize)>)
    ensures
        final(v)@ == old(v)@ + ranges_text(unread@),
{
    let ghost parts = unread@.map_values(|x: (usize, usize)| decimal(x.0 as nat) + "-"@ + decimal(x.1 as nat));
    let ghost start = v@;
    let mut i: usize = 0;
    while i < unread.len()
        invariant
            i <= unread.len(),
            parts == unread@.map_values(|x: (usize, usize)| decimal(x.0 as nat) + "-"@ + decimal(x.1 as nat)),
            v@ == start + join(parts.take(i as int), ", "@),
        decreases unread.len() - i,
    {
        proof {
            assert(parts.take(i + 1).drop_last() =~= parts.take(i as int));
        }
        if i > 0 {
            push_str(v, ", ");
        }
        push_decimal(v, unread[i].0 as u64);
        push_str(v, "-");
        push_decimal(v, unread[i].1 as u64);
        i += 1;
        proof {
            if i == 1 {
                assert(join(parts.take(1), ", "@) == parts.take(1)[0]);
            }
            assert(v@ =~= start + join(parts.take(i as int), ", "@));
        }
    }
    proof {
        assert(parts.take(unread.len() as int) =~= parts);
    }
}

/// "Success: File edited at {path}", with the warnings when there are any.
pub open spec fn edited_message(path: Seq<char>, warnings: Seq<String>) -> Seq<char> {
    "Success: File edited at "@ + path + if warnings.len() > 0 {
        ". Warnings: "@ + join(warnings.map_values(|w: String| w@), ", "@)
    } else {
        seq![]
    }
}

/// The answer after an edit.
pub fn edit_success_text(path: &str, warnings: &Vec<String>) -> (r: String)
    ensures
        r@ == edited_message(path@, warnings@),
{
    let mut v: Vec<char> = Vec::new();
    push_str(&mut v, "Success: File edited at ");
    push_str(&mut v, path);
    if warnings.len() > 0 {
        push_str(&mut v, ". Warnings: ");
        let sep = to_chars(", ");
        let joined = crate::text::join_strings(warnings.as_slice(), sep.as_slice());
        crate::text::push_chars(&mut v, joined.as_slice());
    }
    from_chars(v.as_slice())
}

/// The help shown with a search/replace syntax error.
pub open spec fn format_help() -> Seq<char> {
    "\n\nPlease use one of these formats:\n\n1. Standard format (recommended):\n<<<<<<< SEARCH\nsearch content\n=======\nreplace content\n>>>>>>> REPLACE\n\n2. Simple format:\n<<<\nsearch content\n>>>\nreplace content\n\n3. Markdown code blocks format:\n```\nsearch content\n```\n\n```\nreplace content\n```\n\nCommon mistakes to avoid:\n- Using ORIGINAL instead of SEARCH\n- Using UPDATED instead of REPLACE\n- Missing the divider (=======)\n- Not including enough context to make the match unique"@
}

impl FileEdit {
    /// The marker mistake in `input`, if it uses ORIGINAL or UPDATED
    /// markers (ORIGINAL reported first).
    pub fn marker_mistake(&self, input: &str) -> (r: Option<&'static str>)
        ensures
            contains(input@, "<<<<<<< ORIGINAL"@) ==> (r matches Some(m) && m@
                == "You are using '<<<<<<< ORIGINAL' which is incorrect syntax. Use '<<<<<<< SEARCH' instead."@),
            !contains(input@, "<<<<<<< ORIGINAL"@) && contains(input@, ">>>>>>> UPDATED"@) ==> (r matches Some(m)
                && m@ == "You are using '>>>>>>> UPDATED' which is incorrect syntax. Use '>>>>>>> REPLACE' instead."@),
            !contains(input@, "<<<<<<< ORIGINAL"@) && !contains(input@, ">>>>>>> UPDATED"@) ==> r is None,
    {
        if str_contains(input, "<<<<<<< ORIGINAL") {
            Some("You are using '<<<<<<< ORIGINAL' which is incorrect syntax. Use '<<<<<<< SEARCH' instead.")
        } else if str_contains(input, ">>>>>>> UPDATED") {
            Some("You are using '>>>>>>> UPDATED' which is incorrect syntax. Use '>>>>>>> REPLACE' instead.")
        } else {
            None
        }
    }

    /// The answer to a syntax error: the error, the formats, and (after a
    /// failed parse) an invitation to try again.
    pub fn syntax_error_text(&self, error: &str, retry: bool) -> (r: String)
        ensures
            r@ == "Search/Replace syntax error: "@ + error@ + format_help() + if retry {
                "\n\nTry again with one of these formats."@
            } else {
                seq![]
            },
    {
        let mut v: Vec<char> = Vec::new();
        push_str(&mut v, "Search/Replace syntax error: ");
        push_str(&mut v, error);
        push_str(
            &mut v,
            "\n\nPlease use one of these formats:\n\n1. Standard format (recommended):\n<<<<<<< SEARCH\nsearch content\n=======\nreplace content\n>>>>>>> REPLACE\n\n2. Simple format:\n<<<\nsearch content\n>>>\nreplace content\n\n3. Markdown code blocks format:\n```\nsearch content\n```\n\n```\nreplace content\n```\n\nCommon mistakes to avoid:\n- Using ORIGINAL instead of SEARCH\n- Using UPDATED instead of REPLACE\n- Missing the divider (=======)\n- Not including enough context to make the match unique",
        );
        if retry {
            push_str(&mut v, "\n\nTry again with one of these formats.");
        }
        from_chars(v.as_slice())
    }
}

/// The text of `bytes` in standard base64 (with padding), as
/// `base64::engine::general_purpose::STANDARD` writes it.
pub uninterp spec fn base64_standard(bytes: Seq<u8>) -> Seq<char>;

/// `base64::Engine::encode` with the standard engine: the result is named
/// by `base64_standard` and depends on the bytes alone.
#[verifier::external_body]
fn base64_encode(bytes: &[u8]) -> (r: String)
    ensures
        r@ == base64_standard(bytes@),
{
    base64::Engine::encode(&base64::engine::general_purpose::STANDARD, bytes)
}

/// The MIME type that `mime_guess` gives first for a path, by its
/// extension.
pub uninterp spec fn guessed_mime(path: Seq<char>) -> Seq<char>;

/// `mime_guess::from_path(path).first_or_octet_stream()`: the result is
/// named by `guessed_mime`; a path without an extension gets
/// "application/octet-stream".
#[verifier::external_body]
fn mime_type_of(path: &str) -> (r: String)
    ensures
        r@ == guessed_mime(path@),
        crate::lsp::utils::path_extension(path@) is None ==> r@ == "application/octet-stream"@,
{
    mime_guess::from_path(path).first_or_octet_stream().to_string()
}

impl FileOperations {
    /// An image read from `path` as a data URL: its MIME type, guessed from
    /// the path, and its bytes in base64.
    pub fn image_data_url(&self, path: &str, bytes: &[u8]) -> (r: String)
        ensures
            r@ == "data:"@ + guessed_mime(path@) + ";base64,"@ + base64_standard(bytes@),
    {
        let mime = mime_type_of(path);
        let data = base64_encode(bytes);
        let mut v: Vec<char> = Vec::new();
        push_str(&mut v, "data:");
        push_str(&mut v, mime.as_str());
        push_str(&mut v, ";base64,");
        push_str(&mut v, data.as_str());
        from_chars(v.as_slice())
    }

    /// The answer when the image to read is not there.
    pub fn missing_file_text(&self, path: &str) -> (r: String)
        ensures
            r@ == "Error: File "@ + path@ + " does not exist"@,
    {
        let mut v: Vec<char> = Vec::new();
        push_str(&mut v, "Error: File ");
        push_str(&mut v, path);
        push_str(&mut v, " does not exist");
        from_chars(v.as_slice())
    }
}

/// What `std::path::Path::new(path).file_name()` gives, as text (`None`
/// when the path ends in `..` or is a root).
pub uninterp spec fn path_file_name(path: Seq<char>) -> Option<Seq<char>>;

/// `std::path::Path::file_name`: the result is named by `path_file_name`
/// and depends on the path alone; nothing more is claimed of it.
#[verifier::external_body]
fn file_name_of(path: &str) -> (r: Option<String>)
    ensures
        match r {
            Some(n) => path_file_name(path@) == Some(n@),
            None => path_file_name(path@) is None,
        },
{
    std::path::Path::new(path).file_name().map(|n| n.to_string_lossy().into_owned())
}

impl WriteIfEmpty {
    pub fn new() -> (r: Self) {
        WriteIfEmpty {}
    }

    /// Where to write instead of `path`: an absolute path outside /tmp,
    /// /Users and /home goes to /tmp under its file name.
    pub fn check_and_redirect(&self, path: &str) -> (r: Option<String>)
        ensures
            (path_starts_with(path@, "/"@) && !path_starts_with(path@, "/tmp"@) && !path_starts_with(path@, "/Users"@)
                && !path_starts_with(path@, "/home"@)) ==> (r matches Some(p) && p@ == joined_path(
                "/tmp"@,
                match path_file_name(path@) {
                    Some(n) => n,
                    None => seq![],
                },
            )),
            !(path_starts_with(path@, "/"@) && !path_starts_with(path@, "/tmp"@) && !path_starts_with(path@, "/Users"@)
                && !path_starts_with(path@, "/home"@)) ==> r is None,
    {
        if crate::security::path_has_prefix(path, "/") && !crate::security::path_has_prefix(path, "/tmp")
            && !crate::security::path_has_prefix(path, "/Users") && !crate::security::path_has_prefix(path, "/home") {
            let name = match file_name_of(path) {
                Some(n) => n,
                None => String::new(),
            };
            Some(crate::lsp::utils::to_absolute_path(name.as_str(), "/tmp"))
        } else {
            None
        }
    }

    /// The warning when the file goes elsewhere than asked.
    pub fn redirect_warning(&self, used: &str, asked: &str) -> (r: String)
        ensures
            r@ == "Warning: Using "@ + used@ + " instead of "@ + asked@
                + " because the target may be in a read-only location"@,
    {
        let mut v: Vec<char> = Vec::new();
        push_str(&mut v, "Warning: Using ");
        push_str(&mut v, used);
        push_str(&mut v, " instead of ");
        push_str(&mut v, asked);
        push_str(&mut v, " because the target may be in a read-only location");
        from_chars(v.as_slice())
    }

    /// The refusal for a file that is already there and not empty.
    pub fn not_empty_text(&self, path: &str) -> (r: String)
        ensures
            r@ == "Error: File "@ + path@ + " already exists and is not empty. Use FileEdit to modify existing files."@,
    {
        let mut v: Vec<char> = Vec::new();
        push_str(&mut v, "Error: File ");
        push_str(&mut v, path);
        push_str(&mut v, " already exists and is not empty. Use FileEdit to modify existing files.");
        from_chars(v.as_slice())
    }

    /// The answer once the file is created: any warning, then the success
    /// line with the syntax warnings when there are any.
    pub fn created_text(&self, warning: Option<&str>, path: &str, syntax_warnings: &Vec<String>) -> (r: String)
        ensures
            r@ == (match warning {
                Some(w) => w@ + "\n\n"@,
                None => seq![],
            }) + "Success: New file created at "@ + path@ + if syntax_warnings@.len() > 0 {
                ". Syntax warnings: "@ + join(syntax_warnings@.map_values(|w: String| w@), ", "@)
            } else {
                seq![]
            },
    {
        let mut v: Vec<char> = Vec::new();
        match warning {
            Some(w) => {
                push_str(&mut v, w);
                push_str(&mut v, "\n\n");
            },
            None => {},
        }
        push_str(&mut v, "Success: New file created at ");
        push_str(&mut v, path);
        if syntax_warnings.len() > 0 {
            push_str(&mut v, ". Syntax warnings: ");
            let sep = to_chars(", ");
            let joined = crate::text::join_strings(syntax_warnings.as_slice(), sep.as_slice());
            crate::text::push_chars(&mut v, joined.as_slice());
        }
        from_chars(v.as_slice())
    }
}

/// The kind of a failed file-system operation, as far as the tools decide
/// on it.
#[derive(Debug, Clone, Copy, PartialEq, Eq, Structural)]
pub enum FsErrorKind {
    /// Permission was denied.
    PermissionDenied,
    /// The file system is mounted read-only.
    ReadOnlyFilesystem,
    /// A kind std leaves uncategorised.
    Other,
    /// Any other kind.
    Different,
}

/// `path` written under /tmp: the file's name joined onto /tmp (an empty
/// name where it has none).
pub open spec fn tmp_path_spec(path: Seq<char>) -> Seq<char> {
    joined_path(
        "/tmp"@,
        match path_file_name(path) {
            Some(n) => n,
            None => seq![],
        },
    )
}

impl WriteIfEmpty {
    /// Where to write `path` instead, after creating its directory or
    /// writing it failed with `kind`: under /tmp where permission was denied
    /// or the kind is uncategorised; nowhere otherwise.
    pub fn write_fallback(&self, path: &str, kind: FsErrorKind) -> (r: Option<String>)
        ensures
            match kind {
                FsErrorKind::PermissionDenied | FsErrorKind::Other => r matches Some(p) && p@
                    == tmp_path_spec(path@),
                _ => r is None,
            },
    {
        match kind {
            FsErrorKind::PermissionDenied | FsErrorKind::Other => {
                let name = match file_name_of(path) {
                    Some(n) => n,
                    None => String::new(),
                };
                Some(crate::lsp::utils::to_absolute_path(name.as_str(), "/tmp"))
            },
            _ => None,
        }
    }

    /// The answer once the file went under /tmp because its directory
    /// could not be created.
    pub fn dir_fallback_text(&self, path: &str, error: &str, used: &str) -> (r: String)
        ensures
            r@ == "Warning: Could not create directory '"@ + path@ + "' due to permission error: "@
                + error@ + ". Using '"@ + used@ + "' instead.\n\nSuccess: New file created at "@ + used@,
    {
        let mut v: Vec<char> = Vec::new();
        push_str(&mut v, "Warning: Could not create directory '");
        push_str(&mut v, path);
        push_str(&mut v, "' due to permission error: ");
        push_str(&mut v, error);
        push_str(&mut v, ". Using '");
        push_str(&mut v, used);
        push_str(&mut v, "' instead.\n\nSuccess: New file created at ");
        push_str(&mut v, used);
        from_chars(v.as_slice())
    }

    /// The error when not even /tmp could be made.
    pub fn tmp_dir_failed_text(&self, error: &str) -> (r: String)
        ensures
            r@ == "Could not create directory even in /tmp: "@ + error@
                + ". Please specify a path where you have write permissions."@,
    {
        let mut v: Vec<char> = Vec::new();
        push_str(&mut v, "Could not create directory even in /tmp: ");
        push_str(&mut v, error);
        push_str(&mut v, ". Please specify a path where you have write permissions.");
        from_chars(v.as_slice())
    }

    /// The error when the directory could not be created for another
    /// reason.
    pub fn dir_failed_text(&self, error: &str) -> (r: String)
        ensures
            r@ == "Failed to create directory: "@ + error@,
    {
        let mut v: Vec<char> = Vec::new();
        push_str(&mut v, "Failed to create directory: ");
        push_str(&mut v, error);
        from_chars(v.as_slice())
    }

    /// The error when writing under /tmp failed after the directory could
    /// not be created.
    pub fn tmp_write_failed_text(&self, error: &str) -> (r: String)
        ensures
            r@ == "Failed to write file to /tmp path: "@ + error@,
    {
        let mut v: Vec<char> = Vec::new();
        push_str(&mut v, "Failed to write file to /tmp path: ");
        push_str(&mut v, error);
        from_chars(v.as_slice())
    }

    /// The answer once the file went under /tmp because writing it failed.
    pub fn write_fallback_text(&self, path: &str, used: &str) -> (r: String)
        ensures
            r@ == "Warning: Could not write to "@ + path@ + " due to permission error. File created at "@
                + used@ + " instead."@,
    {
        let mut v: Vec<char> = Vec::new();
        push_str(&mut v, "Warning: Could not write to ");
        push_str(&mut v, path);
        push_str(&mut v, " due to permission error. File created at ");
        push_str(&mut v, used);
        push_str(&mut v, " instead.");
        from_chars(v.as_slice())
    }

    /// The error when writing failed both where asked and under /tmp.
    pub fn both_failed_text(&self, error: &str, tmp_error: &str) -> (r: String)
        ensures
            r@ == "Failed to write file to both original location and /tmp. Original error: "@ + error@
                + ". /tmp error: "@ + tmp_error@,
    {
        let mut v: Vec<char> = Vec::new();
        push_str(&mut v, "Failed to write file to both original location and /tmp. Original error: ");
        push_str(&mut v, error);
        push_str(&mut v, ". /tmp error: ");
        push_str(&mut v, tmp_error);
        from_chars(v.as_slice())
    }

    /// The error when writing failed for another reason.
    pub fn write_failed_text(&self, error: &str) -> (r: String)
        ensures
            r@ == "Failed to write file: "@ + error@,
    {
        let mut v: Vec<char> = Vec::new();
        push_str(&mut v, "Failed to write file: ");
        push_str(&mut v, error);
        from_chars(v.as_slice())
    }
}

impl Default for WriteIfEmpty {
    fn default() -> (r: Self) {
        WriteIfEmpty {}
    }
}

} // verus!
