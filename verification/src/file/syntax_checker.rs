//! Quick syntax checks of a file's content, chosen by its extension.
use vstd::prelude::*;
use crate::lsp::types::lowercase;
use crate::lsp::utils::{get_file_extension, path_extension};
use crate::text::{
    byte_len, byte_len_of, contains, decimal, ends_with, from_chars, is_blank, leading_ws, lines,
    occurs_at, owned, push_decimal, push_str, starts_with, str_contains, str_eq, to_chars, trim,
    trim_chars,
};

verus! {

/// How often `p` occurs in `s` from position `i` on, counting
/// non-overlapping occurrences from the left (what `str::matches` counts).
pub open spec fn count_from(s: Seq<char>, p: Seq<char>, i: int) -> nat
    decreases s.len() - i,
{
    if p.len() == 0 || i < 0 || i + p.len() > s.len() {
        0
    } else if occurs_at(s, p, i) {
        1 + count_from(s, p, i + p.len())
    } else {
        count_from(s, p, i + 1)
    }
}

pub open spec fn count_matches(s: Seq<char>, p: Seq<char>) -> nat {
    count_from(s, p, 0)
}

fn count_matches_exec(s: &[char], p: &[char]) -> (n: usize)
    requires
        p@.len() >= 1,
    ensures
        n == count_matches(s@, p@),
{
    let mut n: usize = 0;
    let mut i: usize = 0;
    if p.len() > s.len() {
        return 0;
    }
    let last = s.len() - p.len();
    while i <= last
        invariant
            p@.len() >= 1,
            last == s.len() - p.len(),
            i <= s.len(),
            n <= i,
            n + count_from(s@, p@, i as int) == count_matches(s@, p@),
        decreases s.len() - i,
    {
        if crate::text::occurs_at_exec(s, p, i) {
            n += 1;
            i += p.len();
        } else {
            i += 1;
        }
    }
    n
}

fn count_in(content: &[char], p: &str) -> (n: usize)
    requires
        p@.len() >= 1,
    ensures
        n == count_matches(content@, p@),
{
    let pv = to_chars(p);
    count_matches_exec(content, pv.as_slice())
}

/// "Warning: Unbalanced brackets - {open} open vs {close} closed", when the
/// counts of `{` and `}` differ.
pub open spec fn bracket_warning(c: Seq<char>) -> Seq<Seq<char>> {
    let open = count_matches(c, "{"@);
    let close = count_matches(c, "}"@);
    if open != close {
        seq!["Warning: Unbalanced brackets - "@ + decimal(open) + " open vs "@ + decimal(close) + " closed"@]
    } else {
        seq![]
    }
}

/// The same for `(` and `)`.
pub open spec fn paren_warning(c: Seq<char>) -> Seq<Seq<char>> {
    let open = count_matches(c, "("@);
    let close = count_matches(c, ")"@);
    if open != close {
        seq!["Warning: Unbalanced parentheses - "@ + decimal(open) + " open vs "@ + decimal(close) + " closed"@]
    } else {
        seq![]
    }
}

/// The leading whitespace of a line, in bytes.
pub open spec fn indent_bytes(line: Seq<char>) -> nat {
    byte_len(line.take(leading_ws(line) as int))
}

/// A Python line the indentation check looks at: not blank, not a comment.
pub open spec fn python_code_line(line: Seq<char>) -> bool {
    !is_blank(line) && !starts_with(trim(line), "#"@)
}

/// The indentation check over lines `k..` of `ls`, with the first indent
/// width seen so far: the first indented line sets the width, and the first
/// later one whose width is no multiple of it is reported.
pub open spec fn indent_check(ls: Seq<Seq<char>>, k: int, standard: Option<nat>) -> Seq<Seq<char>>
    decreases ls.len() - k,
{
    if k < 0 || k >= ls.len() {
        seq![]
    } else if !python_code_line(ls[k]) || indent_bytes(ls[k]) == 0 {
        indent_check(ls, k + 1, standard)
    } else {
        match standard {
            Some(w) => if indent_bytes(ls[k]) % w != 0 {
                seq![
                    "Warning: Inconsistent indentation - line uses "@ + decimal(indent_bytes(ls[k]))
                        + " spaces but standard is multiple of "@ + decimal(w),
                ]
            } else {
                indent_check(ls, k + 1, standard)
            },
            None => indent_check(ls, k + 1, Some(indent_bytes(ls[k]))),
        }
    }
}

/// A JavaScript line that looks like a statement without its semicolon.
pub open spec fn lacks_semicolon(line: Seq<char>) -> bool {
    let t = trim(line);
    t.len() > 0 && !ends_with(t, "{"@) && !ends_with(t, "}"@) && !ends_with(t, ";"@) && !ends_with(t, ":"@)
        && !starts_with(t, "//"@) && !contains(t, "=>"@) && !contains(t, "function"@)
}

/// The semicolon warnings for lines `0..k`.
pub open spec fn semicolon_warnings(ls: Seq<Seq<char>>, k: int) -> Seq<Seq<char>>
    decreases k,
{
    if k <= 0 || k > ls.len() {
        seq![]
    } else {
        semicolon_warnings(ls, k - 1) + if lacks_semicolon(ls[k - 1]) {
            seq![
                "Warning: Possible missing semicolon at line "@ + decimal(k as nat)
                    + ". Most JavaScript statements should end with a semicolon."@,
            ]
        } else {
            seq![]
        }
    }
}

/// The long-line warnings for lines `0..k`.
pub open spec fn long_line_warnings(ls: Seq<Seq<char>>, k: int) -> Seq<Seq<char>>
    decreases k,
{
    if k <= 0 || k > ls.len() {
        seq![]
    } else {
        long_line_warnings(ls, k - 1) + if byte_len(ls[k - 1]) > 120 {
            seq![
                "Warning: Line "@ + decimal(k as nat) + " is very long ("@ + decimal(byte_len(ls[k - 1]))
                    + " characters). Consider breaking it into multiple lines for better readability."@,
            ]
        } else {
            seq![]
        }
    }
}

/// The HTML tags whose openings and closings are counted.
pub open spec fn html_tags() -> Seq<Seq<char>> {
    seq!["div"@, "p"@, "span"@, "a"@, "table"@, "tr"@, "td"@]
}

/// The tag warnings for the first `k` tags.
pub open spec fn tag_warnings(c: Seq<char>, k: int) -> Seq<Seq<char>>
    decreases k,
{
    if k <= 0 || k > html_tags().len() {
        seq![]
    } else {
        let tag = html_tags()[k - 1];
        let open = count_matches(c, "<"@ + tag);
        let close = count_matches(c, "</"@ + tag);
        tag_warnings(c, k - 1) + if open != close {
            seq![
                "Warning: Unbalanced <"@ + tag + "> tags - "@ + decimal(open) + " opening tags vs "@
                    + decimal(close) + " closing tags. Each opening tag requires a matching closing tag."@,
            ]
        } else {
            seq![]
        }
    }
}

/// What `serde_json::from_str::<serde_json::Value>(content)` reports: `None`
/// when the text is valid JSON, else the error's text.
pub uninterp spec fn json_error(content: Seq<char>) -> Option<Seq<char>>;

/// `serde_json::from_str` into a `Value`, and the `Display` of its error:
/// the result is named by `json_error` and depends on the text alone;
/// nothing more is claimed of it.
#[verifier::external_body]
fn json_error_of(content: &str) -> (r: Option<String>)
    ensures
        match r {
            Some(e) => json_error(content@) == Some(e@),
            None => json_error(content@) is None,
        },
{
    match serde_json::from_str::<serde_json::Value>(content) {
        Ok(_) => None,
        Err(e) => Some(e.to_string()),
    }
}

/// A Python line that opens with `kw` (after its indentation) but does
/// not end with a colon.
pub open spec fn lacks_colon(l: Seq<char>, kw: Seq<char>) -> bool {
    crate::text::starts_with(trim(l), kw) && !crate::text::ends_with(trim(l), ":"@)
}

/// Some of the first `n` lines of `ls` opens with `kw` but lacks its colon.
pub open spec fn some_lacks_colon(ls: Seq<Seq<char>>, kw: Seq<char>, n: int) -> bool
    decreases n,
{
    if n <= 0 {
        false
    } else {
        some_lacks_colon(ls, kw, n - 1) || lacks_colon(ls[n - 1], kw)
    }
}

/// The warnings for content of the (lower-cased) extension `ext`.
pub open spec fn syntax_warnings(ext: Seq<char>, c: Seq<char>) -> Seq<Seq<char>> {
    if ext == "rs"@ {
        (if !contains(c, "fn "@) && contains(c, "pub fn"@) {
            seq![
                "Warning: File contains 'pub fn' but no regular 'fn' declarations. Check function visibility."@,
            ]
        } else {
            seq![]
        }) + bracket_warning(c) + paren_warning(c)
    } else if ext == "py"@ {
        indent_check(lines(c), 0, None) + (if some_lacks_colon(lines(c), "if "@, lines(c).len() as int) {
            seq![
                "Warning: 'if' statement without colon. Python requires a colon after condition statements."@,
            ]
        } else {
            seq![]
        }) + (if some_lacks_colon(lines(c), "def "@, lines(c).len() as int) {
            seq![
                "Warning: 'def' statement without colon. Python functions require a colon after parameter list."@,
            ]
        } else {
            seq![]
        })
    } else if ext == "js"@ || ext == "ts"@ || ext == "jsx"@ || ext == "tsx"@ {
        bracket_warning(c) + semicolon_warnings(lines(c), lines(c).len() as int)
    } else if ext == "go"@ {
        bracket_warning(c) + if !contains(c, "package "@) {
            seq![
                "Warning: Missing 'package' declaration. All Go files must declare their package name."@,
            ]
        } else {
            seq![]
        }
    } else if ext == "html"@ {
        let has_html = contains(c, "<html"@) || contains(c, "<HTML"@);
        let has_head = contains(c, "<head"@) || contains(c, "<HEAD"@);
        let has_body = contains(c, "<body"@) || contains(c, "<BODY"@);
        (if has_html && (!has_head || !has_body) {
            seq![
                "Warning: HTML file contains <html> tag but is missing <head> or <body> tags. Standard HTML documents require both."@,
            ]
        } else {
            seq![]
        }) + tag_warnings(c, html_tags().len() as int)
    } else if ext == "css"@ {
        bracket_warning(c)
    } else if ext == "json"@ {
        match json_error(c) {
            Some(e) => seq![
                "Warning: Invalid JSON structure - "@ + e + ". Check for missing commas, brackets, or quotes."@,
            ],
            None => seq![],
        }
    } else {
        long_line_warnings(lines(c), lines(c).len() as int)
    }
}

/// What the checks report for `file_path`: nothing for a path with no
/// extension, else the checks of its lower-cased extension.
pub open spec fn check_result(file_path: Seq<char>, content: Seq<char>) -> Seq<Seq<char>> {
    match path_extension(file_path) {
        None => seq![],
        Some(e) => syntax_warnings(lowercase(e), content),
    }
}

fn push_text(out: &mut Vec<String>, v: &Vec<char>)
    ensures
        final(out)@.map_values(|s: String| s@) == old(out)@.map_values(|s: String| s@).push(v@),
{
    let s = from_chars(v.as_slice());
    let ghost before = out@.map_values(|s: String| s@);
    out.push(s);
    proof {
        assert(out@.map_values(|s: String| s@) =~= before.push(s@));
    }
}

fn bracket_warning_exec(c: &[char], out: &mut Vec<String>)
    ensures
        final(out)@.map_values(|s: String| s@) == old(out)@.map_values(|s: String| s@) + bracket_warning(c@),
{
    proof {
        reveal_strlit("{");
        reveal_strlit("}");
    }
    let open = count_in(c, "{");
    let close = count_in(c, "}");
    if open != close {
        let mut v: Vec<char> = Vec::new();
        push_str(&mut v, "Warning: Unbalanced brackets - ");
        push_decimal(&mut v, open as u64);
        push_str(&mut v, " open vs ");
        push_decimal(&mut v, close as u64);
        push_str(&mut v, " closed");
        let ghost before = out@.map_values(|s: String| s@);
        push_text(out, &v);
        proof {
            assert(out@.map_values(|s: String| s@) =~= before + bracket_warning(c@));
        }
    } else {
        proof {
            assert(old(out)@.map_values(|s: String| s@) + bracket_warning(c@) =~= old(out)@.map_values(
                |s: String| s@,
            ));
        }
    }
}

fn push_one(out: &mut Vec<String>, text: &str)
    ensures
        final(out)@.map_values(|s: String| s@) == old(out)@.map_values(|s: String| s@) + seq![text@],
{
    let ghost before = out@.map_values(|s: String| s@);
    out.push(owned(text));
    proof {
        assert(out@.map_values(|s: String| s@) =~= before + seq![text@]);
    }
}

fn python_warnings(c: &[char], text: &str, out: &mut Vec<String>)
    requires
        c@ == text@,
    ensures
        final(out)@.map_values(|s: String| s@) == old(out)@.map_values(|s: String| s@) + syntax_warnings(
            "py"@,
            c@,
        ),
{
    proof {
        reveal_strlit("rs");
        reveal_strlit("py");
        assert("rs"@ != "py"@) by {
            assert("rs"@[0] != "py"@[0]);
        }
    }
    let ls = crate::text::split_lines(text);
    let ghost lv = lines(c@);
    let ghost start = out@.map_values(|s: String| s@);
    let mut standard: Option<u128> = None;
    let mut i: usize = 0;
    let mut reported = false;
    while i < ls.len()
        invariant_except_break
            i <= ls.len(),
            ls.deep_view() == lv,
            !reported,
            out@.map_values(|s: String| s@) == start,
            indent_check(lv, 0, None) == indent_check(lv, i as int, match standard {
                Some(w) => Some(w as nat),
                None => None,
            }),
            match standard {
                Some(w) => w > 0,
                None => true,
            },
        ensures
            ls.deep_view() == lv,
            out@.map_values(|s: String| s@) == start + indent_check(lv, 0, None),
        decreases ls.len() - i,
    {
        proof {
            assert(ls.deep_view()[i as int] == ls@[i as int]@);
        }
        let line = to_chars(ls[i].as_str());
        let blank = crate::text::chars_blank(line.as_slice());
        let t = trim_chars(line.as_slice());
        let hash = to_chars("#");
        let comment = crate::text::starts_with_chars(t.as_slice(), hash.as_slice());
        let k = crate::text::count_leading_ws(line.as_slice());
        proof {
            crate::text::lemma_leading_ws_bounds(line@);
            crate::text::lemma_blank_iff_trim_empty(line@);
        }
        let ind = crate::text::slice_chars(line.as_slice(), 0, k);
        let spaces = byte_len_of(ind.as_slice());
        proof {
            assert(ind@ =~= line@.take(leading_ws(line@) as int));
        }
        if !blank && !comment && spaces > 0 {
            match standard {
                Some(w) => {
                    if spaces % w != 0 {
                        let mut v: Vec<char> = Vec::new();
                        push_str(&mut v, "Warning: Inconsistent indentation - line uses ");
                        push_decimal_wide(&mut v, spaces);
                        push_str(&mut v, " spaces but standard is multiple of ");
                        push_decimal_wide(&mut v, w);
                        push_text(out, &v);
                        proof {
                            assert(out@.map_values(|s: String| s@) =~= start + indent_check(lv, 0, None));
                        }
                        break;
                    }
                },
                None => {
                    standard = Some(spaces);
                },
            }
        }
        i += 1;
    }
    let kw_if = to_chars("if ");
    let kw_def = to_chars("def ");
    let colon = to_chars(":");
    let mut open_if = false;
    let mut open_def = false;
    let mut j: usize = 0;
    while j < ls.len()
        invariant
            j <= ls.len(),
            ls.deep_view() == lv,
            kw_if@ == "if "@,
            kw_def@ == "def "@,
            colon@ == ":"@,
            open_if == some_lacks_colon(lv, "if "@, j as int),
            open_def == some_lacks_colon(lv, "def "@, j as int),
        decreases ls.len() - j,
    {
        proof {
            assert(ls.deep_view()[j as int] == ls@[j as int]@);
        }
        let line = to_chars(ls[j].as_str());
        let t = trim_chars(line.as_slice());
        let ends = crate::text::ends_with_chars(t.as_slice(), colon.as_slice());
        if !ends && crate::text::starts_with_chars(t.as_slice(), kw_if.as_slice()) {
            open_if = true;
        }
        if !ends && crate::text::starts_with_chars(t.as_slice(), kw_def.as_slice()) {
            open_def = true;
        }
        j += 1;
    }
    if open_if {
        push_one(out, "Warning: 'if' statement without colon. Python requires a colon after condition statements.");
    }
    if open_def {
        push_one(
            out,
            "Warning: 'def' statement without colon. Python functions require a colon after parameter list.",
        );
    }
    proof {
        assert(out@.map_values(|s: String| s@) =~= start + syntax_warnings("py"@, c@));
    }
}

/// `n` in decimal.
fn push_decimal_wide(out: &mut Vec<char>, n: u128)
    ensures
        final(out)@ == old(out)@ + decimal(n as nat),
    decreases n,
{
    if n < 10 {
        push_decimal(out, n as u64);
    } else {
        push_decimal_wide(out, n / 10);
        let d = (n % 10) as u64;
        let ghost mid = out@;
        push_decimal(out, d);
        proof {
            assert(decimal(d as nat) =~= seq![crate::text::digit(d as nat)]);
            assert(decimal(n as nat) == decimal((n / 10) as nat).push(crate::text::digit((n % 10) as nat)));
            assert(out@ =~= old(out)@ + decimal(n as nat));
        }
    }
}

/// Performs basic syntax checking on a file's content based on its file
/// extension, and reports the warnings found.
pub fn check_syntax(file_path: &str, content: &str) -> (r: Vec<String>)
    ensures
        r@.map_values(|s: String| s@) == check_result(file_path@, content@),
{
    let mut out: Vec<String> = Vec::new();
    let ext0 = match get_file_extension(file_path) {
        Some(e) => e,
        None => {
            proof {
                assert(out@.map_values(|s: String| s@) =~= Seq::<Seq<char>>::empty());
            }
            return out;
        },
    };
    let ext = crate::lsp::types::to_lower(ext0.as_str());
    let c = to_chars(content);
    proof {
        assert(out@.map_values(|s: String| s@) =~= Seq::<Seq<char>>::empty());
    }
    let e = ext.as_str();
    if str_eq(e, "rs") {
        if !str_contains(content, "fn ") && str_contains(content, "pub fn") {
            push_one(&mut out, "Warning: File contains 'pub fn' but no regular 'fn' declarations. Check function visibility.");
        }
        bracket_warning_exec(c.as_slice(), &mut out);
        proof {
            reveal_strlit("(");
            reveal_strlit(")");
        }
        let open = count_in(c.as_slice(), "(");
        let close = count_in(c.as_slice(), ")");
        if open != close {
            let mut v: Vec<char> = Vec::new();
            push_str(&mut v, "Warning: Unbalanced parentheses - ");
            push_decimal(&mut v, open as u64);
            push_str(&mut v, " open vs ");
            push_decimal(&mut v, close as u64);
            push_str(&mut v, " closed");
            push_text(&mut out, &v);
        }
        proof {
            assert(out@.map_values(|s: String| s@) =~= syntax_warnings(e@, c@));
        }
    } else if str_eq(e, "py") {
        python_warnings(c.as_slice(), content, &mut out);
        proof {
            assert(out@.map_values(|s: String| s@) =~= syntax_warnings(e@, c@));
        }
    } else if str_eq(e, "js") || str_eq(e, "ts") || str_eq(e, "jsx") || str_eq(e, "tsx") {
        bracket_warning_exec(c.as_slice(), &mut out);
        semicolon_exec(content, &mut out);
        proof {
            assert(out@.map_values(|s: String| s@) =~= syntax_warnings(e@, c@));
        }
    } else if str_eq(e, "go") {
        bracket_warning_exec(c.as_slice(), &mut out);
        if !str_contains(content, "package ") {
            push_one(&mut out, "Warning: Missing 'package' declaration. All Go files must declare their package name.");
        }
        proof {
            assert(out@.map_values(|s: String| s@) =~= syntax_warnings(e@, c@));
        }
    } else if str_eq(e, "html") {
        let has_html = str_contains(content, "<html") || str_contains(content, "<HTML");
        let has_head = str_contains(content, "<head") || str_contains(content, "<HEAD");
        let has_body = str_contains(content, "<body") || str_contains(content, "<BODY");
        if has_html && (!has_head || !has_body) {
            push_one(
                &mut out,
                "Warning: HTML file contains <html> tag but is missing <head> or <body> tags. Standard HTML documents require both.",
            );
        }
        tags_exec(c.as_slice(), &mut out);
        proof {
            assert(out@.map_values(|s: String| s@) =~= syntax_warnings(e@, c@));
        }
    } else if str_eq(e, "css") {
        bracket_warning_exec(c.as_slice(), &mut out);
        proof {
            assert(out@.map_values(|s: String| s@) =~= syntax_warnings(e@, c@));
        }
    } else if str_eq(e, "json") {
        match json_error_of(content) {
            Some(err) => {
                let mut v: Vec<char> = Vec::new();
                push_str(&mut v, "Warning: Invalid JSON structure - ");
                push_str(&mut v, err.as_str());
                push_str(&mut v, ". Check for missing commas, brackets, or quotes.");
                push_text(&mut out, &v);
            },
            None => {},
        }
        proof {
            assert(out@.map_values(|s: String| s@) =~= syntax_warnings(e@, c@));
        }
    } else {
        long_lines_exec(content, &mut out);
        proof {
            assert(out@.map_values(|s: String| s@) =~= syntax_warnings(e@, c@));
        }
    }
    out
}

fn semicolon_exec(content: &str, out: &mut Vec<String>)
    ensures
        final(out)@.map_values(|s: String| s@) == old(out)@.map_values(|s: String| s@) + semicolon_warnings(
            lines(content@),
            lines(content@).len() as int,
        ),
{
    let ls = crate::text::split_lines(content);
    let ghost lv = lines(content@);
    let ghost start = out@.map_values(|s: String| s@);
    let mut i: usize = 0;
    while i < ls.len()
        invariant
            i <= ls.len(),
            ls.deep_view() == lv,
            out@.map_values(|s: String| s@) == start + semicolon_warnings(lv, i as int),
        decreases ls.len() - i,
    {
        proof {
            assert(ls.deep_view()[i as int] == ls@[i as int]@);
        }
        let t = crate::text::trim_str(ls[i].as_str());
        let ts = t.as_str();
        let missing = !ts.is_empty() && !crate::text::str_ends_with(ts, "{") && !crate::text::str_ends_with(ts, "}")
            && !crate::text::str_ends_with(ts, ";") && !crate::text::str_ends_with(ts, ":")
            && !crate::text::str_starts_with(ts, "//") && !str_contains(ts, "=>") && !str_contains(ts, "function");
        if missing {
            let mut v: Vec<char> = Vec::new();
            push_str(&mut v, "Warning: Possible missing semicolon at line ");
            push_decimal(&mut v, (i + 1) as u64);
            push_str(&mut v, ". Most JavaScript statements should end with a semicolon.");
            push_text(out, &v);
        }
        i += 1;
        proof {
            assert(out@.map_values(|s: String| s@) =~= start + semicolon_warnings(lv, i as int));
        }
    }
}

fn long_lines_exec(content: &str, out: &mut Vec<String>)
    ensures
        final(out)@.map_values(|s: String| s@) == old(out)@.map_values(|s: String| s@) + long_line_warnings(
            lines(content@),
            lines(content@).len() as int,
        ),
{
    let ls = crate::text::split_lines(content);
    let ghost lv = lines(content@);
    let ghost start = out@.map_values(|s: String| s@);
    let mut i: usize = 0;
    while i < ls.len()
        invariant
            i <= ls.len(),
            ls.deep_view() == lv,
            out@.map_values(|s: String| s@) == start + long_line_warnings(lv, i as int),
        decreases ls.len() - i,
    {
        proof {
            assert(ls.deep_view()[i as int] == ls@[i as int]@);
        }
        let lc = to_chars(ls[i].as_str());
        let b = byte_len_of(lc.as_slice());
        if b > 120 {
            let mut v: Vec<char> = Vec::new();
            push_str(&mut v, "Warning: Line ");
            push_decimal(&mut v, (i + 1) as u64);
            push_str(&mut v, " is very long (");
            push_decimal_wide(&mut v, b);
            push_str(&mut v, " characters). Consider breaking it into multiple lines for better readability.");
            push_text(out, &v);
        }
        i += 1;
        proof {
            assert(out@.map_values(|s: String| s@) =~= start + long_line_warnings(lv, i as int));
        }
    }
}

fn tags_exec(c: &[char], out: &mut Vec<String>)
    ensures
        final(out)@.map_values(|s: String| s@) == old(out)@.map_values(|s: String| s@) + tag_warnings(
            c@,
            html_tags().len() as int,
        ),
{
    let tags: Vec<&'static str> = vec!["div", "p", "span", "a", "table", "tr", "td"];
    proof {
        assert(tags@.map_values(|t: &str| t@) =~= html_tags());
    }
    let ghost start = out@.map_values(|s: String| s@);
    let mut i: usize = 0;
    while i < tags.len()
        invariant
            i <= tags.len(),
            tags@.map_values(|t: &str| t@) == html_tags(),
            out@.map_values(|s: String| s@) == start + tag_warnings(c@, i as int),
        decreases tags.len() - i,
    {
        let tag = tags[i];
        proof {
            assert(tag@ == html_tags()[i as int]);
            reveal_strlit("<");
            reveal_strlit("</");
        }
        let mut o: Vec<char> = Vec::new();
        push_str(&mut o, "<");
        push_str(&mut o, tag);
        let mut cl: Vec<char> = Vec::new();
        push_str(&mut cl, "</");
        push_str(&mut cl, tag);
        let open = count_matches_exec(c, o.as_slice());
        let close = count_matches_exec(c, cl.as_slice());
        if open != close {
            let mut v: Vec<char> = Vec::new();
            push_str(&mut v, "Warning: Unbalanced <");
            push_str(&mut v, tag);
            push_str(&mut v, "> tags - ");
            push_decimal(&mut v, open as u64);
            push_str(&mut v, " opening tags vs ");
            push_decimal(&mut v, close as u64);
            push_str(&mut v, " closing tags. Each opening tag requires a matching closing tag.");
            push_text(out, &v);
        }
        i += 1;
        proof {
            assert(out@.map_values(|s: String| s@) =~= start + tag_warnings(c@, i as int));
        }
    }
}

} // verus!
