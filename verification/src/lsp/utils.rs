//! Paths of source files, and ranges of text in them: taking, replacing
//! and inserting text at line and byte positions.
use vstd::prelude::*;
use crate::lsp::symbol::{SymbolPosition, SymbolRange};
use crate::text::{byte_len, char_count_at_byte, from_chars, join, lines, push_chars, push_str, repeat, to_chars};

verus! {

/// What `std::path::Path::new(root).join(relative)` gives, as text.
pub uninterp spec fn joined_path(root: Seq<char>, relative: Seq<char>) -> Seq<char>;

/// What `std::path::Path::new(path).extension()` gives, as text.
pub uninterp spec fn path_extension(path: Seq<char>) -> Option<Seq<char>>;

/// `std::path::Path::join`: the result is named by `joined_path` and
/// depends on the two paths alone; nothing more is claimed of it.
#[verifier::external_body]
fn join_paths(root: &str, relative: &str) -> (r: String)
    ensures
        r@ == joined_path(root@, relative@),
{
    std::path::Path::new(root).join(relative).to_string_lossy().into_owned()
}

/// `std::path::Path::extension`: the result is named by `path_extension` and
/// depends on the path alone; nothing more is claimed of it.
#[verifier::external_body]
fn extension_of(path: &str) -> (r: Option<String>)
    ensures
        match r {
            Some(e) => path_extension(path@) == Some(e@),
            None => path_extension(path@) is None,
        },
{
    std::path::Path::new(path).extension().and_then(|e| e.to_str()).map(|s| s.to_string())
}

/// Convert a relative path to an absolute path: `relative` joined onto
/// `root_path`.
pub fn to_absolute_path(relative_path: &str, root_path: &str) -> (r: String)
    ensures
        r@ == joined_path(root_path@, relative_path@),
{
    join_paths(root_path, relative_path)
}

/// Get the extension of a file path
pub fn get_file_extension(path: &str) -> (r: Option<String>)
    ensures
        match r {
            Some(e) => path_extension(path@) == Some(e@),
            None => path_extension(path@) is None,
        },
{
    extension_of(path)
}


// ---------------------------------------------------------------------------
// Ranges of text

/// Byte `b` of `s` falls between two characters.
pub open spec fn sliceable(s: Seq<char>, b: nat) -> bool {
    char_count_at_byte(s, b) is Some
}

/// The characters of `s` before byte `b`.
pub open spec fn before_byte(s: Seq<char>, b: nat) -> Seq<char> {
    s.take(char_count_at_byte(s, b)->Some_0 as int)
}

/// The characters of `s` from byte `b` on.
pub open spec fn from_byte(s: Seq<char>, b: nat) -> Seq<char> {
    s.skip(char_count_at_byte(s, b)->Some_0 as int)
}

pub open spec fn min_nat(a: nat, b: nat) -> nat {
    if a < b {
        a
    } else {
        b
    }
}

/// The line numbered `i`, or nothing past the end.
pub open spec fn line_at(ls: Seq<Seq<char>>, i: int) -> Seq<char> {
    if 0 <= i < ls.len() {
        ls[i]
    } else {
        seq![]
    }
}

/// The lines numbered from `from` up to `to`, each with a newline (lines
/// past the end count as absent).
pub open spec fn lines_between(ls: Seq<Seq<char>>, from: int, to: int) -> Seq<char>
    decreases to - from,
{
    if to <= from {
        seq![]
    } else {
        lines_between(ls, from, to - 1) + if to - 1 < ls.len() {
            ls[to - 1] + "\n"@
        } else {
            seq![]
        }
    }
}

/// The lines numbered from `from` to the last, each but the last followed
/// by a newline.
pub open spec fn lines_after(ls: Seq<Seq<char>>, from: int) -> Seq<char>
    decreases ls.len() - from,
{
    if from >= ls.len() {
        seq![]
    } else {
        ls[from] + (if from < ls.len() - 1 {
            "\n"@
        } else {
            seq![]
        }) + lines_after(ls, from + 1)
    }
}

/// The byte positions that `extract_range` cuts `content` at fall between
/// characters, and a range on one line does not end before it starts.
pub open spec fn extract_ok(content: Seq<char>, range: SymbolRange) -> bool {
    let ls = lines(content);
    let (sl, sc, el, ec) = (range.start.line as int, range.start.column as nat, range.end.line as int, range.end.column as nat);
    if sl == el {
        let line = line_at(ls, sl);
        sc < byte_len(line) ==> sliceable(line, sc) && sc <= ec && sliceable(line, min_nat(ec, byte_len(line)))
    } else {
        &&& sl < ls.len() && sc < byte_len(ls[sl]) ==> sliceable(ls[sl], sc)
        &&& el < ls.len() ==> sliceable(ls[el], min_nat(ec, byte_len(ls[el])))
    }
}

/// The text of `content` between the two positions of `range` (lines, and
/// byte columns in them; columns past a line's end are cut to it).
pub open spec fn extracted(content: Seq<char>, range: SymbolRange) -> Seq<char> {
    let ls = lines(content);
    let (sl, sc, el, ec) = (range.start.line as int, range.start.column as nat, range.end.line as int, range.end.column as nat);
    if sl == el {
        let line = line_at(ls, sl);
        if sc >= byte_len(line) {
            seq![]
        } else {
            let e = min_nat(ec, byte_len(line));
            line.subrange(char_count_at_byte(line, sc)->Some_0 as int, char_count_at_byte(line, e)->Some_0 as int)
        }
    } else {
        (if sl < ls.len() {
            (if sc < byte_len(ls[sl]) {
                from_byte(ls[sl], sc)
            } else {
                seq![]
            }) + "\n"@
        } else {
            seq![]
        }) + lines_between(ls, sl + 1, el) + if el < ls.len() {
            before_byte(ls[el], min_nat(ec, byte_len(ls[el])))
        } else {
            seq![]
        }
    }
}

fn char_index(line: &[char], b: u128) -> (k: usize)
    requires
        sliceable(line@, b as nat),
    ensures
        char_count_at_byte(line@, b as nat) == Some(k as nat),
        k <= line.len(),
{
    match crate::text::char_count_at_byte_exec(line, b) {
        Some(k) => {
            proof {
                let w = char_count_at_byte(line@, b as nat)->Some_0;
                assert(w <= line@.len());
            }
            k
        },
        None => 0,
    }
}

proof fn lemma_count_monotone(s: Seq<char>, a: nat, b: nat)
    requires
        a <= b,
        sliceable(s, a),
        sliceable(s, b),
    ensures
        char_count_at_byte(s, a)->Some_0 <= char_count_at_byte(s, b)->Some_0,
{
    let i = char_count_at_byte(s, a)->Some_0;
    let j = char_count_at_byte(s, b)->Some_0;
    if i > j {
        crate::text::lemma_byte_len_take_strict(s, j as int, i as int);
    }
}

fn line_chars(ls: &Vec<String>, i: u64) -> (r: Vec<char>)
    ensures
        r@ == line_at(ls.deep_view(), i as int),
{
    if i < ls.len() as u64 {
        let r = to_chars(ls[i as usize].as_str());
        proof {
            assert(ls.deep_view()[i as int] == ls@[i as int]@);
        }
        r
    } else {
        Vec::new()
    }
}

fn min_u128(a: u128, b: u128) -> (r: u128)
    ensures
        r == min_nat(a as nat, b as nat),
{
    if a < b {
        a
    } else {
        b
    }
}

/// The text of `content` in `range`: from the start position to the end
/// position (columns count bytes; a column past its line's end is cut to
/// it).
pub fn extract_range(content: &str, range: &SymbolRange) -> (r: String)
    requires
        extract_ok(content@, *range),
    ensures
        r@ == extracted(content@, *range),
{
    let ls = crate::text::split_lines(content);
    let ghost lv = lines(content@);
    let sl = range.start.line as u64;
    let sc = range.start.column as u128;
    let el = range.end.line as u64;
    let ec = range.end.column as u128;
    if sl == el {
        let line = line_chars(&ls, sl);
        let len = crate::text::byte_len_of(line.as_slice());
        if sc >= len {
            return String::new();
        }
        let e = min_u128(ec, len);
        let i = char_index(line.as_slice(), sc);
        let j = char_index(line.as_slice(), e);
        proof {
            lemma_count_monotone(line@, sc as nat, e as nat);
        }
        let part = crate::text::slice_chars(line.as_slice(), i, j);
        return from_chars(part.as_slice());
    }
    let mut v: Vec<char> = Vec::new();
    if sl < ls.len() as u64 {
        let line = line_chars(&ls, sl);
        let len = crate::text::byte_len_of(line.as_slice());
        if sc < len {
            let i = char_index(line.as_slice(), sc);
            let tail = crate::text::slice_chars(line.as_slice(), i, line.len());
            proof {
                assert(tail@ =~= line@.skip(i as int));
            }
            push_chars(&mut v, tail.as_slice());
        }
        v.push('\n');
        proof {
            reveal_strlit("\n");
        }
    }
    let ghost head = v@;
    let mut idx: u64 = sl + 1;
    while idx < el
        invariant
            sl + 1 <= idx,
            idx <= el || idx == sl + 1,
            lv == ls.deep_view(),
            v@ == head + lines_between(lv, sl + 1, idx as int),
        decreases el - idx,
    {
        if idx < ls.len() as u64 {
            let line = line_chars(&ls, idx);
            push_chars(&mut v, line.as_slice());
            v.push('\n');
            proof {
                reveal_strlit("\n");
            }
        }
        idx += 1;
        proof {
            assert(v@ =~= head + lines_between(lv, sl + 1, idx as int));
        }
    }
    proof {
        if el < sl + 1 {
            assert(lines_between(lv, sl + 1, el as int) =~= Seq::<char>::empty());
            assert(lines_between(lv, sl + 1, idx as int) =~= Seq::<char>::empty());
        }
    }
    let ghost mid = v@;
    if el < ls.len() as u64 {
        let line = line_chars(&ls, el);
        let len = crate::text::byte_len_of(line.as_slice());
        let e = min_u128(ec, len);
        let j = char_index(line.as_slice(), e);
        let part = crate::text::slice_chars(line.as_slice(), 0, j);
        push_chars(&mut v, part.as_slice());
    }
    proof {
        assert(v@ =~= extracted(content@, *range));
    }
    from_chars(v.as_slice())
}


/// The lines before line `n` (all of them when there are fewer), each with
/// a newline.
pub open spec fn lines_before(ls: Seq<Seq<char>>, n: int) -> Seq<char> {
    lines_between(ls, 0, if n < ls.len() {
        n
    } else {
        ls.len() as int
    })
}

/// The byte positions that `replace_range` cuts `content` at fall between
/// characters.
pub open spec fn replace_ok(content: Seq<char>, range: SymbolRange) -> bool {
    let ls = lines(content);
    let (sl, sc, el, ec) = (range.start.line as int, range.start.column as nat, range.end.line as int, range.end.column as nat);
    &&& sl < ls.len() ==> sliceable(ls[sl], min_nat(sc, byte_len(ls[sl])))
    &&& el < ls.len() ==> sliceable(ls[el], min_nat(ec, byte_len(ls[el])))
}

/// `content` with the text in `range` replaced: the lines before the
/// start line, the start line up to the start column, the replacement, the
/// end line from the end column (with a newline), then the lines after the
/// end line.
pub open spec fn replaced(content: Seq<char>, range: SymbolRange, replacement: Seq<char>) -> Seq<char> {
    let ls = lines(content);
    let (sl, sc, el, ec) = (range.start.line as int, range.start.column as nat, range.end.line as int, range.end.column as nat);
    lines_before(ls, sl) + (if sl < ls.len() {
        before_byte(ls[sl], min_nat(sc, byte_len(ls[sl])))
    } else {
        seq![]
    }) + replacement + (if el < ls.len() {
        from_byte(ls[el], min_nat(ec, byte_len(ls[el]))) + "\n"@
    } else {
        seq![]
    }) + lines_after(ls, el + 1)
}

/// Replace the text in `range` with `replacement`.
pub fn replace_range(content: &str, range: &SymbolRange, replacement: &str) -> (r: String)
    requires
        replace_ok(content@, *range),
    ensures
        r@ == replaced(content@, *range, replacement@),
{
    let ls = crate::text::split_lines(content);
    let ghost lv = lines(content@);
    let sl = range.start.line as u64;
    let sc = range.start.column as u128;
    let el = range.end.line as u64;
    let ec = range.end.column as u128;
    let mut v: Vec<char> = Vec::new();
    let n: u64 = if sl < ls.len() as u64 { sl } else { ls.len() as u64 };
    let mut i: u64 = 0;
    while i < n
        invariant
            i <= n,
            n <= ls.len(),
            lv == ls.deep_view(),
            v@ == lines_between(lv, 0, i as int),
        decreases n - i,
    {
        let line = line_chars(&ls, i);
        push_chars(&mut v, line.as_slice());
        v.push('\n');
        proof {
            reveal_strlit("\n");
        }
        i += 1;
        proof {
            assert(v@ =~= lines_between(lv, 0, i as int));
        }
    }
    if sl < ls.len() as u64 {
        let line = line_chars(&ls, sl);
        let len = crate::text::byte_len_of(line.as_slice());
        let k = char_index(line.as_slice(), min_u128(sc, len));
        let part = crate::text::slice_chars(line.as_slice(), 0, k);
        push_chars(&mut v, part.as_slice());
    }
    push_str(&mut v, replacement);
    if el < ls.len() as u64 {
        let line = line_chars(&ls, el);
        let len = crate::text::byte_len_of(line.as_slice());
        let k = char_index(line.as_slice(), min_u128(ec, len));
        let part = crate::text::slice_chars(line.as_slice(), k, line.len());
        proof {
            assert(part@ =~= line@.skip(k as int));
        }
        push_chars(&mut v, part.as_slice());
        v.push('\n');
        proof {
            reveal_strlit("\n");
        }
    }
    let ghost mid = v@;
    let mut j: u64 = el + 1;
    proof {
        lemma_lines_after_split(lv, (el + 1) as int, j as int);
    }
    while j < ls.len() as u64
        invariant
            el + 1 <= j,
            lv == ls.deep_view(),
            v@ + lines_after(lv, j as int) == mid + lines_after(lv, el + 1),
        decreases ls.len() - j,
    {
        let line = line_chars(&ls, j);
        push_chars(&mut v, line.as_slice());
        if j < ls.len() as u64 - 1 {
            v.push('\n');
            proof {
                reveal_strlit("\n");
            }
        }
        proof {
            assert(v@ + lines_after(lv, j + 1) =~= mid + lines_after(lv, el + 1));
        }
        j += 1;
    }
    proof {
        assert(lines_after(lv, j as int) =~= Seq::<char>::empty());
        assert(v@ =~= replaced(content@, *range, replacement@));
    }
    from_chars(v.as_slice())
}

proof fn lemma_lines_after_split(ls: Seq<Seq<char>>, a: int, b: int)
    requires
        a == b,
    ensures
        lines_after(ls, a) == lines_after(ls, b),
{
}

/// The lines of `content`, with empty lines added until line `line`
/// exists.
pub open spec fn padded_lines(ls: Seq<Seq<char>>, line: int) -> Seq<Seq<char>> {
    if line < ls.len() {
        ls
    } else {
        ls + Seq::new((line + 1 - ls.len()) as nat, |i: int| Seq::<char>::empty())
    }
}

/// The byte position `insert_at_position` inserts at falls between
/// characters (or past the end of its line).
pub open spec fn insert_ok(content: Seq<char>, position: SymbolPosition) -> bool {
    let line = padded_lines(lines(content), position.line as int)[position.line as int];
    position.column <= byte_len(line) ==> sliceable(line, position.column as nat)
}

/// `content` with `text` inserted at `position`: lines are added up to the
/// position's line, which is padded with spaces up to its column; the
/// lines are joined with newlines.
pub open spec fn inserted(content: Seq<char>, position: SymbolPosition, text: Seq<char>) -> Seq<char> {
    let ls = padded_lines(lines(content), position.line as int);
    let line = ls[position.line as int];
    let c = position.column as nat;
    let full = if c > byte_len(line) {
        line + repeat(' ', (c - byte_len(line)) as nat)
    } else {
        line
    };
    join(ls.update(position.line as int, before_byte(full, c) + text + from_byte(full, c)), "\n"@)
}

proof fn lemma_byte_len_spaces(n: nat)
    ensures
        byte_len(repeat(' ', n)) == n,
    decreases n,
{
    if n > 0 {
        assert(repeat(' ', n).drop_last() =~= repeat(' ', (n - 1) as nat));
        lemma_byte_len_spaces((n - 1) as nat);
    }
}

proof fn lemma_end_is_boundary(s: Seq<char>)
    ensures
        char_count_at_byte(s, byte_len(s)) == Some(s.len()),
{
    assert(s.take(s.len() as int) =~= s);
    let k = choose|k: nat| k <= s.len() && byte_len(s.take(k as int)) == byte_len(s);
    if k < s.len() {
        crate::text::lemma_byte_len_take_strict(s, k as int, s.len() as int);
    }
}

/// Insert `text` at `position`, adding lines and spaces as needed.
pub fn insert_at_position(content: &str, position: &SymbolPosition, text: &str) -> (r: String)
    requires
        insert_ok(content@, *position),
    ensures
        r@ == inserted(content@, *position, text@),
{
    let mut ls = crate::text::split_lines(content);
    let ghost lv = lines(content@);
    let li = position.line as u64;
    let ci = position.column as u128;
    while (ls.len() as u64) <= li
        invariant
            ls.deep_view() == lv + Seq::new((ls.len() - lv.len()) as nat, |i: int| Seq::<char>::empty()),
            ls.len() >= lv.len(),
            ls.len() <= lv.len() || ls.len() <= li + 1,
        decreases li + 1 - ls.len(),
    {
        let ghost before = ls.deep_view();
        ls.push(String::new());
        proof {
            assert(ls.deep_view() =~= before.push(Seq::<char>::empty()));
            assert(ls.deep_view() =~= lv + Seq::new((ls.len() - lv.len()) as nat, |i: int| Seq::<char>::empty()));
        }
    }
    proof {
        if li < lv.len() {
            assert(ls.deep_view() =~= lv);
        } else {
            assert(ls.deep_view() =~= padded_lines(lv, li as int));
        }
    }
    let ghost pl = ls.deep_view();
    let line = line_chars(&ls, li);
    let mut full = line.clone();
    let len = crate::text::byte_len_of(line.as_slice());
    if ci > len {
        let pad = (ci - len) as usize;
        crate::text::push_repeat(&mut full, ' ', pad);
        proof {
            lemma_byte_len_spaces(pad as nat);
            crate::text::lemma_byte_len_concat(line@, repeat(' ', pad as nat));
            assert(full@ =~= line@ + repeat(' ', pad as nat));
            lemma_end_is_boundary(full@);
        }
    }
    proof {
        assert(full@ == (if ci > len { line@ + repeat(' ', (ci - len) as nat) } else { line@ }));
    }
    let k = char_index(full.as_slice(), ci);
    let mut new_line = crate::text::slice_chars(full.as_slice(), 0, k);
    push_str(&mut new_line, text);
    let tail = crate::text::slice_chars(full.as_slice(), k, full.len());
    push_chars(&mut new_line, tail.as_slice());
    proof {
        assert(tail@ =~= full@.skip(k as int));
    }
    let mut out: Vec<String> = Vec::new();
    let ghost target = pl.update(li as int, new_line@);
    let mut i: usize = 0;
    while i < ls.len()
        invariant
            i <= ls.len(),
            pl == ls.deep_view(),
            li < ls.len(),
            target == pl.update(li as int, new_line@),
            out@.map_values(|s: String| s@) == target.take(i as int),
        decreases ls.len() - i,
    {
        let ghost before = out@;
        let s = if i as u64 == li {
            from_chars(new_line.as_slice())
        } else {
            ls[i].clone()
        };
        proof {
            assert(pl[i as int] == ls@[i as int]@);
            assert(s@ == target[i as int]);
        }
        out.push(s);
        proof {
            assert(out@.map_values(|s: String| s@) =~= before.map_values(|s: String| s@).push(s@));
            assert(target.take(i + 1) =~= target.take(i as int).push(target[i as int]));
        }
        i += 1;
    }
    proof {
        assert(target.take(ls.len() as int) =~= target);
        reveal_strlit("\n");
        assert(crate::text::nl() =~= "\n"@);
    }
    crate::text::join_lines(out.as_slice())
}

} // verus!
