//! Text normalisations behind fuzzy matching, and re-indenting a
//! replacement after the text it replaces.
use vstd::prelude::*;
use crate::text::{
    byte_len, byte_len_of, char_count_at_byte, char_count_at_byte_exec, chars_blank,
    count_leading_ws, from_chars, is_blank, is_whitespace, is_ws, join, leading_ws,
    lemma_leading_ws_bounds, lines, nl, owned, push_chars, push_repeat_wide, push_str, repeat,
    slice_chars, split_lines_chars, to_chars, trim_start, trim_start_chars, contains, occurs_at,
    occurs_at_exec, lemma_byte_len_concat, lemma_char_count_at_byte_bound,
    lemma_char_count_at_byte_mono,
};

verus! {

/// Types of fuzzy matches
#[derive(Debug, Clone, Copy, PartialEq, Eq, Structural)]
pub enum MatchType {
    /// Exact match
    Exact,
    /// Match with whitespace differences
    Whitespace,
    /// Match with indentation differences
    Indentation,
    /// Match with minor word changes
    WordChanges,
    /// Match with structural similarity
    Structure,
}

impl MatchType {
    pub open spec fn describe(self) -> Seq<char> {
        match self {
            MatchType::Exact => "Exact match"@,
            MatchType::Whitespace => "Match with whitespace differences"@,
            MatchType::Indentation => "Match with indentation differences"@,
            MatchType::WordChanges => "Match with minor word changes"@,
            MatchType::Structure => "Match with structural similarity"@,
        }
    }

    /// Get a human-readable description
    pub fn description(&self) -> (s: &'static str)
        ensures
            s@ == self.describe(),
    {
        match self {
            MatchType::Exact => "Exact match",
            MatchType::Whitespace => "Match with whitespace differences",
            MatchType::Indentation => "Match with indentation differences",
            MatchType::WordChanges => "Match with minor word changes",
            MatchType::Structure => "Match with structural similarity",
        }
    }
}

// ---------------------------------------------------------------------------
// Whitespace and indentation normalisation
// ---------------------------------------------------------------------------

/// Every run of whitespace replaced by one space (what replacing the regex
/// `\s+` by `" "` gives).
pub open spec fn collapse_ws(s: Seq<char>) -> Seq<char>
    decreases s.len(),
{
    if s.len() == 0 {
        seq![]
    } else {
        let before = collapse_ws(s.drop_last());
        if is_ws(s.last()) {
            if s.len() > 1 && is_ws(s[s.len() - 2]) {
                before
            } else {
                before.push(' ')
            }
        } else {
            before.push(s.last())
        }
    }
}

/// Normalize whitespace in a string (collapse each run of whitespace to one
/// space)
pub fn normalize_whitespace(s: &str) -> (r: String)
    ensures
        r@ == collapse_ws(s@),
{
    let v = to_chars(s);
    let mut out: Vec<char> = Vec::new();
    let mut i: usize = 0;
    while i < v.len()
        invariant
            i <= v.len(),
            v@ == s@,
            out@ == collapse_ws(v@.take(i as int)),
        decreases v.len() - i,
    {
        proof {
            assert(v@.take(i + 1).drop_last() =~= v@.take(i as int));
            assert(v@.take(i + 1).last() == v@[i as int]);
            if i > 0 {
                assert(v@.take(i + 1)[i - 1] == v@[i - 1]);
            }
        }
        let c = v[i];
        if is_whitespace(c) {
            if !(i > 0 && is_whitespace(v[i - 1])) {
                out.push(' ');
            }
        } else {
            out.push(c);
        }
        i += 1;
    }
    proof {
        assert(v@.take(v.len() as int) =~= v@);
    }
    from_chars(out.as_slice())
}

/// Each line of `s` with its leading whitespace removed, joined by `"\n"`.
pub open spec fn unindented(s: Seq<char>) -> Seq<char> {
    join(lines(s).map_values(|l: Seq<char>| trim_start(l)), nl())
}

/// Appends `parts` joined by newlines.
fn push_joined_lines(out: &mut Vec<char>, parts: &Vec<Vec<char>>)
    ensures
        final(out)@ == old(out)@ + join(parts@.map_values(|l: Vec<char>| l@), nl()),
{
    let ghost ps = parts@.map_values(|l: Vec<char>| l@);
    let ghost start = out@;
    let mut i: usize = 0;
    while i < parts.len()
        invariant
            i <= parts.len(),
            ps == parts@.map_values(|l: Vec<char>| l@),
            out@ == start + join(ps.take(i as int), nl()),
        decreases parts.len() - i,
    {
        proof {
            assert(ps.take(i + 1).drop_last() =~= ps.take(i as int));
            assert(ps.take(i + 1).last() == parts@[i as int]@);
        }
        if i > 0 {
            out.push('\n');
        }
        push_chars(out, parts[i].as_slice());
        i += 1;
        proof {
            if i == 1 {
                assert(join(ps.take(1), nl()) == ps.take(1)[0]);
                assert(out@ =~= start + join(ps.take(i as int), nl()));
            } else {
                assert(out@ =~= start + join(ps.take(i as int), nl()));
            }
        }
    }
    proof {
        assert(ps.take(parts.len() as int) =~= ps);
    }
}

/// Normalize indentation (remove leading whitespace from each line)
pub fn normalize_indentation(s: &str) -> (r: String)
    ensures
        r@ == unindented(s@),
{
    let v = to_chars(s);
    let ls = split_lines_chars(v.as_slice());
    let mut trimmed: Vec<Vec<char>> = Vec::new();
    let mut i: usize = 0;
    while i < ls.len()
        invariant
            i <= ls.len(),
            ls@.map_values(|l: Vec<char>| l@) == lines(s@),
            trimmed@.map_values(|l: Vec<char>| l@) =~= lines(s@).take(i as int).map_values(
                |l: Seq<char>| trim_start(l),
            ),
        decreases ls.len() - i,
    {
        let t = trim_start_chars(ls[i].as_slice());
        proof {
            assert(ls@[i as int]@ == lines(s@)[i as int]);
        }
        let ghost before = trimmed@.map_values(|l: Vec<char>| l@);
        trimmed.push(t);
        proof {
            assert(trimmed@.map_values(|l: Vec<char>| l@) =~= before.push(t@));
            assert(lines(s@).take(i + 1).map_values(|l: Seq<char>| trim_start(l)) =~= lines(s@).take(
                i as int,
            ).map_values(|l: Seq<char>| trim_start(l)).push(trim_start(lines(s@)[i as int])));
        }
        i += 1;
    }
    proof {
        assert(lines(s@).take(ls.len() as int) =~= lines(s@));
    }
    let mut out: Vec<char> = Vec::new();
    push_joined_lines(&mut out, &trimmed);
    proof {
        assert(out@ =~= unindented(s@));
    }
    from_chars(out.as_slice())
}

/// Whether the character `c` of the original text advances the position in
/// the normalised text, when that position is `n`.
pub open spec fn advances(c: char, n: nat, normalized: Seq<char>) -> bool {
    !is_ws(c) || (c == ' ' && (n == 0 || normalized[n - 1] != ' '))
}

/// The walk over the first `k` characters of `original`: characters read
/// and position reached in `normalized`; it stops once it reaches `target`.
pub open spec fn walk(original: Seq<char>, normalized: Seq<char>, target: nat, k: nat) -> (nat, nat)
    decreases k,
{
    if k == 0 {
        (0, 0)
    } else {
        let (o, n) = walk(original, normalized, target, (k - 1) as nat);
        if n == target || k > original.len() {
            (o, n)
        } else {
            (o + 1, if advances(original[k - 1], n, normalized) {
                n + 1
            } else {
                n
            })
        }
    }
}

/// The walk never looks before the start or past the end of `normalized`.
pub open spec fn walk_defined(original: Seq<char>, normalized: Seq<char>, target: nat) -> bool {
    forall|k: nat|
        k < original.len() ==> {
            let (o, n) = #[trigger] walk(original, normalized, target, k);
            (n != target && original[k as int] == ' ' && n > 0) ==> n - 1 < normalized.len()
        }
}

/// Find the position in the original string corresponding to a position in
/// the normalized string (counted in characters).
pub fn find_original_position(original: &str, normalized: &str, normalized_pos: usize) -> (r: usize)
    requires
        walk_defined(original@, normalized@, normalized_pos as nat),
    ensures
        r == walk(original@, normalized@, normalized_pos as nat, original@.len()).0,
{
    match find_original_position_checked(original, normalized, normalized_pos) {
        Some(p) => p,
        None => {
            proof {
                assert(false);
            }
            0
        },
    }
}

/// What `find_original_position` gives, or `None` where its walk would
/// look past the end of `normalized`.
pub fn find_original_position_checked(original: &str, normalized: &str, normalized_pos: usize) -> (r: Option<usize>)
    ensures
        (r is Some) == walk_defined(original@, normalized@, normalized_pos as nat),
        r matches Some(p) ==> p == walk(original@, normalized@, normalized_pos as nat, original@.len()).0,
{
    let ghost target = normalized_pos as nat;
    let ov = to_chars(original);
    let nv = to_chars(normalized);
    let mut orig_pos: usize = 0;
    let mut norm_pos: usize = 0;
    let mut i: usize = 0;
    while i < ov.len()
        invariant_except_break
            i <= ov.len(),
            ov@ == original@,
            nv@ == normalized@,
            target == normalized_pos as nat,
            (orig_pos as nat, norm_pos as nat) == walk(original@, normalized@, target, i as nat),
            orig_pos <= i,
            norm_pos <= i,
            forall|k: nat|
                k < i ==> {
                    let (o, n) = #[trigger] walk(original@, normalized@, target, k);
                    (n != target && original@[k as int] == ' ' && n > 0) ==> n - 1 < normalized@.len()
                },
        ensures
            orig_pos == walk(original@, normalized@, target, original@.len()).0,
            walk_defined(original@, normalized@, target),
        decreases ov.len() - i,
    {
        if norm_pos == normalized_pos {
            proof {
                assert(walk(original@, normalized@, target, i as nat).1 == target);
                lemma_walk_stays(original@, normalized@, target, i as nat, original@.len());
                assert forall|k: nat| k < original@.len() implies {
                    let (o, n) = #[trigger] walk(original@, normalized@, target, k);
                    (n != target && original@[k as int] == ' ' && n > 0) ==> n - 1 < normalized@.len()
                } by {
                    if k >= i {
                        lemma_walk_stays(original@, normalized@, target, i as nat, k);
                    }
                }
            }
            break;
        }
        let c = ov[i];
        if c == ' ' && norm_pos > 0 && norm_pos - 1 >= nv.len() {
            proof {
                assert(!walk_defined(original@, normalized@, target)) by {
                    let (o, n) = walk(original@, normalized@, target, i as nat);
                    assert(n == norm_pos);
                }
            }
            return None;
        }
        orig_pos += 1;
        proof {
            assert(walk(original@, normalized@, target, i as nat) == (
                (orig_pos - 1) as nat,
                norm_pos as nat,
            ));
        }
        if !is_whitespace(c) || (c == ' ' && (norm_pos == 0 || nv[norm_pos - 1] != ' ')) {
            norm_pos += 1;
        }
        i += 1;
    }
    Some(orig_pos)
}

proof fn lemma_walk_stays(original: Seq<char>, normalized: Seq<char>, target: nat, i: nat, k: nat)
    requires
        i <= k,
        walk(original, normalized, target, i).1 == target,
    ensures
        walk(original, normalized, target, k) == walk(original, normalized, target, i),
    decreases k - i,
{
    if k > i {
        lemma_walk_stays(original, normalized, target, i, (k - 1) as nat);
    }
}

// ---------------------------------------------------------------------------
// Re-indenting a replacement
// ---------------------------------------------------------------------------

/// The leading whitespace of a line.
pub open spec fn indentation(line: Seq<char>) -> Seq<char> {
    line.take(leading_ws(line) as int)
}

/// Get the indentation (leading whitespace) of a line
pub fn get_indentation(line: &str) -> (r: String)
    ensures
        r@ == indentation(line@),
{
    let v = to_chars(line);
    let k = count_leading_ws(v.as_slice());
    proof {
        lemma_leading_ws_bounds(v@);
    }
    let ind = slice_chars(v.as_slice(), 0, k);
    proof {
        assert(ind@ =~= indentation(line@));
    }
    from_chars(ind.as_slice())
}

/// How much deeper (in bytes, negative for shallower) source line `i` is
/// indented than the first source line.
pub open spec fn relative_indent(src: Seq<Seq<char>>, i: int) -> int {
    byte_len(indentation(src[i])) - byte_len(indentation(src[0]))
}

/// The relative indentation recorded for target line `k` once the first `n`
/// source lines are seen: source line `i` is recorded for target line
/// `i % m`, a later one replacing an earlier.
pub open spec fn recorded_indent(src: Seq<Seq<char>>, m: nat, k: int, n: nat) -> Option<int>
    decreases n,
{
    if n == 0 {
        None
    } else if (n - 1) % (m as int) == k {
        Some(relative_indent(src, n - 1))
    } else {
        recorded_indent(src, m, k, (n - 1) as nat)
    }
}

proof fn lemma_recorded_is_relative(src: Seq<Seq<char>>, m: nat, k: int, n: nat)
    requires
        n <= src.len(),
        src.len() > 0,
    ensures
        match recorded_indent(src, m, k, n) {
            Some(r) => r >= -(byte_len(indentation(src[0])) as int),
            None => true,
        },
    decreases n,
{
    if n > 0 {
        lemma_recorded_is_relative(src, m, k, (n - 1) as nat);
    }
}

/// The relative indentation for target line `i` (0 where none is recorded).
pub open spec fn indent_for(src: Seq<Seq<char>>, tgt: Seq<Seq<char>>, i: int) -> int {
    match recorded_indent(src, tgt.len(), i, src.len()) {
        Some(r) => r,
        None => 0,
    }
}

/// Bytes kept of the first line's indentation when `rel` is negative.
pub open spec fn kept_bytes(first: Seq<char>, rel: int) -> int {
    let b = byte_len(first) as int;
    if -rel < b {
        b + rel
    } else {
        0
    }
}

/// The indentation a target line gets: the first source line's, then `rel`
/// more spaces, or `rel` fewer bytes of it.
pub open spec fn new_indent(first: Seq<char>, rel: int) -> Seq<char> {
    if rel >= 0 {
        first + repeat(' ', rel as nat)
    } else {
        first.take(char_count_at_byte(first, kept_bytes(first, rel) as nat).unwrap() as int)
    }
}

/// The cut of a shallower line falls between characters.
pub open spec fn cut_defined(first: Seq<char>, rel: int) -> bool {
    rel >= 0 || char_count_at_byte(first, kept_bytes(first, rel) as nat) is Some
}

/// Target line `i` after re-indenting: blank lines stay as they are.
pub open spec fn reindented(src: Seq<Seq<char>>, tgt: Seq<Seq<char>>, i: int) -> Seq<char> {
    if is_blank(tgt[i]) {
        tgt[i]
    } else {
        new_indent(indentation(src[0]), indent_for(src, tgt, i)) + trim_start(tgt[i])
    }
}

/// Every shallower target line is cut between characters.
pub open spec fn indentation_pattern_defined(source: Seq<char>, target: Seq<char>) -> bool {
    let src = lines(source);
    let tgt = lines(target);
    src.len() > 0 && tgt.len() > 0 ==> forall|i: int|
        0 <= i < tgt.len() && !is_blank(#[trigger] tgt[i]) ==> cut_defined(
            indentation(src[0]),
            indent_for(src, tgt, i),
        )
}

/// `target` re-indented after `source`; unchanged when either has no lines.
pub open spec fn indentation_applied(source: Seq<char>, target: Seq<char>) -> Seq<char> {
    let src = lines(source);
    let tgt = lines(target);
    if src.len() == 0 || tgt.len() == 0 {
        target
    } else {
        join(Seq::new(tgt.len(), |i: int| reindented(src, tgt, i)), nl())
    }
}

/// Apply the indentation pattern of `source` to `target`: the first line of
/// `source` sets the base indentation, and each target line is indented by
/// the base plus the relative indentation recorded for it.
pub fn apply_indentation_pattern(source: &str, target: &str) -> (r: String)
    requires
        indentation_pattern_defined(source@, target@),
    ensures
        r@ == indentation_applied(source@, target@),
{
    match indentation_checked(source, target) {
        Some(v) => v,
        None => {
            proof {
                assert(false);
            }
            String::new()
        },
    }
}

/// Whether `apply_indentation_pattern` can be asked to re-indent `target`
/// after `source`: every shallower line is cut between characters.
pub fn indentation_pattern_applies(source: &str, target: &str) -> (b: bool)
    ensures
        b == indentation_pattern_defined(source@, target@),
{
    indentation_checked(source, target).is_some()
}

/// `target` re-indented after `source`, or `None` where a shallower line
/// would be cut inside a character.
fn indentation_checked(source: &str, target: &str) -> (r: Option<String>)
    ensures
        (r is Some) == indentation_pattern_defined(source@, target@),
        r matches Some(v) ==> v@ == indentation_applied(source@, target@),
{
    let sv = to_chars(source);
    let tv = to_chars(target);
    let src = split_lines_chars(sv.as_slice());
    let tgt = split_lines_chars(tv.as_slice());
    let ghost s = lines(source@);
    let ghost t = lines(target@);
    if src.len() == 0 || tgt.len() == 0 {
        return Some(owned(target));
    }
    proof {
        assert(src@[0]@ == s[0]);
    }
    let k0 = count_leading_ws(src[0].as_slice());
    proof {
        lemma_leading_ws_bounds(src@[0]@);
    }
    let first = slice_chars(src[0].as_slice(), 0, k0);
    proof {
        assert(first@ =~= indentation(s[0]));
    }
    let fb = byte_len_of(first.as_slice());
    let first_len = first.len();
    proof {
        assert(fb <= 4 * 0xFFFF_FFFF_FFFF_FFFFu128);
    }
    let m = tgt.len();
    // The relative indentation recorded for each target line.
    let mut recorded: Vec<Option<i128>> = Vec::new();
    let mut j: usize = 0;
    while j < m
        invariant
            j <= m,
            recorded.len() == j,
            forall|k: int| 0 <= k < j ==> recorded@[k] is None,
        decreases m - j,
    {
        recorded.push(None);
        j += 1;
    }
    let mut i: usize = 0;
    while i < src.len()
        invariant
            i <= src.len(),
            src@.map_values(|l: Vec<char>| l@) == s,
            m == tgt.len() == t.len() > 0,
            s.len() > 0,
            first@ == indentation(s[0]),
            fb == byte_len(first@),
            fb <= 4 * 0xFFFF_FFFF_FFFF_FFFFu128,
            recorded.len() == m,
            forall|k: int|
                0 <= k < m ==> match #[trigger] recorded@[k] {
                    Some(r) => recorded_indent(s, m as nat, k, i as nat) == Some(r as int),
                    None => recorded_indent(s, m as nat, k, i as nat) is None,
                },
        decreases src.len() - i,
    {
        let ki = count_leading_ws(src[i].as_slice());
        proof {
            lemma_leading_ws_bounds(src@[i as int]@);
            assert(src@[i as int]@ == s[i as int]);
        }
        let ind = slice_chars(src[i].as_slice(), 0, ki);
        proof {
            assert(ind@ =~= indentation(s[i as int]));
        }
        let b = byte_len_of(ind.as_slice());
        let ind_len = ind.len();
        proof {
            assert(b <= 4 * 0xFFFF_FFFF_FFFF_FFFFu128);
        }
        let rel: i128 = b as i128 - fb as i128;
        let slot = i % m;
        let ghost old_rec = recorded@;
        recorded.set(slot, Some(rel));
        proof {
            assert(rel as int == relative_indent(s, i as int));
            assert forall|k: int| 0 <= k < m implies match #[trigger] recorded@[k] {
                Some(r) => recorded_indent(s, m as nat, k, (i + 1) as nat) == Some(r as int),
                None => recorded_indent(s, m as nat, k, (i + 1) as nat) is None,
            } by {
                assert(recorded_indent(s, m as nat, k, (i + 1) as nat) == if (i as int) % (m as int) == k {
                    Some(relative_indent(s, i as int))
                } else {
                    recorded_indent(s, m as nat, k, i as nat)
                });
                if k != slot {
                    assert(recorded@[k] == old_rec[k]);
                }
            }
        }
        i += 1;
    }
    // Re-indent each target line.
    let mut out_lines: Vec<Vec<char>> = Vec::new();
    let mut i: usize = 0;
    while i < m
        invariant
            i <= m,
            src@.map_values(|l: Vec<char>| l@) == s,
            tgt@.map_values(|l: Vec<char>| l@) == t,
            s == lines(source@),
            t == lines(target@),
            m == tgt.len() == t.len() > 0,
            s.len() > 0,
            forall|k: int|
                0 <= k < i && !is_blank(#[trigger] t[k]) ==> cut_defined(
                    indentation(s[0]),
                    indent_for(s, t, k),
                ),
            first@ == indentation(s[0]),
            fb == byte_len(first@),
            fb <= 4 * 0xFFFF_FFFF_FFFF_FFFFu128,
            recorded.len() == m,
            forall|k: int|
                0 <= k < m ==> match #[trigger] recorded@[k] {
                    Some(r) => recorded_indent(s, m as nat, k, s.len()) == Some(r as int),
                    None => recorded_indent(s, m as nat, k, s.len()) is None,
                },
            out_lines@.map_values(|l: Vec<char>| l@) =~= Seq::new(i as nat, |k: int| reindented(s, t, k)),
        decreases m - i,
    {
        let line = &tgt[i];
        proof {
            assert(tgt@[i as int]@ == t[i as int]);
        }
        let mut nl_chars: Vec<char> = Vec::new();
        if chars_blank(line.as_slice()) {
            push_chars(&mut nl_chars, line.as_slice());
        } else {
            let rel: i128 = match recorded[i] {
                Some(r) => r,
                None => 0,
            };
            proof {
                assert(rel == indent_for(s, t, i as int));
                assert(!is_blank(t[i as int]));
                assert(rel >= -(fb as int)) by {
                    match recorded_indent(s, m as nat, i as int, s.len()) {
                        Some(r) => {
                            lemma_recorded_is_relative(s, m as nat, i as int, s.len());
                        },
                        None => {},
                    }
                }
            }
            if rel >= 0 {
                push_chars(&mut nl_chars, first.as_slice());
                push_repeat_wide(&mut nl_chars, ' ', rel as u128);
            } else {
                let neg: i128 = -rel;
                let kept: u128 = if neg < fb as i128 {
                    (fb as i128 - neg) as u128
                } else {
                    0
                };
                let cc = char_count_at_byte_exec(first.as_slice(), kept);
                match cc {
                    Some(n) => {
                        let piece = slice_chars(first.as_slice(), 0, n);
                        push_chars(&mut nl_chars, piece.as_slice());
                    },
                    None => {
                        proof {
                            assert(kept == kept_bytes(first@, rel as int));
                            assert(!cut_defined(indentation(s[0]), indent_for(s, t, i as int)));
                            if indentation_pattern_defined(source@, target@) {
                                assert(!is_blank(lines(target@)[i as int]));
                            }
                        }
                        return None;
                    },
                }
            }
            proof {
                assert(cut_defined(indentation(s[0]), indent_for(s, t, i as int)));
            }
            let rest = trim_start_chars(line.as_slice());
            push_chars(&mut nl_chars, rest.as_slice());
        }
        proof {
            assert(nl_chars@ =~= reindented(s, t, i as int));
        }
        let ghost before = out_lines@.map_values(|l: Vec<char>| l@);
        let ghost added = nl_chars@;
        out_lines.push(nl_chars);
        proof {
            assert(out_lines@.map_values(|l: Vec<char>| l@) =~= before.push(added));
        }
        i += 1;
    }
    let mut out: Vec<char> = Vec::new();
    push_joined_lines(&mut out, &out_lines);
    proof {
        assert(out@ =~= indentation_applied(source@, target@));
        assert forall|k: int| 0 <= k < t.len() && !is_blank(#[trigger] t[k]) implies cut_defined(
            indentation(s[0]),
            indent_for(s, t, k),
        ) by {}
    }
    Some(from_chars(out.as_slice()))
}

// ---------------------------------------------------------------------------
// Replacing the best match of a search
// ---------------------------------------------------------------------------

/// `p` occurs in `s` at `i` and nowhere before.
pub open spec fn first_at(s: Seq<char>, p: Seq<char>, i: int) -> bool {
    occurs_at(s, p, i) && forall|j: int| 0 <= j < i ==> !occurs_at(s, p, j)
}

/// Where `p` first occurs in `s`, counted in characters, if anywhere.
pub open spec fn first_occurrence(s: Seq<char>, p: Seq<char>) -> Option<int> {
    if contains(s, p) {
        Some(choose|i: int| first_at(s, p, i))
    } else {
        None
    }
}

proof fn lemma_first_occurrence(s: Seq<char>, p: Seq<char>, i: int)
    requires
        first_at(s, p, i),
    ensures
        first_occurrence(s, p) == Some(i),
{
    assert(occurs_at(s, p, i));
    assert(contains(s, p));
    let j = choose|j: int| first_at(s, p, j);
    assert(first_at(s, p, j));
    if j < i {
        assert(!occurs_at(s, p, j));
    } else if i < j {
        assert(!occurs_at(s, p, i));
    }
}

/// The first position where `p` occurs in `s`.
fn first_occurrence_exec(s: &[char], p: &[char]) -> (r: Option<usize>)
    ensures
        r == match first_occurrence(s@, p@) {
            Some(i) => Some(i as usize),
            None => None::<usize>,
        },
        r matches Some(i) ==> first_at(s@, p@, i as int),
{
    if p.len() > s.len() {
        proof {
            assert forall|k: int| !occurs_at(s@, p@, k) by {}
        }
        return None;
    }
    let mut i: usize = 0;
    loop
        invariant
            p.len() <= s.len(),
            i <= s.len() - p.len(),
            forall|k: int| 0 <= k < i ==> !occurs_at(s@, p@, k),
        ensures
            forall|k: int| 0 <= k <= s.len() - p.len() ==> !occurs_at(s@, p@, k),
        decreases s.len() - p.len() - i,
    {
        if occurs_at_exec(s, p, i) {
            proof {
                lemma_first_occurrence(s@, p@, i as int);
            }
            return Some(i);
        }
        if i == s.len() - p.len() {
            break;
        }
        i += 1;
    }
    proof {
        assert forall|k: int| !occurs_at(s@, p@, k) by {
            if 0 <= k && k + p@.len() <= s@.len() {
                assert(k <= s.len() - p.len());
            }
        }
    }
    None
}

/// The byte range where `pattern` first occurs in `content` (what
/// `str::find` gives, with the pattern's length added).
pub fn find_exact(content: &str, pattern: &str) -> (r: Option<(usize, usize)>)
    requires
        byte_len(content@) <= usize::MAX,
    ensures
        r == match first_occurrence(content@, pattern@) {
            Some(i) => Some(
                (
                    byte_len(content@.take(i)) as usize,
                    (byte_len(content@.take(i)) + byte_len(pattern@)) as usize,
                ),
            ),
            None => None::<(usize, usize)>,
        },
{
    let cv = to_chars(content);
    let pv = to_chars(pattern);
    match first_occurrence_exec(cv.as_slice(), pv.as_slice()) {
        Some(i) => {
            let head = slice_chars(cv.as_slice(), 0, i);
            let a = byte_len_of(head.as_slice());
            let b = byte_len_of(pv.as_slice());
            proof {
                let c = content@;
                let n = pattern@.len() as int;
                assert(head@ =~= c.take(i as int));
                assert(c.subrange(i as int, i + n) == pattern@);
                assert(c =~= c.take(i as int) + pattern@ + c.skip(i + n));
                lemma_byte_len_concat(c.take(i as int), pattern@);
                lemma_byte_len_concat(c.take(i as int) + pattern@, c.skip(i + n));
            }
            Some((a as usize, (a + b) as usize))
        },
        None => None,
    }
}

/// A match that approximate search found for a search text: its byte range
/// in the content, its kind, and its score written with one decimal.
pub struct ApproximateMatch {
    /// Byte offset where the match starts
    pub start: usize,
    /// Byte offset where the match ends
    pub end: usize,
    /// Kind of match
    pub match_type: MatchType,
    /// The score, 0 to 100, with one decimal
    pub confidence: String,
}

/// The message when no part of the content matches the search.
pub open spec fn no_suitable_match() -> Seq<char> {
    "Could not find a suitable match for the search pattern"@
}

/// The warning given for a match that is not exact.
pub open spec fn approximate_warning(t: MatchType, confidence: Seq<char>) -> Seq<char> {
    "Using "@ + t.describe() + " ("@ + confidence + "% confidence)"@
}

/// `c` with its characters `from..to` replaced by `replace`, re-indented
/// after the text it replaces when `preserve` is set.
pub open spec fn replaced_span(
    c: Seq<char>,
    from: int,
    to: int,
    replace: Seq<char>,
    preserve: bool,
) -> Seq<char> {
    let matched = c.subrange(from, to);
    c.take(from) + (if preserve {
        indentation_applied(matched, replace)
    } else {
        replace
    }) + c.skip(to)
}

/// The characters of `c` that the byte range `start..end` covers.
pub open spec fn char_span(c: Seq<char>, start: usize, end: usize) -> (int, int) {
    (
        char_count_at_byte(c, start as nat)->0 as int,
        char_count_at_byte(c, end as nat)->0 as int,
    )
}

/// Where `smart_search_replace` can do its work: an approximate match, used
/// when the search text occurs nowhere, starts and ends between characters,
/// and the replacement can be re-indented after the text it replaces.
pub open spec fn smart_replace_defined(
    content: Seq<char>,
    search: Seq<char>,
    replace: Seq<char>,
    preserve: bool,
    approximate: Option<ApproximateMatch>,
) -> bool {
    match first_occurrence(content, search) {
        Some(_) => preserve ==> indentation_pattern_defined(search, replace),
        None => match approximate {
            None => true,
            Some(m) => {
                &&& m.start <= m.end
                &&& char_count_at_byte(content, m.start as nat) is Some
                &&& char_count_at_byte(content, m.end as nat) is Some
                &&& preserve ==> indentation_pattern_defined(
                    content.subrange(char_span(content, m.start, m.end).0, char_span(content, m.start, m.end).1),
                    replace,
                )
            },
        },
    }
}

/// Whether `smart_search_replace` can be asked to do this replacement.
pub fn smart_replace_applies(
    content: &str,
    search: &str,
    replace: &str,
    preserve_indentation: bool,
    approximate: &Option<ApproximateMatch>,
) -> (b: bool)
    ensures
        b == smart_replace_defined(content@, search@, replace@, preserve_indentation, *approximate),
{
    let cv = to_chars(content);
    let sv = to_chars(search);
    match first_occurrence_exec(cv.as_slice(), sv.as_slice()) {
        Some(_) => !preserve_indentation || indentation_pattern_applies(search, replace),
        None => match approximate {
            None => true,
            Some(m) => {
                if m.start > m.end {
                    return false;
                }
                let a = char_count_at_byte_exec(cv.as_slice(), m.start as u128);
                let b = char_count_at_byte_exec(cv.as_slice(), m.end as u128);
                match (a, b) {
                    (Some(a), Some(b)) => {
                        if !preserve_indentation {
                            return true;
                        }
                        proof {
                            lemma_char_count_at_byte_bound(content@, m.start as nat);
                            lemma_char_count_at_byte_bound(content@, m.end as nat);
                            lemma_char_count_at_byte_mono(content@, m.start as nat, m.end as nat);
                        }
                        let matched = from_chars(slice_chars(cv.as_slice(), a, b).as_slice());
                        indentation_pattern_applies(matched.as_str(), replace)
                    },
                    _ => false,
                }
            },
        },
    }
}

/// `content` with characters `from..to` replaced by `replace`, re-indented
/// after the text it replaces when `preserve` is set.
fn replace_span(cv: &Vec<char>, from: usize, to: usize, replace: &str, preserve: bool) -> (r: String)
    requires
        from <= to <= cv.len(),
        preserve ==> indentation_pattern_defined(cv@.subrange(from as int, to as int), replace@),
    ensures
        r@ == replaced_span(cv@, from as int, to as int, replace@, preserve),
{
    let matched = from_chars(slice_chars(cv.as_slice(), from, to).as_slice());
    let rep = if preserve {
        apply_indentation_pattern(matched.as_str(), replace)
    } else {
        owned(replace)
    };
    let mut out: Vec<char> = Vec::new();
    let head = slice_chars(cv.as_slice(), 0, from);
    push_chars(&mut out, head.as_slice());
    push_str(&mut out, rep.as_str());
    let tail = slice_chars(cv.as_slice(), to, cv.len());
    push_chars(&mut out, tail.as_slice());
    proof {
        assert(head@ =~= cv@.take(from as int));
        assert(tail@ =~= cv@.skip(to as int));
    }
    from_chars(out.as_slice())
}

/// Advanced search and replace with indentation preservation: the first
/// exact occurrence of `search` is replaced; where there is none, the
/// match that approximate search found, with a warning naming its kind and
/// confidence unless it is exact. With `preserve_indentation`, the
/// replacement is re-indented after the text it replaces.
pub fn smart_search_replace(
    content: &str,
    search: &str,
    replace: &str,
    preserve_indentation: bool,
    approximate: Option<ApproximateMatch>,
) -> (r: Result<(String, Vec<String>), String>)
    requires
        smart_replace_defined(content@, search@, replace@, preserve_indentation, approximate),
    ensures
        match first_occurrence(content@, search@) {
            Some(i) => r matches Ok((t, ws)) && t@ == replaced_span(
                content@,
                i,
                i + search@.len(),
                replace@,
                preserve_indentation,
            ) && ws@.len() == 0,
            None => match approximate {
                None => r matches Err(e) && e@ == no_suitable_match(),
                Some(m) => r matches Ok((t, ws)) && t@ == replaced_span(
                    content@,
                    char_span(content@, m.start, m.end).0,
                    char_span(content@, m.start, m.end).1,
                    replace@,
                    preserve_indentation,
                ) && ws@.map_values(|w: String| w@) == (if m.match_type == MatchType::Exact {
                    Seq::<Seq<char>>::empty()
                } else {
                    seq![approximate_warning(m.match_type, m.confidence@)]
                }),
            },
        },
{
    let cv = to_chars(content);
    let sv = to_chars(search);
    match first_occurrence_exec(cv.as_slice(), sv.as_slice()) {
        Some(i) => {
            proof {
                assert(first_at(cv@, sv@, i as int));
                assert(i + sv@.len() <= cv@.len());
                assert(cv@.subrange(i as int, i + sv@.len()) == search@);
            }
            let t = replace_span(&cv, i, i + sv.len(), replace, preserve_indentation);
            Ok((t, Vec::new()))
        },
        None => match approximate {
            None => Err(owned("Could not find a suitable match for the search pattern")),
            Some(m) => {
                let a = char_count_at_byte_exec(cv.as_slice(), m.start as u128);
                let b = char_count_at_byte_exec(cv.as_slice(), m.end as u128);
                proof {
                    lemma_char_count_at_byte_bound(content@, m.start as nat);
                    lemma_char_count_at_byte_bound(content@, m.end as nat);
                    lemma_char_count_at_byte_mono(content@, m.start as nat, m.end as nat);
                }
                match (a, b) {
                    (Some(a), Some(b)) => {
                        let t = replace_span(&cv, a, b, replace, preserve_indentation);
                        let mut warnings: Vec<String> = Vec::new();
                        let exact = match m.match_type {
                            MatchType::Exact => true,
                            _ => false,
                        };
                        if !exact {
                            let mut w: Vec<char> = Vec::new();
                            push_str(&mut w, "Using ");
                            push_str(&mut w, m.match_type.description());
                            push_str(&mut w, " (");
                            push_str(&mut w, m.confidence.as_str());
                            push_str(&mut w, "% confidence)");
                            warnings.push(from_chars(w.as_slice()));
                            proof {
                                assert(warnings@.map_values(|w: String| w@) =~= seq![
                                    approximate_warning(m.match_type, m.confidence@),
                                ]);
                            }
                        } else {
                            proof {
                                assert(warnings@.map_values(|w: String| w@) =~= Seq::<Seq<char>>::empty());
                            }
                        }
                        Ok((t, warnings))
                    },
                    _ => {
                        proof {
                            assert(false);
                        }
                        Err(String::new())
                    },
                }
            },
        },
    }
}

// ---------------------------------------------------------------------------
// Shortening text for messages
// ---------------------------------------------------------------------------

/// `s` when it takes at most `max_len` bytes; else its first `max_len - 3`
/// bytes followed by `"..."`.
pub open spec fn truncated(s: Seq<char>, max_len: nat) -> Seq<char> {
    if byte_len(s) <= max_len {
        s
    } else {
        s.take(char_count_at_byte(s, (max_len - 3) as nat).unwrap() as int) + "..."@
    }
}

/// Truncate a string with ellipsis if too long
pub fn truncate(s: &str, max_len: usize) -> (r: String)
    requires
        byte_len(s@) > max_len ==> max_len >= 3 && char_count_at_byte(s@, (max_len - 3) as nat) is Some,
    ensures
        r@ == truncated(s@, max_len as nat),
{
    let v = to_chars(s);
    let b = byte_len_of(v.as_slice());
    if b <= max_len as u128 {
        return owned(s);
    }
    let cut = char_count_at_byte_exec(v.as_slice(), (max_len - 3) as u128);
    let mut out: Vec<char> = Vec::new();
    match cut {
        Some(n) => {
            let head = slice_chars(v.as_slice(), 0, n);
            push_chars(&mut out, head.as_slice());
        },
        None => {},
    }
    push_str(&mut out, "...");
    from_chars(out.as_slice())
}

} // verus!
