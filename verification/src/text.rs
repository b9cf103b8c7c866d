//! Character-level text model shared by the editing modules.
//!
//! Text is modelled as `Seq<char>`; a list of lines as `Seq<Seq<char>>`.
//! The spec functions here state what `str::lines`, `str::trim*`,
//! `char::is_whitespace`, `join` and decimal formatting compute.
use vstd::prelude::*;

verus! {

// ---------------------------------------------------------------------------
// Whitespace
// ---------------------------------------------------------------------------

/// The Unicode `White_Space` property, which `char::is_whitespace`, the `trim`
/// family, `split_whitespace` and the regex class `\s` follow.
pub open spec fn is_ws(c: char) -> bool {
    let u = c as u32;
    ||| u == 0x09 || u == 0x0A || u == 0x0B || u == 0x0C || u == 0x0D || u == 0x20
    ||| u == 0x85 || u == 0xA0 || u == 0x1680
    ||| 0x2000 <= u && u <= 0x200A
    ||| u == 0x2028 || u == 0x2029 || u == 0x202F || u == 0x205F || u == 0x3000
}

pub fn is_whitespace(c: char) -> (b: bool)
    ensures
        b == is_ws(c),
{
    let u = c as u32;
    u == 0x09 || u == 0x0A || u == 0x0B || u == 0x0C || u == 0x0D || u == 0x20 || u == 0x85
        || u == 0xA0 || u == 0x1680 || (0x2000 <= u && u <= 0x200A) || u == 0x2028 || u == 0x2029
        || u == 0x202F || u == 0x205F || u == 0x3000
}

/// Number of leading whitespace characters.
pub open spec fn leading_ws(s: Seq<char>) -> nat
    decreases s.len(),
{
    if s.len() == 0 || !is_ws(s[0]) {
        0
    } else {
        1 + leading_ws(s.drop_first())
    }
}

/// Number of trailing whitespace characters.
pub open spec fn trailing_ws(s: Seq<char>) -> nat
    decreases s.len(),
{
    if s.len() == 0 || !is_ws(s.last()) {
        0
    } else {
        1 + trailing_ws(s.drop_last())
    }
}


/// Dropping whitespace distributes over concatenation.
pub proof fn lemma_strip_ws_concat(a: Seq<char>, b: Seq<char>)
    ensures
        strip_ws(a + b) == strip_ws(a) + strip_ws(b),
    decreases b.len(),
{
    if b.len() == 0 {
        assert(a + b =~= a);
        assert(strip_ws(a) + strip_ws(b) =~= strip_ws(a));
    } else {
        assert((a + b).drop_last() =~= a + b.drop_last());
        assert((a + b).last() == b.last());
        lemma_strip_ws_concat(a, b.drop_last());
        if !is_ws(b.last()) {
            assert(strip_ws(a) + strip_ws(b.drop_last()).push(b.last()) =~= (strip_ws(a) + strip_ws(
                b.drop_last(),
            )).push(b.last()));
        }
    }
}

/// Text of whitespace only has nothing left once whitespace is dropped.
pub proof fn lemma_strip_ws_blank(s: Seq<char>)
    requires
        forall|j: int| 0 <= j < s.len() ==> is_ws(#[trigger] s[j]),
    ensures
        strip_ws(s) =~= Seq::<char>::empty(),
    decreases s.len(),
{
    if s.len() > 0 {
        assert(is_ws(s[s.len() - 1]));
        lemma_strip_ws_blank(s.drop_last());
    }
}

/// What is left once whitespace is dropped holds no whitespace.
pub proof fn lemma_strip_ws_no_ws(s: Seq<char>)
    ensures
        forall|j: int| 0 <= j < strip_ws(s).len() ==> !is_ws(#[trigger] strip_ws(s)[j]),
    decreases s.len(),
{
    if s.len() > 0 {
        lemma_strip_ws_no_ws(s.drop_last());
        if !is_ws(s.last()) {
            let t = strip_ws(s.drop_last());
            assert forall|j: int| 0 <= j < strip_ws(s).len() implies !is_ws(#[trigger] strip_ws(s)[j]) by {
                if j < t.len() {
                    assert(strip_ws(s)[j] == t[j]);
                }
            }
        }
    }
}

/// Text with no whitespace is left as it is.
pub proof fn lemma_strip_ws_keeps(s: Seq<char>)
    requires
        forall|j: int| 0 <= j < s.len() ==> !is_ws(#[trigger] s[j]),
    ensures
        strip_ws(s) == s,
    decreases s.len(),
{
    if s.len() > 0 {
        assert(!is_ws(s[s.len() - 1]));
        lemma_strip_ws_keeps(s.drop_last());
        assert(s.drop_last().push(s.last()) =~= s);
    }
}

/// Dropping whitespace twice drops no more than once.
pub proof fn lemma_strip_ws_idempotent(s: Seq<char>)
    ensures
        strip_ws(strip_ws(s)) == strip_ws(s),
{
    lemma_strip_ws_no_ws(s);
    lemma_strip_ws_keeps(strip_ws(s));
}

/// Trimming the start drops only whitespace, and trimming again changes
/// nothing.
pub proof fn lemma_trim_start_laws(s: Seq<char>)
    ensures
        strip_ws(trim_start(s)) == strip_ws(s),
        trim_start(trim_start(s)) == trim_start(s),
{
    lemma_leading_ws_bounds(s);
    let k = leading_ws(s) as int;
    assert(s =~= s.take(k) + s.skip(k));
    lemma_strip_ws_concat(s.take(k), s.skip(k));
    assert forall|j: int| 0 <= j < s.take(k).len() implies is_ws(#[trigger] s.take(k)[j]) by {
        assert(s.take(k)[j] == s[j]);
    }
    lemma_strip_ws_blank(s.take(k));
    assert(strip_ws(s.take(k)) + strip_ws(s.skip(k)) =~= strip_ws(s.skip(k)));
    let t = s.skip(k);
    if t.len() > 0 {
        assert(t[0] == s[k]);
    }
    lemma_leading_ws(t, 0);
    assert(t.skip(0) =~= t);
}

/// Trimming the end drops only whitespace, and trimming again changes
/// nothing.
pub proof fn lemma_trim_end_laws(s: Seq<char>)
    ensures
        strip_ws(trim_end(s)) == strip_ws(s),
        trim_end(trim_end(s)) == trim_end(s),
{
    lemma_trailing_ws_bounds(s);
    let k = s.len() - trailing_ws(s);
    assert(s =~= s.take(k) + s.skip(k));
    lemma_strip_ws_concat(s.take(k), s.skip(k));
    assert forall|j: int| 0 <= j < s.skip(k).len() implies is_ws(#[trigger] s.skip(k)[j]) by {
        assert(s.skip(k)[j] == s[k + j]);
    }
    lemma_strip_ws_blank(s.skip(k));
    assert(strip_ws(s.take(k)) + strip_ws(s.skip(k)) =~= strip_ws(s.take(k)));
    let t = s.take(k);
    if t.len() > 0 {
        assert(t[t.len() - 1] == s[k - 1]);
    }
    lemma_trailing_ws(t, 0);
    assert(t.take(t.len() as int) =~= t);
}

/// `str::trim_start`
pub open spec fn trim_start(s: Seq<char>) -> Seq<char> {
    s.skip(leading_ws(s) as int)
}

/// `str::trim_end`
pub open spec fn trim_end(s: Seq<char>) -> Seq<char> {
    s.take(s.len() - trailing_ws(s))
}

/// `str::trim`
pub open spec fn trim(s: Seq<char>) -> Seq<char> {
    trim_end(trim_start(s))
}

/// Whether a line is blank: `line.trim().is_empty()`.
pub open spec fn is_blank(s: Seq<char>) -> bool {
    forall|i: int| 0 <= i < s.len() ==> is_ws(#[trigger] s[i])
}

pub proof fn lemma_leading_ws(s: Seq<char>, k: int)
    requires
        0 <= k <= s.len(),
        forall|j: int| 0 <= j < k ==> is_ws(#[trigger] s[j]),
        k == s.len() || !is_ws(s[k]),
    ensures
        leading_ws(s) == k,
    decreases k,
{
    if k > 0 {
        let t = s.drop_first();
        assert forall|j: int| 0 <= j < k - 1 implies is_ws(#[trigger] t[j]) by {
            assert(t[j] == s[j + 1]);
        }
        if k < s.len() {
            assert(t[k - 1] == s[k]);
        }
        lemma_leading_ws(t, k - 1);
    }
}

pub proof fn lemma_leading_ws_bounds(s: Seq<char>)
    ensures
        leading_ws(s) <= s.len(),
        forall|j: int| 0 <= j < leading_ws(s) ==> is_ws(#[trigger] s[j]),
        leading_ws(s) == s.len() || !is_ws(s[leading_ws(s) as int]),
    decreases s.len(),
{
    if s.len() > 0 && is_ws(s[0]) {
        let t = s.drop_first();
        lemma_leading_ws_bounds(t);
        assert forall|j: int| 0 <= j < leading_ws(s) implies is_ws(#[trigger] s[j]) by {
            if j > 0 {
                assert(s[j] == t[j - 1]);
            }
        }
        if leading_ws(s) < s.len() {
            assert(s[leading_ws(s) as int] == t[leading_ws(t) as int]);
        }
    }
}

pub proof fn lemma_trailing_ws(s: Seq<char>, k: int)
    requires
        0 <= k <= s.len(),
        forall|j: int| s.len() - k <= j < s.len() ==> is_ws(#[trigger] s[j]),
        k == s.len() || !is_ws(s[s.len() - k - 1]),
    ensures
        trailing_ws(s) == k,
    decreases k,
{
    if k > 0 {
        let t = s.drop_last();
        assert forall|j: int| t.len() - (k - 1) <= j < t.len() implies is_ws(#[trigger] t[j]) by {
            assert(t[j] == s[j]);
        }
        if k < s.len() {
            assert(t[t.len() - (k - 1) - 1] == s[s.len() - k - 1]);
        }
        lemma_trailing_ws(t, k - 1);
    }
}

pub proof fn lemma_trailing_ws_bounds(s: Seq<char>)
    ensures
        trailing_ws(s) <= s.len(),
        forall|j: int| s.len() - trailing_ws(s) <= j < s.len() ==> is_ws(#[trigger] s[j]),
        trailing_ws(s) == s.len() || !is_ws(s[s.len() - trailing_ws(s) - 1]),
    decreases s.len(),
{
    if s.len() > 0 && is_ws(s.last()) {
        let t = s.drop_last();
        lemma_trailing_ws_bounds(t);
        assert forall|j: int| s.len() - trailing_ws(s) <= j < s.len() implies is_ws(
            #[trigger] s[j],
        ) by {
            if j < s.len() - 1 {
                assert(s[j] == t[j]);
            }
        }
        if trailing_ws(s) < s.len() {
            assert(s[s.len() - trailing_ws(s) - 1] == t[t.len() - trailing_ws(t) - 1]);
        }
    }
}

pub proof fn lemma_blank_iff_trim_empty(s: Seq<char>)
    ensures
        is_blank(s) <==> trim(s).len() == 0,
        is_blank(s) <==> trim_start(s).len() == 0,
{
    lemma_leading_ws_bounds(s);
    let t = trim_start(s);
    lemma_trailing_ws_bounds(t);
    if is_blank(s) {
        lemma_leading_ws(s, s.len() as int);
    }
    if trim_start(s).len() == 0 {
        assert forall|i: int| 0 <= i < s.len() implies is_ws(#[trigger] s[i]) by {}
    }
    if trim(s).len() == 0 && t.len() > 0 {
        assert(is_ws(t[0]));
        assert(t[0] == s[leading_ws(s) as int]);
    }
}

/// Count of leading whitespace characters of a character slice.
pub fn count_leading_ws(s: &[char]) -> (k: usize)
    ensures
        k == leading_ws(s@),
{
    let mut k: usize = 0;
    while k < s.len() && is_whitespace(s[k])
        invariant
            k <= s.len(),
            forall|j: int| 0 <= j < k ==> is_ws(#[trigger] s@[j]),
        decreases s.len() - k,
    {
        k += 1;
    }
    proof {
        lemma_leading_ws(s@, k as int);
    }
    k
}

/// Count of trailing whitespace characters of a character slice.
pub fn count_trailing_ws(s: &[char]) -> (k: usize)
    ensures
        k == trailing_ws(s@),
{
    let mut k: usize = 0;
    while k < s.len() && is_whitespace(s[s.len() - 1 - k])
        invariant
            k <= s.len(),
            forall|j: int| s.len() - k <= j < s.len() ==> is_ws(#[trigger] s@[j]),
        decreases s.len() - k,
    {
        k += 1;
    }
    proof {
        lemma_trailing_ws(s@, k as int);
    }
    k
}

/// Whether every character is whitespace (`s.trim().is_empty()`).
pub fn chars_blank(s: &[char]) -> (b: bool)
    ensures
        b == is_blank(s@),
{
    let mut i: usize = 0;
    while i < s.len()
        invariant
            i <= s.len(),
            forall|j: int| 0 <= j < i ==> is_ws(#[trigger] s@[j]),
        decreases s.len() - i,
    {
        if !is_whitespace(s[i]) {
            return false;
        }
        i += 1;
    }
    true
}

pub fn str_blank(s: &str) -> (b: bool)
    ensures
        b == is_blank(s@),
{
    let v = to_chars(s);
    chars_blank(v.as_slice())
}

// ---------------------------------------------------------------------------
// Conversions between `str`, `String` and `Vec<char>`
// ---------------------------------------------------------------------------

pub fn to_chars(s: &str) -> (v: Vec<char>)
    ensures
        v@ == s@,
{
    let mut v: Vec<char> = Vec::new();
    for c in it: s.chars()
        invariant
            v@ == it.seq().take(it.index() as int),
    {
        v.push(c);
    }
    proof {
        assert(v@ =~= s@);
    }
    v
}

/// Builds a `String` from characters (`Iterator::collect` into `String`).
#[verifier::external_body]
pub(crate) fn from_chars(v: &[char]) -> (s: String)
    ensures
        s@ == v@,
{
    v.iter().collect()
}

/// Copies a string slice into an owned `String`.
pub fn owned(s: &str) -> (r: String)
    ensures
        r@ == s@,
{
    let v = to_chars(s);
    from_chars(v.as_slice())
}

/// Appends `s` to `out`.
pub fn push_chars(out: &mut Vec<char>, s: &[char])
    ensures
        final(out)@ == old(out)@ + s@,
{
    let ghost start = out@;
    let mut i: usize = 0;
    while i < s.len()
        invariant
            i <= s.len(),
            out@ == start + s@.take(i as int),
        decreases s.len() - i,
    {
        out.push(s[i]);
        i += 1;
        proof {
            assert(s@.take(i as int) =~= s@.take(i - 1) .push(s@[i - 1]));
        }
    }
    proof {
        assert(s@.take(s.len() as int) =~= s@);
    }
}

/// Appends a string slice to `out`.
pub fn push_str(out: &mut Vec<char>, s: &str)
    ensures
        final(out)@ == old(out)@ + s@,
{
    let v = to_chars(s);
    push_chars(out, v.as_slice());
}

/// Copies `s[from..to]`.
pub fn slice_chars(s: &[char], from: usize, to: usize) -> (r: Vec<char>)
    requires
        from <= to <= s.len(),
    ensures
        r@ == s@.subrange(from as int, to as int),
{
    let mut r: Vec<char> = Vec::new();
    let mut i = from;
    while i < to
        invariant
            from <= i <= to,
            to <= s.len(),
            r@ == s@.subrange(from as int, i as int),
        decreases to - i,
    {
        r.push(s[i]);
        i += 1;
        proof {
            assert(s@.subrange(from as int, i as int) =~= s@.subrange(from as int, i - 1).push(
                s@[i - 1],
            ));
        }
    }
    r
}

/// `chars == other` on two character slices.
pub fn chars_eq(a: &[char], b: &[char]) -> (r: bool)
    ensures
        r == (a@ == b@),
{
    if a.len() != b.len() {
        return false;
    }
    let mut i: usize = 0;
    while i < a.len()
        invariant
            a.len() == b.len(),
            i <= a.len(),
            forall|j: int| 0 <= j < i ==> a@[j] == b@[j],
        decreases a.len() - i,
    {
        if a[i] != b[i] {
            return false;
        }
        i += 1;
    }
    proof {
        assert(a@ =~= b@);
    }
    true
}

/// `a == b` on two string slices.
pub fn str_eq(a: &str, b: &str) -> (r: bool)
    ensures
        r == (a@ == b@),
{
    let x = to_chars(a);
    let y = to_chars(b);
    chars_eq(x.as_slice(), y.as_slice())
}

// ---------------------------------------------------------------------------
// Trimming
// ---------------------------------------------------------------------------

pub fn trim_start_chars(s: &[char]) -> (r: Vec<char>)
    ensures
        r@ == trim_start(s@),
{
    let k = count_leading_ws(s);
    proof {
        lemma_leading_ws_bounds(s@);
    }
    slice_chars(s, k, s.len())
}

pub fn trim_end_chars(s: &[char]) -> (r: Vec<char>)
    ensures
        r@ == trim_end(s@),
{
    let k = count_trailing_ws(s);
    proof {
        lemma_trailing_ws_bounds(s@);
    }
    slice_chars(s, 0, s.len() - k)
}

pub fn trim_chars(s: &[char]) -> (r: Vec<char>)
    ensures
        r@ == trim(s@),
{
    let t = trim_start_chars(s);
    trim_end_chars(t.as_slice())
}

/// `s.trim()` as an owned string.
pub fn trim_str(s: &str) -> (r: String)
    ensures
        r@ == trim(s@),
{
    let v = to_chars(s);
    let t = trim_chars(v.as_slice());
    from_chars(t.as_slice())
}

/// The non-whitespace characters of `s`, in order: what
/// `s.split_whitespace().collect::<Vec<_>>().join("")` produces.
pub open spec fn strip_ws(s: Seq<char>) -> Seq<char>
    decreases s.len(),
{
    if s.len() == 0 {
        s
    } else if is_ws(s.last()) {
        strip_ws(s.drop_last())
    } else {
        strip_ws(s.drop_last()).push(s.last())
    }
}

pub fn strip_ws_chars(s: &[char]) -> (r: Vec<char>)
    ensures
        r@ == strip_ws(s@),
{
    let mut r: Vec<char> = Vec::new();
    let mut i: usize = 0;
    while i < s.len()
        invariant
            i <= s.len(),
            r@ == strip_ws(s@.take(i as int)),
        decreases s.len() - i,
    {
        proof {
            assert(s@.take(i + 1).drop_last() =~= s@.take(i as int));
        }
        if !is_whitespace(s[i]) {
            r.push(s[i]);
        }
        i += 1;
    }
    proof {
        assert(s@.take(s.len() as int) =~= s@);
    }
    r
}

// ---------------------------------------------------------------------------
// Prefix / suffix / substring
// ---------------------------------------------------------------------------

pub open spec fn starts_with(s: Seq<char>, p: Seq<char>) -> bool {
    p.len() <= s.len() && s.take(p.len() as int) == p
}

pub open spec fn ends_with(s: Seq<char>, p: Seq<char>) -> bool {
    p.len() <= s.len() && s.skip(s.len() - p.len()) == p
}

/// `p` occurs in `s` at position `i`.
pub open spec fn occurs_at(s: Seq<char>, p: Seq<char>, i: int) -> bool {
    0 <= i && i + p.len() <= s.len() && s.subrange(i, i + p.len()) == p
}

/// `s.contains(p)` for a string pattern.
pub open spec fn contains(s: Seq<char>, p: Seq<char>) -> bool {
    exists|i: int| occurs_at(s, p, i)
}

pub fn occurs_at_exec(s: &[char], p: &[char], i: usize) -> (b: bool)
    ensures
        b == occurs_at(s@, p@, i as int),
{
    if i > s.len() || p.len() > s.len() - i {
        return false;
    }
    let mut j: usize = 0;
    while j < p.len()
        invariant
            i + p.len() <= s.len(),
            j <= p.len(),
            forall|k: int| 0 <= k < j ==> s@[i + k] == p@[k],
        decreases p.len() - j,
    {
        if s[i + j] != p[j] {
            proof {
                assert(s@.subrange(i as int, i + p.len())[j as int] == s@[i + j]);
            }
            return false;
        }
        j += 1;
    }
    proof {
        assert(s@.subrange(i as int, i + p.len()) =~= p@);
    }
    true
}

pub fn starts_with_chars(s: &[char], p: &[char]) -> (b: bool)
    ensures
        b == starts_with(s@, p@),
{
    let r = occurs_at_exec(s, p, 0);
    proof {
        if p@.len() <= s@.len() {
            assert(s@.subrange(0, p@.len() as int) =~= s@.take(p@.len() as int));
        }
    }
    r
}

pub fn ends_with_chars(s: &[char], p: &[char]) -> (b: bool)
    ensures
        b == ends_with(s@, p@),
{
    if p.len() > s.len() {
        return false;
    }
    let r = occurs_at_exec(s, p, s.len() - p.len());
    proof {
        assert(s@.subrange(s.len() - p.len(), s.len() as int) =~= s@.skip(s.len() - p.len()));
    }
    r
}

pub fn contains_chars(s: &[char], p: &[char]) -> (b: bool)
    ensures
        b == contains(s@, p@),
{
    if p.len() > s.len() {
        return false;
    }
    let mut i: usize = 0;
    loop
        invariant
            p.len() <= s.len(),
            i <= s.len() - p.len(),
            forall|k: int| 0 <= k < i ==> !occurs_at(s@, p@, k),
        ensures
            forall|k: int| 0 <= k <= s.len() - p.len() ==> !occurs_at(s@, p@, k),
        decreases s.len() - p.len() - i,
    {
        if occurs_at_exec(s, p, i) {
            return true;
        }
        if i == s.len() - p.len() {
            break;
        }
        i += 1;
    }
    proof {
        assert forall|k: int| !occurs_at(s@, p@, k) by {
            if 0 <= k && k + p@.len() <= s@.len() {
                assert(k <= s.len() - p.len());
            }
        }
    }
    false
}

/// `s.contains(p)` on string slices.
pub fn str_contains(s: &str, p: &str) -> (b: bool)
    ensures
        b == contains(s@, p@),
{
    let x = to_chars(s);
    let y = to_chars(p);
    contains_chars(x.as_slice(), y.as_slice())
}

/// `s.starts_with(p)` on string slices.
pub fn str_starts_with(s: &str, p: &str) -> (b: bool)
    ensures
        b == starts_with(s@, p@),
{
    let x = to_chars(s);
    let y = to_chars(p);
    starts_with_chars(x.as_slice(), y.as_slice())
}

/// `s.ends_with(p)` on string slices.
pub fn str_ends_with(s: &str, p: &str) -> (b: bool)
    ensures
        b == ends_with(s@, p@),
{
    let x = to_chars(s);
    let y = to_chars(p);
    ends_with_chars(x.as_slice(), y.as_slice())
}

// ---------------------------------------------------------------------------
// Lines
// ---------------------------------------------------------------------------

/// Position of the first `'\n'`, or the length when there is none.
pub open spec fn nl_pos(s: Seq<char>) -> nat
    decreases s.len(),
{
    if s.len() == 0 || s[0] == '\n' {
        0
    } else {
        1 + nl_pos(s.drop_first())
    }
}

/// Removes one trailing `'\r'`.
pub open spec fn strip_cr(s: Seq<char>) -> Seq<char> {
    if s.len() > 0 && s.last() == '\r' {
        s.drop_last()
    } else {
        s
    }
}

/// `str::lines`: pieces between `'\n'`s; a `'\r'` right before a `'\n'` is
/// dropped; a final line ending adds no empty line.
pub open spec fn lines(s: Seq<char>) -> Seq<Seq<char>>
    decreases s.len(),
{
    if s.len() == 0 {
        seq![]
    } else {
        let k = nl_pos(s);
        if k >= s.len() {
            seq![s]
        } else {
            seq![strip_cr(s.take(k as int))] + lines(s.skip((k + 1) as int))
        }
    }
}

pub proof fn lemma_nl_pos_bound(s: Seq<char>)
    ensures
        nl_pos(s) <= s.len(),
        nl_pos(s) < s.len() ==> s[nl_pos(s) as int] == '\n',
    decreases s.len(),
{
    if s.len() > 0 && s[0] != '\n' {
        lemma_nl_pos_bound(s.drop_first());
        if nl_pos(s) < s.len() {
            assert(s[nl_pos(s) as int] == s.drop_first()[nl_pos(s.drop_first()) as int]);
        }
    }
}

/// A text has no more lines than characters.
pub proof fn lemma_lines_count(s: Seq<char>)
    ensures
        lines(s).len() <= s.len(),
    decreases s.len(),
{
    if s.len() > 0 {
        lemma_nl_pos_bound(s);
        let k = nl_pos(s);
        if k < s.len() {
            lemma_lines_count(s.skip((k + 1) as int));
        }
    }
}

pub proof fn lemma_nl_pos(s: Seq<char>, k: int)
    requires
        0 <= k <= s.len(),
        forall|j: int| 0 <= j < k ==> #[trigger] s[j] != '\n',
        k == s.len() || s[k] == '\n',
    ensures
        nl_pos(s) == k,
    decreases k,
{
    if k > 0 {
        let t = s.drop_first();
        assert forall|j: int| 0 <= j < k - 1 implies #[trigger] t[j] != '\n' by {
            assert(t[j] == s[j + 1]);
        }
        if k < s.len() {
            assert(t[k - 1] == s[k]);
        }
        lemma_nl_pos(t, k - 1);
    }
}

/// Splits `text` into lines as `str::lines` does.
pub fn split_lines_chars(v: &[char]) -> (out: Vec<Vec<char>>)
    ensures
        out@.map_values(|l: Vec<char>| l@) == lines(v@),
{
    let n = v.len();
    let mut out: Vec<Vec<char>> = Vec::new();
    let mut start: usize = 0;
    proof {
        assert(v@.skip(0) =~= v@);
        assert(out@.map_values(|l: Vec<char>| l@) + lines(v@) =~= lines(v@));
    }
    while start < n
        invariant
            n == v.len(),
            start <= n,
            out@.map_values(|l: Vec<char>| l@) + lines(v@.skip(start as int)) == lines(v@),
        decreases n - start,
    {
        let mut j = start;
        while j < n && v[j] != '\n'
            invariant
                start <= j <= n,
                n == v.len(),
                forall|k: int| start <= k < j ==> v@[k] != '\n',
            decreases n - j,
        {
            j += 1;
        }
        let ghost rest = v@.skip(start as int);
        proof {
            assert forall|k: int| 0 <= k < j - start implies #[trigger] rest[k] != '\n' by {
                assert(rest[k] == v@[start + k]);
            }
            if j < n {
                assert(rest[j - start] == v@[j as int]);
            }
            lemma_nl_pos(rest, j - start);
        }
        let ghost old_out = out@.map_values(|l: Vec<char>| l@);
        if j == n {
            let piece = slice_chars(v, start, n);
            proof {
                assert(piece@ =~= rest);
                assert(lines(v@.skip(n as int)) =~= Seq::<Seq<char>>::empty());
            }
            out.push(piece);
            proof {
                assert(out@.map_values(|l: Vec<char>| l@) =~= old_out.push(piece@));
                assert(lines(rest) =~= seq![rest]);
                assert(old_out + lines(rest) =~= old_out.push(piece@) + lines(v@.skip(n as int)));
            }
            start = n;
        } else {
            let end = if j > start && v[j - 1] == '\r' {
                j - 1
            } else {
                j
            };
            let piece = slice_chars(v, start, end);
            proof {
                assert(rest.take(j - start) =~= v@.subrange(start as int, j as int));
                assert(piece@ =~= strip_cr(rest.take(j - start)));
                assert(rest.skip(j - start + 1) =~= v@.skip(j + 1));
            }
            out.push(piece);
            proof {
                assert(out@.map_values(|l: Vec<char>| l@) =~= old_out.push(piece@));
                assert(lines(rest) == seq![piece@] + lines(v@.skip(j + 1)));
                assert(old_out + lines(rest) =~= old_out.push(piece@) + lines(v@.skip(j + 1)));
            }
            start = j + 1;
        }
    }
    proof {
        assert(lines(v@.skip(n as int)) =~= Seq::<Seq<char>>::empty());
        assert(out@.map_values(|l: Vec<char>| l@) + Seq::<Seq<char>>::empty() =~= out@.map_values(
            |l: Vec<char>| l@,
        ));
    }
    out
}

/// `text.lines().map(ToString::to_string).collect::<Vec<String>>()`
pub fn split_lines(text: &str) -> (out: Vec<String>)
    ensures
        out.deep_view() == lines(text@),
{
    let v = to_chars(text);
    let ls = split_lines_chars(v.as_slice());
    let mut out: Vec<String> = Vec::new();
    let mut i: usize = 0;
    while i < ls.len()
        invariant
            i <= ls.len(),
            ls@.map_values(|l: Vec<char>| l@) == lines(v@),
            out.deep_view() =~= ls@.map_values(|l: Vec<char>| l@).take(i as int),
        decreases ls.len() - i,
    {
        let s = from_chars(ls[i].as_slice());
        let ghost old_out = out.deep_view();
        out.push(s);
        proof {
            assert(out.deep_view() =~= old_out.push(s@));
            assert(ls@.map_values(|l: Vec<char>| l@).take(i + 1) =~= ls@.map_values(
                |l: Vec<char>| l@,
            ).take(i as int).push(ls@[i as int]@));
        }
        i += 1;
    }
    proof {
        assert(ls@.map_values(|l: Vec<char>| l@).take(ls.len() as int) =~= ls@.map_values(
            |l: Vec<char>| l@,
        ));
    }
    out
}

// ---------------------------------------------------------------------------
// Joining
// ---------------------------------------------------------------------------

/// `parts.join(sep)`
pub open spec fn join(parts: Seq<Seq<char>>, sep: Seq<char>) -> Seq<char>
    decreases parts.len(),
{
    if parts.len() == 0 {
        seq![]
    } else if parts.len() == 1 {
        parts[0]
    } else {
        join(parts.drop_last(), sep) + sep + parts.last()
    }
}

/// The text `"\n"`.
pub open spec fn nl() -> Seq<char> {
    seq!['\n']
}

/// `lines.join(sep)` for owned strings.
pub fn join_strings(parts: &[String], sep: &[char]) -> (r: Vec<char>)
    ensures
        r@ == join(parts@.map_values(|s: String| s@), sep@),
{
    let ghost ps = parts@.map_values(|s: String| s@);
    let mut r: Vec<char> = Vec::new();
    let mut i: usize = 0;
    while i < parts.len()
        invariant
            i <= parts.len(),
            ps == parts@.map_values(|s: String| s@),
            r@ == join(ps.take(i as int), sep@),
        decreases parts.len() - i,
    {
        proof {
            assert(ps.take(i + 1).drop_last() =~= ps.take(i as int));
        }
        if i > 0 {
            push_chars(&mut r, sep);
        }
        let v = to_chars(parts[i].as_str());
        push_chars(&mut r, v.as_slice());
        i += 1;
        proof {
            if i == 1 {
                assert(r@ =~= ps.take(1)[0]);
            }
        }
    }
    proof {
        assert(ps.take(parts.len() as int) =~= ps);
    }
    r
}

/// `lines.join("\n")` as a `String`.
pub fn join_lines(parts: &[String]) -> (r: String)
    ensures
        r@ == join(parts@.map_values(|s: String| s@), nl()),
{
    let sep = vec!['\n'];
    proof {
        assert(sep@ =~= nl());
    }
    let v = join_strings(parts, sep.as_slice());
    from_chars(v.as_slice())
}

// ---------------------------------------------------------------------------
// Numbers
// ---------------------------------------------------------------------------

pub open spec fn digit(d: nat) -> char {
    (('0' as u32) + d) as char
}

/// Decimal digits of `n`, as `format!("{}", n)` prints them.
pub open spec fn decimal(n: nat) -> Seq<char>
    decreases n,
{
    if n < 10 {
        seq![digit(n)]
    } else {
        decimal(n / 10).push(digit(n % 10))
    }
}

fn digit_char(d: u64) -> (c: char)
    requires
        d < 10,
    ensures
        c == digit(d as nat),
{
    if d == 0 { '0' }
    else if d == 1 { '1' }
    else if d == 2 { '2' }
    else if d == 3 { '3' }
    else if d == 4 { '4' }
    else if d == 5 { '5' }
    else if d == 6 { '6' }
    else if d == 7 { '7' }
    else if d == 8 { '8' }
    else { '9' }
}

pub fn push_decimal(out: &mut Vec<char>, n: u64)
    ensures
        final(out)@ == old(out)@ + decimal(n as nat),
    decreases n,
{
    if n < 10 {
        out.push(digit_char(n));
        proof {
            assert(decimal(n as nat) =~= seq![digit(n as nat)]);
        }
    } else {
        push_decimal(out, n / 10);
        out.push(digit_char(n % 10));
    }
}

/// `n.to_string()`
pub fn usize_to_string(n: usize) -> (s: String)
    ensures
        s@ == decimal(n as nat),
{
    let mut v: Vec<char> = Vec::new();
    push_decimal(&mut v, n as u64);
    from_chars(v.as_slice())
}

/// `" ".repeat(n)` appended to `out` (any single character `c`).
pub fn push_repeat(out: &mut Vec<char>, c: char, n: usize)
    ensures
        final(out)@ == old(out)@ + Seq::new(n as nat, |i: int| c),
{
    let ghost start = out@;
    let mut i: usize = 0;
    while i < n
        invariant
            i <= n,
            out@ == start + Seq::new(i as nat, |k: int| c),
        decreases n - i,
    {
        out.push(c);
        i += 1;
        proof {
            assert(Seq::new(i as nat, |k: int| c) =~= Seq::new((i - 1) as nat, |k: int| c).push(c));
        }
    }
}

// ---------------------------------------------------------------------------
// UTF-8 byte lengths (what `str::len` counts)
// ---------------------------------------------------------------------------

/// Bytes taken by `c` in UTF-8 (`char::len_utf8`).
pub open spec fn utf8_len(c: char) -> nat {
    let u = c as u32;
    if u < 0x80 {
        1
    } else if u < 0x800 {
        2
    } else if u < 0x10000 {
        3
    } else {
        4
    }
}

/// Bytes taken by `s` in UTF-8 (`str::len`).
pub open spec fn byte_len(s: Seq<char>) -> nat
    decreases s.len(),
{
    if s.len() == 0 {
        0
    } else {
        byte_len(s.drop_last()) + utf8_len(s.last())
    }
}

pub proof fn lemma_byte_len_take_step(s: Seq<char>, i: int)
    requires
        0 <= i < s.len(),
    ensures
        byte_len(s.take(i + 1)) == byte_len(s.take(i)) + utf8_len(s[i]),
{
    assert(s.take(i + 1).drop_last() =~= s.take(i));
}


/// A character count at a byte offset is at most the length.
pub proof fn lemma_char_count_at_byte_bound(s: Seq<char>, b: nat)
    ensures
        char_count_at_byte(s, b) matches Some(k) ==> k <= s.len() && byte_len(s.take(k as int)) == b,
{
}

/// Character counts grow with the byte offset.
pub proof fn lemma_char_count_at_byte_mono(s: Seq<char>, a: nat, b: nat)
    requires
        a <= b,
        char_count_at_byte(s, a) is Some,
        char_count_at_byte(s, b) is Some,
    ensures
        char_count_at_byte(s, a)->0 <= char_count_at_byte(s, b)->0,
{
    let i = char_count_at_byte(s, a)->0;
    let j = char_count_at_byte(s, b)->0;
    if j < i {
        lemma_byte_len_take_strict(s, j as int, i as int);
    }
}

/// `byte_len(s.take(k))` grows strictly with `k`.
pub proof fn lemma_byte_len_take_strict(s: Seq<char>, i: int, j: int)
    requires
        0 <= i < j <= s.len(),
    ensures
        byte_len(s.take(i)) < byte_len(s.take(j)),
    decreases j - i,
{
    lemma_byte_len_take_step(s, j - 1);
    if i < j - 1 {
        lemma_byte_len_take_strict(s, i, j - 1);
    }
}

pub proof fn lemma_byte_len_bound(s: Seq<char>)
    ensures
        s.len() <= byte_len(s) <= 4 * s.len(),
    decreases s.len(),
{
    if s.len() > 0 {
        lemma_byte_len_bound(s.drop_last());
    }
}

pub proof fn lemma_byte_len_concat(a: Seq<char>, b: Seq<char>)
    ensures
        byte_len(a + b) == byte_len(a) + byte_len(b),
    decreases b.len(),
{
    if b.len() == 0 {
        assert(a + b =~= a);
    } else {
        assert((a + b).drop_last() =~= a + b.drop_last());
        lemma_byte_len_concat(a, b.drop_last());
    }
}

pub fn char_len_utf8(c: char) -> (n: u128)
    ensures
        n == utf8_len(c),
{
    let u = c as u32;
    if u < 0x80 {
        1
    } else if u < 0x800 {
        2
    } else if u < 0x10000 {
        3
    } else {
        4
    }
}

/// `str::len` of the text `s`.
pub fn byte_len_of(s: &[char]) -> (n: u128)
    ensures
        n == byte_len(s@),
        n <= 4 * s.len(),
{
    let mut n: u128 = 0;
    let mut i: usize = 0;
    while i < s.len()
        invariant
            i <= s.len(),
            n == byte_len(s@.take(i as int)),
            n <= 4 * i,
        decreases s.len() - i,
    {
        proof {
            lemma_byte_len_take_step(s@, i as int);
        }
        n = n + char_len_utf8(s[i]);
        i += 1;
    }
    proof {
        assert(s@.take(s.len() as int) =~= s@);
    }
    n
}

/// The number of leading characters of `s` that take exactly `b` bytes,
/// when `b` falls on a character boundary.
pub open spec fn char_count_at_byte(s: Seq<char>, b: nat) -> Option<nat> {
    if exists|k: nat| k <= s.len() && byte_len(s.take(k as int)) == b {
        Some(choose|k: nat| k <= s.len() && byte_len(s.take(k as int)) == b)
    } else {
        None
    }
}

pub fn char_count_at_byte_exec(s: &[char], b: u128) -> (r: Option<usize>)
    ensures
        match r {
            Some(k) => char_count_at_byte(s@, b as nat) == Some(k as nat),
            None => char_count_at_byte(s@, b as nat) is None,
        },
{
    let mut n: u128 = 0;
    let mut i: usize = 0;
    while i < s.len() && n < b
        invariant
            i <= s.len(),
            n == byte_len(s@.take(i as int)),
            n <= 4 * i,
            forall|k: nat| k < i ==> byte_len(#[trigger] s@.take(k as int)) < b,
        decreases s.len() - i,
    {
        proof {
            lemma_byte_len_take_step(s@, i as int);
            assert forall|k: nat| k < i + 1 implies byte_len(#[trigger] s@.take(k as int)) < b by {
                if k == i {
                } else {
                    lemma_byte_len_take_strict(s@, k as int, i as int);
                }
            }
        }
        n = n + char_len_utf8(s[i]);
        i += 1;
    }
    if n == b {
        proof {
            let w = choose|k: nat| k <= s@.len() && byte_len(s@.take(k as int)) == b;
            assert(i <= s@.len() && byte_len(s@.take(i as int)) == b);
            if w < i {
                lemma_byte_len_take_strict(s@, w as int, i as int);
            } else if w > i {
                lemma_byte_len_take_strict(s@, i as int, w as int);
            }
        }
        Some(i)
    } else {
        proof {
            assert forall|k: nat| k <= s@.len() implies byte_len(#[trigger] s@.take(k as int)) != b by {
                if k > i {
                    lemma_byte_len_take_strict(s@, i as int, k as int);
                }
            }
        }
        None
    }
}


/// `c` repeated `n` times.
pub open spec fn repeat(c: char, n: nat) -> Seq<char> {
    Seq::new(n, |k: int| c)
}

/// Appends `c` to `out` `n` times.
pub fn push_repeat_wide(out: &mut Vec<char>, c: char, n: u128)
    ensures
        final(out)@ == old(out)@ + repeat(c, n as nat),
{
    let ghost start = out@;
    let mut i: u128 = 0;
    while i < n
        invariant
            i <= n,
            out@ == start + repeat(c, i as nat),
        decreases n - i,
    {
        out.push(c);
        i += 1;
        proof {
            assert(repeat(c, i as nat) =~= repeat(c, (i - 1) as nat).push(c));
        }
    }
}


/// A copy of the texts `v`.
pub fn copy_texts(v: &Vec<String>) -> (r: Vec<String>)
    ensures
        r.deep_view() == v.deep_view(),
{
    let ghost vv = v@.map_values(|x: String| x@);
    let mut r: Vec<String> = Vec::new();
    let mut i: usize = 0;
    while i < v.len()
        invariant
            i <= v.len(),
            vv == v@.map_values(|x: String| x@),
            r@.map_values(|x: String| x@) == vv.take(i as int),
        decreases v.len() - i,
    {
        let s = v[i].clone();
        let ghost before = r@;
        r.push(s);
        proof {
            assert(s@ == vv[i as int]);
            assert(r@.map_values(|x: String| x@) =~= before.map_values(|x: String| x@).push(s@));
            assert(vv.take(i + 1) =~= vv.take(i as int).push(vv[i as int]));
        }
        i += 1;
    }
    proof {
        assert(vv.take(v.len() as int) =~= vv);
        assert(v.deep_view() =~= vv);
        assert(r.deep_view() =~= r@.map_values(|x: String| x@));
    }
    r
}

/// Appends the decimal digits of `n`.
pub fn push_decimal_u128(out: &mut Vec<char>, n: u128)
    ensures
        final(out)@ == old(out)@ + decimal(n as nat),
    decreases n,
{
    if n < 10 {
        push_decimal(out, n as u64);
    } else {
        push_decimal_u128(out, n / 10);
        let d = (n % 10) as u64;
        push_decimal(out, d);
        proof {
            assert(decimal(d as nat) =~= seq![digit(d as nat)]);
            assert(out@ =~= old(out)@ + decimal(n as nat));
        }
    }
}


proof fn lemma_scalar_len(c: char)
    ensures
        vstd::utf8::encode_scalar(c as u32).len() == utf8_len(c),
{
    let u = c as u32;
    assert(u <= 0x10FFFF);
    assert(!(0xD800 <= u <= 0xDFFF));
}

/// The UTF-8 encoding of `s` takes `byte_len(s)` bytes.
pub proof fn lemma_encoded_len(s: Seq<char>)
    ensures
        vstd::utf8::encode_utf8(s).len() == byte_len(s),
    decreases s.len(),
{
    if s.len() > 0 {
        lemma_encoded_len(s.drop_first());
        lemma_scalar_len(s[0]);
        assert(s =~= seq![s[0]] + s.drop_first());
        lemma_byte_len_concat(seq![s[0]], s.drop_first());
        let one = seq![s[0]];
        assert(one.drop_last() =~= Seq::<char>::empty());
        assert(byte_len(one.drop_last()) == 0);
        assert(one.last() == s[0]);
        assert(byte_len(one) == byte_len(one.drop_last()) + utf8_len(one.last()));
        assert(byte_len(seq![s[0]]) == utf8_len(s[0]));
        assert(byte_len(s) == utf8_len(s[0]) + byte_len(s.drop_first()));
        assert(vstd::utf8::encode_utf8(s) == vstd::utf8::encode_scalar(s[0] as u32) + vstd::utf8::encode_utf8(
            s.drop_first(),
        ));
    }
}

/// The text `s` takes no more bytes than a `usize` counts.
pub fn byte_len_fits(s: &str)
    ensures
        byte_len(s@) <= usize::MAX,
{
    let b = s.as_bytes();
    proof {
        lemma_encoded_len(s@);
        assert(b@.len() == b.len());
    }
}

} // verus!
