//! A simple edit: every occurrence of one text replaced by another. Reading
//! and writing the file happens outside; this module computes the new
//! content.
use vstd::prelude::*;
use crate::text::{contains, from_chars, occurs_at, occurs_at_exec, push_chars, to_chars};

verus! {

/// `s` with every match of `p` replaced by `r`, matches found from the left
/// without overlapping (what `str::replace` does; an empty pattern matches
/// before every character and at the end).
pub open spec fn replace_all(s: Seq<char>, p: Seq<char>, r: Seq<char>) -> Seq<char>
    decreases s.len(),
{
    if p.len() == 0 {
        if s.len() == 0 {
            r
        } else {
            r + seq![s[0]] + replace_all(s.drop_first(), p, r)
        }
    } else if s.len() < p.len() {
        s
    } else if s.take(p.len() as int) == p {
        r + replace_all(s.skip(p.len() as int), p, r)
    } else {
        seq![s[0]] + replace_all(s.drop_first(), p, r)
    }
}

/// The content of a file after a simple edit: every occurrence of
/// `old_text` replaced by `new_text`.
pub fn apply_simple_edit(content: &str, old_text: &str, new_text: &str) -> (r: String)
    ensures
        r@ == replace_all(content@, old_text@, new_text@),
{
    let s = to_chars(content);
    let p = to_chars(old_text);
    let rv = to_chars(new_text);
    let mut out: Vec<char> = Vec::new();
    let mut i: usize = 0;
    proof {
        assert(s@.skip(0) =~= s@);
        assert(out@ + replace_all(s@, p@, rv@) =~= replace_all(s@, p@, rv@));
    }
    while i < s.len()
        invariant
            i <= s.len(),
            s@ == content@,
            p@ == old_text@,
            rv@ == new_text@,
            out@ + replace_all(s@.skip(i as int), p@, rv@) == replace_all(s@, p@, rv@),
        decreases s.len() - i,
    {
        let ghost t = s@.skip(i as int);
        if p.len() > 0 && occurs_at_exec(s.as_slice(), p.as_slice(), i) {
            proof {
                assert(t.take(p@.len() as int) =~= s@.subrange(i as int, i + p@.len()));
                assert(t.skip(p@.len() as int) =~= s@.skip(i + p@.len()));
            }
            push_chars(&mut out, rv.as_slice());
            i = i + p.len();
        } else {
            proof {
                if p@.len() > 0 && t.len() >= p@.len() {
                    assert(t.take(p@.len() as int) =~= s@.subrange(i as int, i + p@.len()));
                }
                assert(t.drop_first() =~= s@.skip(i + 1));
                assert(t[0] == s@[i as int]);
                if p@.len() > 0 && t.len() < p@.len() {
                    assert(replace_all(t.drop_first(), p@, rv@) == t.drop_first());
                    assert(t =~= seq![t[0]] + t.drop_first());
                }
            }
            if p.len() == 0 {
                push_chars(&mut out, rv.as_slice());
            }
            out.push(s[i]);
            i += 1;
        }
    }
    proof {
        assert(s@.skip(i as int) =~= Seq::<char>::empty());
    }
    if p.len() == 0 {
        push_chars(&mut out, rv.as_slice());
    }
    proof {
        assert(out@ =~= replace_all(s@, p@, rv@));
    }
    from_chars(out.as_slice())
}

/// Text in which a non-empty pattern occurs nowhere comes back unchanged.
pub proof fn law_simple_edit_without_occurrence(s: Seq<char>, p: Seq<char>, r: Seq<char>)
    requires
        p.len() > 0,
        !contains(s, p),
    ensures
        replace_all(s, p, r) == s,
    decreases s.len(),
{
    if s.len() >= p.len() {
        assert(!occurs_at(s, p, 0));
        assert(s.subrange(0, p.len() as int) =~= s.take(p.len() as int));
        let t = s.drop_first();
        assert forall|j: int| !occurs_at(t, p, j) by {
            if occurs_at(t, p, j) {
                assert(s.subrange(j + 1, j + 1 + p.len()) =~= t.subrange(j, j + p.len()));
                assert(occurs_at(s, p, j + 1));
            }
        }
        law_simple_edit_without_occurrence(t, p, r);
        assert(s =~= seq![s[0]] + t);
    }
}

/// The first occurrence of a non-empty pattern is replaced, and the text
/// after it is edited in the same way: where `p` occurs in `a + p + b` at
/// the end of `a` and nowhere before, the result is `a`, then the
/// replacement, then `b` edited. In particular the pattern alone, or at the
/// very end of the text, is replaced.
pub proof fn law_simple_edit_replaces_first_occurrence(a: Seq<char>, p: Seq<char>, b: Seq<char>, r: Seq<char>)
    requires
        p.len() > 0,
        forall|j: int| 0 <= j < a.len() ==> !occurs_at(a + p + b, p, j),
    ensures
        replace_all(a + p + b, p, r) == a + r + replace_all(b, p, r),
    decreases a.len(),
{
    let s = a + p + b;
    if a.len() == 0 {
        assert(s.take(p.len() as int) =~= p);
        assert(s.skip(p.len() as int) =~= b);
        assert(a + r + replace_all(b, p, r) =~= r + replace_all(b, p, r));
    } else {
        assert(!occurs_at(s, p, 0));
        assert(s.subrange(0, p.len() as int) =~= s.take(p.len() as int));
        let a2 = a.drop_first();
        let t = a2 + p + b;
        assert(s.drop_first() =~= t);
        assert forall|j: int| 0 <= j < a2.len() implies !occurs_at(t, p, j) by {
            assert(!occurs_at(s, p, j + 1));
            if occurs_at(t, p, j) {
                assert(s.subrange(j + 1, j + 1 + p.len()) =~= t.subrange(j, j + p.len()));
            }
        }
        law_simple_edit_replaces_first_occurrence(a2, p, b, r);
        assert(s[0] == a[0]);
        assert(a + r + replace_all(b, p, r) =~= seq![a[0]] + (a2 + r + replace_all(b, p, r)));
    }
}

} // verus!

