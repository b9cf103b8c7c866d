//! Diffs as operations on text: inserting, deleting and replacing byte
//! ranges, computed from a word diff and applied back to a text.
use vstd::prelude::*;
use crate::text::{
    byte_len, char_count_at_byte, decimal, utf8_len, from_chars, join, lines, nl, push_chars, push_decimal, push_str, to_chars,
};

verus! {

/// Represents a single diff operation; positions count bytes of the text
/// the diff was made from.
#[derive(Debug, PartialEq, Eq)]
pub enum DiffOp {
    /// Insert new content
    Insert { content: String, position: usize },
    /// Delete content
    Delete { start: usize, end: usize },
    /// Replace content
    Replace { start: usize, end: usize, content: String },
}

/// An operation as (kind, start, end, content): kind 0 inserts `content`
/// at `start` (= `end`), 1 deletes, 2 replaces.
pub open spec fn op_view(op: DiffOp) -> (nat, nat, nat, Seq<char>) {
    match op {
        DiffOp::Insert { content, position } => (0, position as nat, position as nat, content@),
        DiffOp::Delete { start, end } => (1, start as nat, end as nat, seq![]),
        DiffOp::Replace { start, end, content } => (2, start as nat, end as nat, content@),
    }
}

pub open spec fn ops_view(ops: Seq<DiffOp>) -> Seq<(nat, nat, nat, Seq<char>)> {
    ops.map_values(|o: DiffOp| op_view(o))
}

pub open spec fn insert_v(position: nat, content: Seq<char>) -> (nat, nat, nat, Seq<char>) {
    (0, position, position, content)
}

pub open spec fn delete_v(start: nat, end: nat) -> (nat, nat, nat, Seq<char>) {
    (1, start, end, seq![])
}

pub open spec fn replace_v(start: nat, end: nat, content: Seq<char>) -> (nat, nat, nat, Seq<char>) {
    (2, start, end, content)
}

impl Clone for DiffOp {
    fn clone(&self) -> (r: Self)
        ensures
            op_view(r) == op_view(*self),
    {
        match self {
            DiffOp::Insert { content, position } => DiffOp::Insert { content: content.clone(), position: *position },
            DiffOp::Delete { start, end } => DiffOp::Delete { start: *start, end: *end },
            DiffOp::Replace { start, end, content } => DiffOp::Replace {
                start: *start,
                end: *end,
                content: content.clone(),
            },
        }
    }
}

impl DiffOp {
    /// The operation as its `Display` prints it.
    pub fn to_text(&self) -> (r: String)
        ensures
            r@ == match *self {
                DiffOp::Insert { content, position } => "Insert at position "@ + decimal(position as nat) + ": '"@
                    + content@ + "'"@,
                DiffOp::Delete { start, end } => "Delete from position "@ + decimal(start as nat) + " to "@ + decimal(
                    end as nat,
                ),
                DiffOp::Replace { start, end, content } => "Replace from position "@ + decimal(start as nat) + " to "@
                    + decimal(end as nat) + " with '"@ + content@ + "'"@,
            },
    {
        let mut v: Vec<char> = Vec::new();
        match self {
            DiffOp::Insert { content, position } => {
                push_str(&mut v, "Insert at position ");
                push_decimal(&mut v, *position as u64);
                push_str(&mut v, ": '");
                push_str(&mut v, content.as_str());
                push_str(&mut v, "'");
            },
            DiffOp::Delete { start, end } => {
                push_str(&mut v, "Delete from position ");
                push_decimal(&mut v, *start as u64);
                push_str(&mut v, " to ");
                push_decimal(&mut v, *end as u64);
            },
            DiffOp::Replace { start, end, content } => {
                push_str(&mut v, "Replace from position ");
                push_decimal(&mut v, *start as u64);
                push_str(&mut v, " to ");
                push_decimal(&mut v, *end as u64);
                push_str(&mut v, " with '");
                push_str(&mut v, content.as_str());
                push_str(&mut v, "'");
            },
        }
        from_chars(v.as_slice())
    }
}

// ---------------------------------------------------------------------------
// Computing a diff

/// The kind of one change of a word diff.
#[derive(Debug, Clone, Copy, PartialEq, Eq)]
pub enum ChangeKind {
    Delete,
    Insert,
    Equal,
}

/// The changes, word by word, that `similar::TextDiff::from_words` finds
/// between two texts, as `iter_all_changes` lists them.
pub uninterp spec fn word_changes(old: Seq<char>, new: Seq<char>) -> Seq<(ChangeKind, Seq<char>)>;

/// The text of the changes of `cs` that belong to the old text (kept and
/// deleted ones), in order.
pub open spec fn old_side(cs: Seq<(ChangeKind, Seq<char>)>) -> Seq<char>
    decreases cs.len(),
{
    if cs.len() == 0 {
        seq![]
    } else {
        old_side(cs.drop_last()) + if cs.last().0 == ChangeKind::Insert {
            seq![]
        } else {
            cs.last().1
        }
    }
}

/// The text of the changes of `cs` that belong to the new text (kept and
/// inserted ones), in order.
pub open spec fn new_side(cs: Seq<(ChangeKind, Seq<char>)>) -> Seq<char>
    decreases cs.len(),
{
    if cs.len() == 0 {
        seq![]
    } else {
        new_side(cs.drop_last()) + if cs.last().0 == ChangeKind::Delete {
            seq![]
        } else {
            cs.last().1
        }
    }
}

/// `similar::TextDiff::from_words(old, new).iter_all_changes()`, each
/// change as its kind and text. The result is named by `word_changes`. As
/// the crate's source shows, the words are the runs of whitespace and of
/// other characters that make up each text, and every word of each text
/// comes once, in order: the kept and deleted words make up `old`, the kept
/// and inserted ones `new`.
#[verifier::external_body]
fn word_diff(old: &str, new: &str) -> (r: Vec<(ChangeKind, String)>)
    ensures
        r@.map_values(|c: (ChangeKind, String)| (c.0, c.1@)) == word_changes(old@, new@),
        old_side(r@.map_values(|c: (ChangeKind, String)| (c.0, c.1@))) == old@,
        new_side(r@.map_values(|c: (ChangeKind, String)| (c.0, c.1@))) == new@,
{
    let diff = similar::TextDiff::from_words(old, new);
    diff.iter_all_changes().map(|c| {
        let kind = match c.tag() {
            similar::ChangeTag::Delete => ChangeKind::Delete,
            similar::ChangeTag::Insert => ChangeKind::Insert,
            similar::ChangeTag::Equal => ChangeKind::Equal,
        };
        (kind, c.value().to_string())
    }).collect()
}

/// The operations read off the changes `cs`, and the position (in bytes of
/// the old text) after them. Kept words move the position on; a deleted
/// word is deleted at the position (joining a deletion that ends there) and
/// moves it on; an inserted word is inserted at the position (joining an
/// insertion there).
pub open spec fn collect(cs: Seq<(ChangeKind, Seq<char>)>) -> (Seq<(nat, nat, nat, Seq<char>)>, nat)
    decreases cs.len(),
{
    if cs.len() == 0 {
        (seq![], 0)
    } else {
        let (ops, pos) = collect(cs.drop_last());
        let (kind, value) = cs.last();
        let n = byte_len(value);
        match kind {
            ChangeKind::Equal => (ops, pos + n),
            ChangeKind::Delete => if ops.len() > 0 && ops.last().0 == 1 && ops.last().2 == pos {
                (ops.drop_last().push(delete_v(ops.last().1, pos + n)), pos + n)
            } else {
                (ops.push(delete_v(pos, pos + n)), pos + n)
            },
            ChangeKind::Insert => if ops.len() > 0 && ops.last().0 == 0 && ops.last().1 == pos {
                (ops.drop_last().push(insert_v(pos, ops.last().3 + value)), pos)
            } else {
                (ops.push(insert_v(pos, value)), pos)
            },
        }
    }
}

/// A deletion followed by an insertion where it ends becomes one
/// replacement.
pub open spec fn optimized(ops: Seq<(nat, nat, nat, Seq<char>)>) -> Seq<(nat, nat, nat, Seq<char>)>
    decreases ops.len(),
{
    if ops.len() >= 2 && ops[0].0 == 1 && ops[1].0 == 0 && ops[0].2 == ops[1].1 {
        seq![replace_v(ops[0].1, ops[0].2, ops[1].3)] + optimized(ops.skip(2))
    } else if ops.len() >= 1 {
        seq![ops[0]] + optimized(ops.skip(1))
    } else {
        seq![]
    }
}

/// The diff of `old` into `new` as operations on `old`.
pub open spec fn diff_ops(old: Seq<char>, new: Seq<char>) -> Seq<(nat, nat, nat, Seq<char>)> {
    optimized(collect(word_changes(old, new)).0)
}

proof fn lemma_collect_bound(cs: Seq<(ChangeKind, Seq<char>)>)
    ensures
        collect(cs).1 == byte_len(old_side(cs)),
        forall|i: int|
            0 <= i < collect(cs).0.len() ==> (#[trigger] collect(cs).0[i]).1 <= collect(cs).0[i].2 <= collect(cs).1,
        forall|i: int| 0 <= i < collect(cs).0.len() ==> (#[trigger] collect(cs).0[i]).0 <= 1,
        forall|i: int| 0 <= i < collect(cs).0.len() && (#[trigger] collect(cs).0[i]).0 == 0 ==> collect(cs).0[i].1
            == collect(cs).0[i].2,
    decreases cs.len(),
{
    if cs.len() > 0 {
        lemma_collect_bound(cs.drop_last());
        crate::text::lemma_byte_len_concat(
            old_side(cs.drop_last()),
            if cs.last().0 == ChangeKind::Insert {
                seq![]
            } else {
                cs.last().1
            },
        );
        let (ops, pos) = collect(cs.drop_last());
        if ops.len() > 0 {
            assert(ops.last() == ops[ops.len() - 1]);
        }
    }
}

/// Calculate diff operations between two strings: the word diff read as
/// operations on `old`, a deletion followed by an insertion where it ends
/// made one replacement.
pub fn diff_strings(old: &str, new: &str) -> (r: Vec<DiffOp>)
    ensures
        ops_view(r@) == diff_ops(old@, new@),
        forall|i: int| 0 <= i < r@.len() ==> (#[trigger] op_view(r@[i])).1 <= byte_len(old@) && op_view(r@[i]).2
            <= byte_len(old@),
{
    crate::text::byte_len_fits(old);
    let changes = word_diff(old, new);
    let ghost cs = changes@.map_values(|c: (ChangeKind, String)| (c.0, c.1@));
    proof {
        lemma_collect_bound(cs);
    }
    let mut ops: Vec<DiffOp> = Vec::new();
    let mut pos: usize = 0;
    let mut i: usize = 0;
    while i < changes.len()
        invariant
            i <= changes.len(),
            cs == changes@.map_values(|c: (ChangeKind, String)| (c.0, c.1@)),
            byte_len(old_side(cs)) <= usize::MAX,
            (ops_view(ops@), pos as nat) == collect(cs.take(i as int)),
        decreases changes.len() - i,
    {
        let ghost pre = cs.take(i as int);
        proof {
            assert(cs.take(i + 1).drop_last() =~= pre);
            assert(cs.take(i + 1).last() == cs[i as int]);
            lemma_collect_bound(cs.take(i + 1));
            lemma_old_side_prefix(cs, i + 1);
        }
        let value = to_chars(changes[i].1.as_str());
        let n = crate::text::byte_len_of(value.as_slice());
        proof {
            assert(n == byte_len(cs[i as int].1));
        }
        match changes[i].0 {
            ChangeKind::Equal => {
                pos = pos + n as usize;
            },
            ChangeKind::Delete => {
                let next = pos + n as usize;
                let k = ops.len();
                let joined = if k > 0 {
                    match &ops[k - 1] {
                        DiffOp::Delete { start, end } => if *end == pos { Some(*start) } else { None },
                        _ => None,
                    }
                } else {
                    None
                };
                let ghost before = ops@;
                match joined {
                    Some(s) => {
                        ops.set(k - 1, DiffOp::Delete { start: s, end: next });
                        proof {
                            assert(ops_view(ops@) =~= ops_view(before).drop_last().push(delete_v(s as nat, next as nat)));
                        }
                    },
                    None => {
                        ops.push(DiffOp::Delete { start: pos, end: next });
                        proof {
                            assert(ops_view(ops@) =~= ops_view(before).push(delete_v(pos as nat, next as nat)));
                        }
                    },
                }
                pos = next;
            },
            ChangeKind::Insert => {
                let k = ops.len();
                let joined = if k > 0 {
                    match &ops[k - 1] {
                        DiffOp::Insert { position, .. } => *position == pos,
                        _ => false,
                    }
                } else {
                    false
                };
                let ghost before = ops@;
                if joined {
                    let mut text: Vec<char> = Vec::new();
                    match &ops[k - 1] {
                        DiffOp::Insert { content, .. } => push_str(&mut text, content.as_str()),
                        _ => {},
                    }
                    push_chars(&mut text, value.as_slice());
                    ops.set(k - 1, DiffOp::Insert { content: from_chars(text.as_slice()), position: pos });
                    proof {
                        assert(ops_view(ops@) =~= ops_view(before).drop_last().push(
                            insert_v(pos as nat, ops_view(before).last().3 + cs[i as int].1),
                        ));
                    }
                } else {
                    ops.push(DiffOp::Insert { content: changes[i].1.clone(), position: pos });
                    proof {
                        assert(ops_view(ops@) =~= ops_view(before).push(insert_v(pos as nat, cs[i as int].1)));
                    }
                }
            },
        }
        i += 1;
    }
    proof {
        assert(cs.take(changes.len() as int) =~= cs);
        lemma_optimized_bound(collect(cs).0, byte_len(old@));
    }
    optimize_operations(&mut ops);
    proof {
        assert forall|i: int| 0 <= i < ops@.len() implies (#[trigger] op_view(ops@[i])).1 <= byte_len(old@)
            && op_view(ops@[i]).2 <= byte_len(old@) by {
            assert(ops_view(ops@)[i] == op_view(ops@[i]));
        }
    }
    ops
}

/// Optimizing keeps positions within a bound every position keeps to.
proof fn lemma_optimized_bound(ops: Seq<(nat, nat, nat, Seq<char>)>, b: nat)
    requires
        forall|i: int| 0 <= i < ops.len() ==> (#[trigger] ops[i]).1 <= b && ops[i].2 <= b,
    ensures
        forall|i: int| 0 <= i < optimized(ops).len() ==> (#[trigger] optimized(ops)[i]).1 <= b && optimized(ops)[i].2 <= b,
    decreases ops.len(),
{
    if ops.len() >= 2 && ops[0].0 == 1 && ops[1].0 == 0 && ops[0].2 == ops[1].1 {
        let t = ops.skip(2);
        assert forall|i: int| 0 <= i < t.len() implies (#[trigger] t[i]).1 <= b && t[i].2 <= b by {
            assert(t[i] == ops[i + 2]);
        }
        lemma_optimized_bound(t, b);
        let r = seq![replace_v(ops[0].1, ops[0].2, ops[1].3)] + optimized(t);
        assert forall|i: int| 0 <= i < r.len() implies (#[trigger] r[i]).1 <= b && r[i].2 <= b by {
            if i > 0 {
                assert(r[i] == optimized(t)[i - 1]);
            }
        }
    } else if ops.len() >= 1 {
        let t = ops.skip(1);
        assert forall|i: int| 0 <= i < t.len() implies (#[trigger] t[i]).1 <= b && t[i].2 <= b by {
            assert(t[i] == ops[i + 1]);
        }
        lemma_optimized_bound(t, b);
        let r = seq![ops[0]] + optimized(t);
        assert forall|i: int| 0 <= i < r.len() implies (#[trigger] r[i]).1 <= b && r[i].2 <= b by {
            if i > 0 {
                assert(r[i] == optimized(t)[i - 1]);
            }
        }
    }
}

proof fn lemma_old_side_prefix(cs: Seq<(ChangeKind, Seq<char>)>, k: int)
    requires
        0 <= k <= cs.len(),
    ensures
        byte_len(old_side(cs.take(k))) <= byte_len(old_side(cs)),
    decreases cs.len() - k,
{
    if k < cs.len() {
        lemma_old_side_prefix(cs, k + 1);
        assert(cs.take(k + 1).drop_last() =~= cs.take(k));
        crate::text::lemma_byte_len_concat(
            old_side(cs.take(k)),
            if cs.take(k + 1).last().0 == ChangeKind::Insert {
                seq![]
            } else {
                cs.take(k + 1).last().1
            },
        );
    } else {
        assert(cs.take(k) =~= cs);
    }
}

/// Optimize diff operations by combining a deletion and the insertion
/// that follows it where it ends into one replacement.
pub fn optimize_operations(operations: &mut Vec<DiffOp>)
    ensures
        ops_view(final(operations)@) == optimized(ops_view(old(operations)@)),
{
    let ghost orig = ops_view(operations@);
    let mut out: Vec<DiffOp> = Vec::new();
    let mut rest: Vec<DiffOp> = Vec::new();
    std::mem::swap(&mut rest, operations);
    proof {
        assert(orig.skip(0) =~= orig);
        assert(ops_view(out@) =~= Seq::<(nat, nat, nat, Seq<char>)>::empty());
    }
    let mut i: usize = 0;
    while i < rest.len()
        invariant
            i <= rest.len(),
            orig == ops_view(rest@),
            ops_view(out@) + optimized(orig.skip(i as int)) == optimized(orig),
        decreases rest.len() - i,
    {
        let ghost tail = orig.skip(i as int);
        let merge = if i + 1 < rest.len() {
            match (&rest[i], &rest[i + 1]) {
                (DiffOp::Delete { start, end }, DiffOp::Insert { position, content }) => if *end == *position {
                    Some(DiffOp::Replace { start: *start, end: *end, content: content.clone() })
                } else {
                    None
                },
                _ => None,
            }
        } else {
            None
        };
        match merge {
            Some(op) => {
                proof {
                    assert(tail[0] == orig[i as int]);
                    assert(tail[1] == orig[i + 1]);
                    assert(tail.skip(2) =~= orig.skip(i + 2));
                }
                let ghost before = out@;
                out.push(op);
                proof {
                    assert(ops_view(out@) =~= ops_view(before) + seq![op_view(op)]);
                }
                i += 2;
            },
            None => {
                proof {
                    assert(tail[0] == orig[i as int]);
                    if i + 1 < rest.len() {
                        assert(tail[1] == orig[i + 1]);
                    }
                    assert(tail.skip(1) =~= orig.skip(i + 1));
                }
                let op = rest[i].clone();
                let ghost before = out@;
                out.push(op);
                proof {
                    assert(ops_view(out@) =~= ops_view(before) + seq![op_view(rest@[i as int])]);
                }
                i += 1;
            },
        }
    }
    proof {
        assert(orig.skip(rest.len() as int) =~= Seq::<(nat, nat, nat, Seq<char>)>::empty());
        assert(ops_view(out@) =~= optimized(orig));
    }
    *operations = out;
}


/// An operation moved on by `offset`.
pub open spec fn shifted(o: (nat, nat, nat, Seq<char>), offset: nat) -> (nat, nat, nat, Seq<char>) {
    (o.0, o.1 + offset, o.2 + offset, o.3)
}

/// The operations of the chunks, each chunk's moved on by its index times
/// `chunk_size`, one chunk after the other.
pub open spec fn combined(chunks: Seq<Seq<DiffOp>>, chunk_size: nat) -> Seq<(nat, nat, nat, Seq<char>)>
    decreases chunks.len(),
{
    if chunks.len() == 0 {
        seq![]
    } else {
        let i = chunks.len() - 1;
        combined(chunks.drop_last(), chunk_size) + ops_view(chunks.last()).map_values(
            |o: (nat, nat, nat, Seq<char>)| shifted(o, (i * chunk_size) as nat),
        )
    }
}

/// Every shifted position of the chunks fits in a `usize`.
pub open spec fn shifts_fit(chunks: Seq<Seq<DiffOp>>, chunk_size: nat) -> bool {
    forall|i: int, k: int|
        0 <= i < chunks.len() && 0 <= k < chunks[i].len() ==> op_view(#[trigger] chunks[i][k]).1 + i * chunk_size
            <= usize::MAX && op_view(chunks[i][k]).2 + i * chunk_size <= usize::MAX
}

/// Combine diff results from chunked processing: each chunk's operations
/// moved on by the chunk's index times `chunk_size`, then optimized.
pub fn combine_chunk_results(chunk_results: Vec<Vec<DiffOp>>, chunk_size: usize) -> (r: Vec<DiffOp>)
    requires
        shifts_fit(chunk_results@.map_values(|c: Vec<DiffOp>| c@), chunk_size as nat),
        chunk_results@.len() * chunk_size <= usize::MAX,
    ensures
        ops_view(r@) == optimized(combined(chunk_results@.map_values(|c: Vec<DiffOp>| c@), chunk_size as nat)),
{
    let ghost chunks = chunk_results@.map_values(|c: Vec<DiffOp>| c@);
    let mut out: Vec<DiffOp> = Vec::new();
    let mut i: usize = 0;
    while i < chunk_results.len()
        invariant
            i <= chunk_results.len(),
            chunks == chunk_results@.map_values(|c: Vec<DiffOp>| c@),
            shifts_fit(chunks, chunk_size as nat),
            chunk_results@.len() * chunk_size <= usize::MAX,
            ops_view(out@) == combined(chunks.take(i as int), chunk_size as nat),
        decreases chunk_results.len() - i,
    {
        proof {
            assert(i * chunk_size <= chunk_results@.len() * chunk_size) by (nonlinear_arith)
                requires
                    i < chunk_results@.len(),
            ;
        }
        let offset = i * chunk_size;
        let ops = &chunk_results[i];
        let ghost head = out@;
        let mut k: usize = 0;
        while k < ops.len()
            invariant
                i < chunk_results.len(),
                chunks == chunk_results@.map_values(|c: Vec<DiffOp>| c@),
                k <= ops.len(),
                ops@ == chunks[i as int],
                offset == i * chunk_size,
                shifts_fit(chunks, chunk_size as nat),
                ops_view(out@) == ops_view(head) + ops_view(ops@.take(k as int)).map_values(
                    |o: (nat, nat, nat, Seq<char>)| shifted(o, offset as nat),
                ),
            decreases ops.len() - k,
        {
            proof {
                assert(op_view(chunks[i as int][k as int]).2 + i * chunk_size <= usize::MAX);
                assert(op_view(chunks[i as int][k as int]).1 + i * chunk_size <= usize::MAX);
            }
            let moved = match &ops[k] {
                DiffOp::Insert { content, position } => DiffOp::Insert {
                    content: content.clone(),
                    position: *position + offset,
                },
                DiffOp::Delete { start, end } => DiffOp::Delete { start: *start + offset, end: *end + offset },
                DiffOp::Replace { start, end, content } => DiffOp::Replace {
                    start: *start + offset,
                    end: *end + offset,
                    content: content.clone(),
                },
            };
            proof {
                assert(op_view(moved) == shifted(op_view(ops@[k as int]), offset as nat));
            }
            let ghost before = out@;
            out.push(moved);
            proof {
                assert(ops@.take(k + 1) =~= ops@.take(k as int).push(ops@[k as int]));
                assert(ops_view(out@) =~= ops_view(before).push(op_view(moved)));
                assert(ops_view(ops@.take(k + 1)) =~= ops_view(ops@.take(k as int)).push(op_view(ops@[k as int])));
                assert(ops_view(ops@.take(k + 1)).map_values(|o: (nat, nat, nat, Seq<char>)| shifted(o, offset as nat))
                    =~= ops_view(ops@.take(k as int)).map_values(
                    |o: (nat, nat, nat, Seq<char>)| shifted(o, offset as nat),
                ).push(shifted(op_view(ops@[k as int]), offset as nat)));
                assert(ops_view(out@) =~= ops_view(head) + ops_view(ops@.take(k + 1)).map_values(
                    |o: (nat, nat, nat, Seq<char>)| shifted(o, offset as nat),
                ));
            }
            k += 1;
        }
        proof {
            assert(ops@.take(ops.len() as int) =~= ops@);
            assert(chunks.take(i + 1).drop_last() =~= chunks.take(i as int));
            assert(chunks.take(i + 1).last() == chunks[i as int]);
        }
        i += 1;
    }
    proof {
        assert(chunks.take(chunk_results.len() as int) =~= chunks);
    }
    optimize_operations(&mut out);
    out
}

// ---------------------------------------------------------------------------
// Applying a diff

/// Where an operation acts: its position or the start of its range.
pub open spec fn key(o: (nat, nat, nat, Seq<char>)) -> nat {
    o.1
}

/// `x` placed into `s` after every operation that acts at or after it
/// (one step of a stable sort by falling position).
pub open spec fn insert_desc(s: Seq<(nat, nat, nat, Seq<char>)>, x: (nat, nat, nat, Seq<char>)) -> Seq<
    (nat, nat, nat, Seq<char>),
>
    decreases s.len(),
{
    if s.len() == 0 {
        seq![x]
    } else if key(s.last()) >= key(x) {
        s.push(x)
    } else {
        insert_desc(s.drop_last(), x).push(s.last())
    }
}

/// The operations sorted by falling position, keeping the given order
/// among those at the same position.
pub open spec fn by_position_desc(ops: Seq<(nat, nat, nat, Seq<char>)>) -> Seq<(nat, nat, nat, Seq<char>)>
    decreases ops.len(),
{
    if ops.len() == 0 {
        seq![]
    } else {
        insert_desc(by_position_desc(ops.drop_last()), ops.last())
    }
}

/// One operation applied to `t`: `None` when a position falls inside a
/// character, an error when it lies outside the text.
pub open spec fn apply_one(t: Seq<char>, o: (nat, nat, nat, Seq<char>)) -> Option<Result<Seq<char>, Seq<char>>> {
    let len = byte_len(t);
    let (kind, a, b, c) = o;
    if kind == 0 {
        if a > len {
            Some(Err("Insert position "@ + decimal(a) + " out of bounds (len: "@ + decimal(len) + ")"@))
        } else {
            match char_count_at_byte(t, a) {
                Some(k) => Some(Ok(t.take(k as int) + c + t.skip(k as int))),
                None => None,
            }
        }
    } else if b > len || a > b {
        Some(
            Err(
                (if kind == 1 {
                    "Delete range "@
                } else {
                    "Replace range "@
                }) + decimal(a) + ":"@ + decimal(b) + " is invalid (len: "@ + decimal(len) + ")"@,
            ),
        )
    } else {
        match (char_count_at_byte(t, a), char_count_at_byte(t, b)) {
            (Some(i), Some(j)) => Some(Ok(t.take(i as int) + (if kind == 1 {
                seq![]
            } else {
                c
            }) + t.skip(j as int))),
            _ => None,
        }
    }
}

/// The operations applied to `t` one after the other; the first error
/// stops them.
pub open spec fn apply_all(t: Seq<char>, ops: Seq<(nat, nat, nat, Seq<char>)>) -> Option<Result<Seq<char>, Seq<char>>>
    decreases ops.len(),
{
    if ops.len() == 0 {
        Some(Ok(t))
    } else {
        match apply_one(t, ops[0]) {
            Some(Ok(u)) => apply_all(u, ops.skip(1)),
            other => other,
        }
    }
}

/// What applying `ops` to `source` gives: the operations taken from the
/// last position to the first.
pub open spec fn applied(source: Seq<char>, ops: Seq<DiffOp>) -> Option<Result<Seq<char>, Seq<char>>> {
    apply_all(source, by_position_desc(ops_view(ops)))
}

fn key_of(o: &DiffOp) -> (r: usize)
    ensures
        r == key(op_view(*o)),
{
    match o {
        DiffOp::Insert { position, .. } => *position,
        DiffOp::Delete { start, .. } => *start,
        DiffOp::Replace { start, .. } => *start,
    }
}

proof fn lemma_insert_desc_at(s: Seq<(nat, nat, nat, Seq<char>)>, x: (nat, nat, nat, Seq<char>), p: int)
    requires
        0 <= p <= s.len(),
        p == 0 || key(s[p - 1]) >= key(x),
        forall|k: int| p <= k < s.len() ==> key(#[trigger] s[k]) < key(x),
    ensures
        insert_desc(s, x) == s.insert(p, x),
    decreases s.len(),
{
    if s.len() == 0 {
        assert(s.insert(p, x) =~= seq![x]);
    } else if p == s.len() {
        assert(s.insert(p, x) =~= s.push(x));
    } else {
        assert(key(s.last()) < key(x));
        lemma_insert_desc_at(s.drop_last(), x, p);
        assert(s.drop_last().insert(p, x).push(s.last()) =~= s.insert(p, x));
    }
}

fn push_error_range(v: &mut Vec<char>, a: usize, b: usize, len: u128)
    ensures
        final(v)@ == old(v)@ + decimal(a as nat) + ":"@ + decimal(b as nat) + " is invalid (len: "@ + decimal(
            len as nat,
        ) + ")"@,
{
    push_decimal(v, a as u64);
    push_str(v, ":");
    push_decimal(v, b as u64);
    push_str(v, " is invalid (len: ");
    crate::text::push_decimal_u128(v, len);
    push_str(v, ")");
}

/// Apply diff operations to a string, from the last position to the first
/// (operations at the same position in the order given). An operation
/// outside the text is refused; positions must fall between characters.
#[verifier::rlimit(40)]
pub fn apply_operations(source: &str, operations: &[DiffOp]) -> (r: Result<String, String>)
    requires
        applied(source@, operations@) is Some,
    ensures
        match r {
            Ok(t) => applied(source@, operations@) == Some(Ok::<Seq<char>, Seq<char>>(t@)),
            Err(e) => applied(source@, operations@) == Some(Err::<Seq<char>, Seq<char>>(e@)),
        },
{
    let ghost all = ops_view(operations@);
    // Sort the operations by falling position, stably.
    let mut sorted: Vec<&DiffOp> = Vec::new();
    let mut i: usize = 0;
    while i < operations.len()
        invariant
            i <= operations.len(),
            all == ops_view(operations@),
            sorted@.map_values(|o: &DiffOp| op_view(*o)) == by_position_desc(all.take(i as int)),
        decreases operations.len() - i,
    {
        let x = &operations[i];
        let k = key_of(x);
        let ghost s = sorted@.map_values(|o: &DiffOp| op_view(*o));
        let mut p: usize = sorted.len();
        while p > 0 && key_of(sorted[p - 1]) < k
            invariant
                p <= sorted.len(),
                s == sorted@.map_values(|o: &DiffOp| op_view(*o)),
                forall|j: int| p <= j < s.len() ==> key(#[trigger] s[j]) < k,
            decreases p,
        {
            p -= 1;
        }
        proof {
            lemma_insert_desc_at(s, op_view(*x), p as int);
            assert(all.take(i + 1).drop_last() =~= all.take(i as int));
            assert(all.take(i + 1).last() == all[i as int]);
        }
        sorted.insert(p, x);
        proof {
            assert(sorted@.map_values(|o: &DiffOp| op_view(*o)) =~= s.insert(p as int, op_view(*x)));
        }
        i += 1;
    }
    proof {
        assert(all.take(operations.len() as int) =~= all);
    }
    let ghost ops = sorted@.map_values(|o: &DiffOp| op_view(*o));
    let mut cur = to_chars(source);
    let mut j: usize = 0;
    proof {
        assert(ops.skip(0) =~= ops);
    }
    while j < sorted.len()
        invariant
            j <= sorted.len(),
            ops == sorted@.map_values(|o: &DiffOp| op_view(*o)),
            ops == by_position_desc(ops_view(operations@)),
            apply_all(cur@, ops.skip(j as int)) == apply_all(source@, ops),
            apply_all(source@, ops) is Some,
        decreases sorted.len() - j,
    {
        let ghost rest = ops.skip(j as int);
        proof {
            assert(rest[0] == ops[j as int]);
            assert(rest.skip(1) =~= ops.skip(j + 1));
        }
        let len = crate::text::byte_len_of(cur.as_slice());
        let next: Vec<char> = match sorted[j] {
            DiffOp::Insert { content, position } => {
                if *position as u128 > len {
                    let mut v: Vec<char> = Vec::new();
                    push_str(&mut v, "Insert position ");
                    push_decimal(&mut v, *position as u64);
                    push_str(&mut v, " out of bounds (len: ");
                    crate::text::push_decimal_u128(&mut v, len);
                    push_str(&mut v, ")");
                    proof {
                        assert(v@ =~= "Insert position "@ + decimal(*position as nat) + " out of bounds (len: "@
                            + decimal(len as nat) + ")"@);
                        assert(apply_one(cur@, rest[0]) == Some(Err::<Seq<char>, Seq<char>>(v@)));
                    }
                    return Err(from_chars(v.as_slice()));
                }
                match crate::text::char_count_at_byte_exec(cur.as_slice(), *position as u128) {
                    Some(k) => {
                        let mut v = crate::text::slice_chars(cur.as_slice(), 0, k);
                        push_str(&mut v, content.as_str());
                        let tail = crate::text::slice_chars(cur.as_slice(), k, cur.len());
                        push_chars(&mut v, tail.as_slice());
                        proof {
                            assert(tail@ =~= cur@.skip(k as int));
                        }
                        v
                    },
                    None => {
                        proof {
                            assert(false);
                        }
                        cur
                    },
                }
            },
            DiffOp::Delete { start, end } => {
                if *end as u128 > len || *start > *end {
                    let mut v: Vec<char> = Vec::new();
                    push_str(&mut v, "Delete range ");
                    push_error_range(&mut v, *start, *end, len);
                    proof {
                        assert(v@ =~= "Delete range "@ + (decimal(*start as nat) + ":"@ + decimal(*end as nat)
                            + " is invalid (len: "@ + decimal(len as nat) + ")"@));
                        assert(v@ =~= "Delete range "@ + decimal(*start as nat) + ":"@ + decimal(*end as nat)
                            + " is invalid (len: "@ + decimal(len as nat) + ")"@);
                        assert(apply_one(cur@, rest[0]) == Some(Err::<Seq<char>, Seq<char>>(v@)));
                    }
                    return Err(from_chars(v.as_slice()));
                }
                let a = crate::text::char_count_at_byte_exec(cur.as_slice(), *start as u128);
                let b = crate::text::char_count_at_byte_exec(cur.as_slice(), *end as u128);
                match (a, b) {
                    (Some(x), Some(y)) => {
                        let mut v = crate::text::slice_chars(cur.as_slice(), 0, x);
                        let tail = crate::text::slice_chars(cur.as_slice(), y, cur.len());
                        push_chars(&mut v, tail.as_slice());
                        proof {
                            assert(tail@ =~= cur@.skip(y as int));
                            assert(v@ =~= cur@.take(x as int) + Seq::<char>::empty() + cur@.skip(y as int));
                        }
                        v
                    },
                    _ => {
                        proof {
                            assert(false);
                        }
                        cur
                    },
                }
            },
            DiffOp::Replace { start, end, content } => {
                if *end as u128 > len || *start > *end {
                    let mut v: Vec<char> = Vec::new();
                    push_str(&mut v, "Replace range ");
                    push_error_range(&mut v, *start, *end, len);
                    proof {
                        assert(v@ =~= "Replace range "@ + (decimal(*start as nat) + ":"@ + decimal(*end as nat)
                            + " is invalid (len: "@ + decimal(len as nat) + ")"@));
                        assert(v@ =~= "Replace range "@ + decimal(*start as nat) + ":"@ + decimal(*end as nat)
                            + " is invalid (len: "@ + decimal(len as nat) + ")"@);
                        assert(apply_one(cur@, rest[0]) == Some(Err::<Seq<char>, Seq<char>>(v@)));
                    }
                    return Err(from_chars(v.as_slice()));
                }
                let a = crate::text::char_count_at_byte_exec(cur.as_slice(), *start as u128);
                let b = crate::text::char_count_at_byte_exec(cur.as_slice(), *end as u128);
                match (a, b) {
                    (Some(x), Some(y)) => {
                        let mut v = crate::text::slice_chars(cur.as_slice(), 0, x);
                        push_str(&mut v, content.as_str());
                        let tail = crate::text::slice_chars(cur.as_slice(), y, cur.len());
                        push_chars(&mut v, tail.as_slice());
                        proof {
                            assert(tail@ =~= cur@.skip(y as int));
                        }
                        v
                    },
                    _ => {
                        proof {
                            assert(false);
                        }
                        cur
                    },
                }
            },
        };
        cur = next;
        j += 1;
    }
    proof {
        assert(ops.skip(sorted.len() as int) =~= Seq::<(nat, nat, nat, Seq<char>)>::empty());
    }
    Ok(from_chars(cur.as_slice()))
}



// ---------------------------------------------------------------------------
// Applying a diff chunk by chunk

/// Bytes taken by the lines of `ls`, each followed by a newline.
pub open spec fn line_bytes(ls: Seq<Seq<char>>) -> nat
    decreases ls.len(),
{
    if ls.len() == 0 {
        0
    } else {
        line_bytes(ls.drop_last()) + byte_len(ls.last()) + 1
    }
}

/// Where line `j` of `ls` starts, counting each line before it and a
/// newline after each.
pub open spec fn line_start(ls: Seq<Seq<char>>, j: int) -> nat {
    line_bytes(ls.take(j))
}

/// The last of lines `0..=j` of `ls` that starts at or before `pos`.
pub open spec fn line_at(ls: Seq<Seq<char>>, pos: nat, j: int) -> nat
    decreases j,
{
    if j <= 0 {
        0
    } else if line_start(ls, j) <= pos {
        j as nat
    } else {
        line_at(ls, pos, j - 1)
    }
}

/// Lines per chunk when a diff is applied chunk by chunk.
pub const APPLY_CHUNK_LINES: usize = 200;

/// The number of chunks of `n` lines.
pub open spec fn chunk_count(n: nat) -> nat {
    (n + 199) / 200
}

/// The chunk an operation belongs to: that of the line where it starts
/// (a position at or past the end belongs to the line after the last).
pub open spec fn op_chunk(ls: Seq<Seq<char>>, o: (nat, nat, nat, Seq<char>)) -> nat {
    line_at(ls, o.1, ls.len() as int) / 200
}

/// The operations of `ops` that belong to chunk `i`, in order.
pub open spec fn chunk_ops(ls: Seq<Seq<char>>, ops: Seq<(nat, nat, nat, Seq<char>)>, i: nat) -> Seq<
    (nat, nat, nat, Seq<char>),
>
    decreases ops.len(),
{
    if ops.len() == 0 {
        seq![]
    } else {
        let r = chunk_ops(ls, ops.drop_last(), i);
        if op_chunk(ls, ops.last()) == i {
            r.push(ops.last())
        } else {
            r
        }
    }
}

/// `p` moved back by `offset`, stopping at zero.
pub open spec fn back(p: nat, offset: nat) -> nat {
    if p >= offset {
        (p - offset) as nat
    } else {
        0
    }
}

/// An operation moved back by `offset`.
pub open spec fn moved_back(o: (nat, nat, nat, Seq<char>), offset: nat) -> (nat, nat, nat, Seq<char>) {
    (o.0, back(o.1, offset), back(o.2, offset), o.3)
}

/// The lines of chunk `i`.
pub open spec fn chunk_lines(ls: Seq<Seq<char>>, i: nat) -> Seq<Seq<char>> {
    let start: int = (i * 200) as int;
    let end: int = if (i + 1) * 200 < ls.len() {
        ((i + 1) * 200) as int
    } else {
        ls.len() as int
    };
    ls.subrange(start, end)
}

/// Chunk `i` after its operations, each moved back to the chunk's start:
/// unchanged where it has none or they fail; `None` where one would cut a
/// character.
pub open spec fn chunk_applied(ls: Seq<Seq<char>>, ops: Seq<(nat, nat, nat, Seq<char>)>, i: nat) -> Option<
    Seq<char>,
> {
    let text = join(chunk_lines(ls, i), nl());
    let mine = chunk_ops(ls, ops, i);
    if mine.len() == 0 {
        Some(text)
    } else {
        let offset = line_start(ls, (i * 200) as int);
        match apply_all(
            text,
            by_position_desc(mine.map_values(|o: (nat, nat, nat, Seq<char>)| moved_back(o, offset))),
        ) {
            Some(Ok(t)) => Some(t),
            Some(Err(_)) => Some(text),
            None => None,
        }
    }
}

/// Whether a diff is applied whole rather than chunk by chunk: a source of
/// under 50000 bytes or 1000 lines, or under 50 operations.
pub open spec fn applied_whole(source: Seq<char>, ops: Seq<DiffOp>) -> bool {
    byte_len(source) < 50000 || ops.len() < 50 || lines(source).len() < 1000
}

/// What applying `ops` to `source` chunk by chunk gives: as a whole for
/// small inputs; else each chunk of lines with its own operations, the
/// chunks joined by newlines.
pub open spec fn applied_in_chunks(source: Seq<char>, ops: Seq<DiffOp>) -> Option<Result<Seq<char>, Seq<char>>> {
    if applied_whole(source, ops) {
        applied(source, ops)
    } else {
        let ls = lines(source);
        let n = chunk_count(ls.len());
        if forall|i: nat| i < n ==> (#[trigger] chunk_applied(ls, ops_view(ops), i)) is Some {
            Some(Ok(join(Seq::new(n, |i: int| chunk_applied(ls, ops_view(ops), i as nat)->0), nl())))
        } else {
            None
        }
    }
}

proof fn lemma_line_bytes_concat(a: Seq<Seq<char>>, b: Seq<Seq<char>>)
    ensures
        line_bytes(a + b) == line_bytes(a) + line_bytes(b),
    decreases b.len(),
{
    if b.len() == 0 {
        assert(a + b =~= a);
    } else {
        assert((a + b).drop_last() =~= a + b.drop_last());
        lemma_line_bytes_concat(a, b.drop_last());
    }
}

/// The lines of a text, each with a newline, take at most one byte more
/// than the text.
proof fn lemma_lines_bytes(s: Seq<char>)
    ensures
        line_bytes(lines(s)) <= byte_len(s) + 1,
    decreases s.len(),
{
    if s.len() > 0 {
        crate::text::lemma_nl_pos_bound(s);
        let k = crate::text::nl_pos(s);
        if k >= s.len() {
            assert(lines(s) == seq![s]);
            lemma_line_bytes_one(s);
        } else {
            let first = crate::text::strip_cr(s.take(k as int));
            let rest = s.skip((k + 1) as int);
            lemma_lines_bytes(rest);
            lemma_line_bytes_concat(seq![first], lines(rest));
            assert(seq![first].drop_last() =~= Seq::<Seq<char>>::empty());
            assert(s =~= s.take(k as int) + seq!['\n'] + rest);
            crate::text::lemma_byte_len_concat(s.take(k as int), seq!['\n']);
            crate::text::lemma_byte_len_concat(s.take(k as int) + seq!['\n'], rest);
            lemma_strip_cr_bytes(s.take(k as int));
            assert(lines(s) == seq![first] + lines(rest));
            lemma_line_bytes_one(first);
            assert(byte_len(seq!['\n']) == 1) by {
                let one = seq!['\n'];
                assert(one.drop_last() =~= Seq::<char>::empty());
                assert(byte_len(one) == byte_len(one.drop_last()) + utf8_len(one.last()));
                assert(('\n' as u32) == 10);
            }
            assert(byte_len(s) == byte_len(s.take(k as int)) + 1 + byte_len(rest));
        }
    }
}

proof fn lemma_line_bytes_one(x: Seq<char>)
    ensures
        line_bytes(seq![x]) == byte_len(x) + 1,
{
    let one = seq![x];
    assert(one.drop_last() =~= Seq::<Seq<char>>::empty());
    assert(line_bytes(one.drop_last()) == 0);
    assert(one.last() == x);
}

proof fn lemma_strip_cr_bytes(x: Seq<char>)
    ensures
        byte_len(crate::text::strip_cr(x)) <= byte_len(x),
{
    if x.len() > 0 && x.last() == '\r' {
        assert(x =~= x.drop_last() + seq![x.last()]);
        crate::text::lemma_byte_len_concat(x.drop_last(), seq![x.last()]);
    }
}


proof fn lemma_line_bytes_prefix(ls: Seq<Seq<char>>, i: int)
    requires
        0 <= i <= ls.len(),
    ensures
        line_bytes(ls.take(i)) <= line_bytes(ls),
{
    assert(ls =~= ls.take(i) + ls.skip(i));
    lemma_line_bytes_concat(ls.take(i), ls.skip(i));
}

/// Lines start strictly one after another.
proof fn lemma_line_start_strict(ls: Seq<Seq<char>>, a: int, b: int)
    requires
        0 <= a < b <= ls.len(),
    ensures
        line_start(ls, a) < line_start(ls, b),
    decreases b - a,
{
    assert(ls.take(b).drop_last() =~= ls.take(b - 1));
    if a < b - 1 {
        lemma_line_start_strict(ls, a, b - 1);
    }
}

/// The search for the line of `pos` ends at `lo` when `lo` starts at or
/// before `pos` and the line after it (if any) after `pos`.
proof fn lemma_line_at(ls: Seq<Seq<char>>, pos: nat, lo: int, j: int)
    requires
        0 <= lo <= j <= ls.len(),
        line_start(ls, lo) <= pos,
        lo == ls.len() || line_start(ls, lo + 1) > pos,
    ensures
        line_at(ls, pos, j) == lo,
    decreases j,
{
    if j > lo {
        if lo + 1 < j {
            lemma_line_start_strict(ls, lo + 1, j);
        }
        lemma_line_at(ls, pos, lo, j - 1);
    }
}

/// Where each line of `ls` starts, and where the text after them ends.
fn line_starts(ls: &Vec<String>) -> (r: Vec<usize>)
    requires
        line_bytes(ls@.map_values(|s: String| s@)) <= usize::MAX,
    ensures
        r@.len() == ls@.len() + 1,
        forall|j: int| 0 <= j <= ls@.len() ==> r@[j] == line_start(ls@.map_values(|s: String| s@), j),
{
    let ghost lv = ls@.map_values(|s: String| s@);
    let mut r: Vec<usize> = Vec::new();
    let mut pos: usize = 0;
    let mut i: usize = 0;
    proof {
        assert(lv.take(0) =~= Seq::<Seq<char>>::empty());
    }
    while i < ls.len()
        invariant
            i <= ls.len(),
            lv == ls@.map_values(|s: String| s@),
            line_bytes(lv) <= usize::MAX,
            r@.len() == i,
            pos == line_start(lv, i as int),
            forall|j: int| 0 <= j < i ==> r@[j] == line_start(lv, j),
        decreases ls.len() - i,
    {
        r.push(pos);
        let cs = to_chars(ls[i].as_str());
        let b = crate::text::byte_len_of(cs.as_slice());
        proof {
            assert(lv.take(i + 1).drop_last() =~= lv.take(i as int));
            assert(lv.take(i + 1).last() == lv[i as int]);
            lemma_line_bytes_prefix(lv, i + 1);
        }
        pos = pos + (b as usize) + 1;
        i += 1;
    }
    r.push(pos);
    proof {
        assert(lv.take(ls.len() as int) =~= lv);
    }
    r
}

/// The last line starting at or before `pos`, found by halving.
fn line_of_position(starts: &Vec<usize>, pos: usize, ls: Ghost<Seq<Seq<char>>>) -> (r: usize)
    requires
        starts@.len() == ls@.len() + 1,
        forall|j: int| 0 <= j <= ls@.len() ==> starts@[j] == line_start(ls@, j),
    ensures
        r == line_at(ls@, pos as nat, ls@.len() as int),
{
    proof {
        assert(ls@.take(0) =~= Seq::<Seq<char>>::empty());
        assert(line_bytes(Seq::<Seq<char>>::empty()) == 0);
        assert(starts@[0] == line_start(ls@, 0));
    }
    let mut lo: usize = 0;
    let mut hi: usize = starts.len();
    while hi - lo > 1
        invariant
            starts@.len() == ls@.len() + 1,
            forall|j: int| 0 <= j <= ls@.len() ==> starts@[j] == line_start(ls@, j),
            lo < hi <= starts@.len(),
            starts@[lo as int] <= pos,
            hi == starts@.len() || starts@[hi as int] > pos,
        decreases hi - lo,
    {
        let mid = lo + (hi - lo) / 2;
        if starts[mid] <= pos {
            lo = mid;
        } else {
            hi = mid;
        }
    }
    proof {
        if lo < ls@.len() {
            assert(hi == lo + 1);
        }
        lemma_line_at(ls@, pos as nat, lo as int, ls@.len() as int);
    }
    lo
}

/// The operation moved back by `offset`, stopping at zero.
fn move_back(o: &DiffOp, offset: usize) -> (r: DiffOp)
    ensures
        op_view(r) == moved_back(op_view(*o), offset as nat),
{
    match o {
        DiffOp::Insert { content, position } => DiffOp::Insert {
            content: content.clone(),
            position: if *position >= offset { *position - offset } else { 0 },
        },
        DiffOp::Delete { start, end } => DiffOp::Delete {
            start: if *start >= offset { *start - offset } else { 0 },
            end: if *end >= offset { *end - offset } else { 0 },
        },
        DiffOp::Replace { start, end, content } => DiffOp::Replace {
            start: if *start >= offset { *start - offset } else { 0 },
            end: if *end >= offset { *end - offset } else { 0 },
            content: content.clone(),
        },
    }
}


/// The operations of chunk `i`, each moved back by `offset`.
fn chunk_operations(
    operations: &[DiffOp],
    chunks: &Vec<usize>,
    i: usize,
    offset: usize,
    ls: Ghost<Seq<Seq<char>>>,
) -> (r: Vec<DiffOp>)
    requires
        chunks@.len() == operations@.len(),
        forall|k: int| 0 <= k < chunks@.len() ==> chunks@[k] == op_chunk(ls@, op_view(#[trigger] operations@[k])),
    ensures
        ops_view(r@) == chunk_ops(ls@, ops_view(operations@), i as nat).map_values(
            |o: (nat, nat, nat, Seq<char>)| moved_back(o, offset as nat),
        ),
{
    let ghost all = ops_view(operations@);
    let mut r: Vec<DiffOp> = Vec::new();
    let mut k: usize = 0;
    while k < operations.len()
        invariant
            k <= operations.len(),
            all == ops_view(operations@),
            chunks@.len() == operations@.len(),
            forall|j: int| 0 <= j < chunks@.len() ==> chunks@[j] == op_chunk(ls@, op_view(#[trigger] operations@[j])),
            ops_view(r@) == chunk_ops(ls@, all.take(k as int), i as nat).map_values(
                |o: (nat, nat, nat, Seq<char>)| moved_back(o, offset as nat),
            ),
        decreases operations.len() - k,
    {
        proof {
            assert(all.take(k + 1).drop_last() =~= all.take(k as int));
            assert(all.take(k + 1).last() == op_view(operations@[k as int]));
            assert(chunks@[k as int] == op_chunk(ls@, op_view(operations@[k as int])));
        }
        if chunks[k] == i {
            let m = move_back(&operations[k], offset);
            let ghost before = ops_view(r@);
            r.push(m);
            proof {
                assert(ops_view(r@) =~= before.push(op_view(m)));
                let c = chunk_ops(ls@, all.take(k as int), i as nat);
                assert(c.push(all[k as int]).map_values(|o: (nat, nat, nat, Seq<char>)| moved_back(o, offset as nat))
                    =~= c.map_values(|o: (nat, nat, nat, Seq<char>)| moved_back(o, offset as nat)).push(
                    moved_back(all[k as int], offset as nat),
                ));
            }
        }
        k += 1;
    }
    proof {
        assert(all.take(operations.len() as int) =~= all);
    }
    r
}

/// Applies diff operations to a large source a chunk of lines at a time:
/// a source under 50000 bytes or 1000 lines, or under 50 operations, is
/// handled as `apply_operations` handles it. Else the lines are taken 200
/// at a time; each operation goes with the chunk of the line it starts on,
/// moved back to that chunk's start; a chunk whose operations fail stays as
/// it was; the chunks are joined by newlines.
pub fn apply_operations_parallel(source: &str, operations: &[DiffOp]) -> (r: Result<String, String>)
    requires
        byte_len(source@) <= isize::MAX,
        applied_in_chunks(source@, operations@) is Some,
    ensures
        match r {
            Ok(t) => applied_in_chunks(source@, operations@) == Some(Ok::<Seq<char>, Seq<char>>(t@)),
            Err(e) => applied_in_chunks(source@, operations@) == Some(Err::<Seq<char>, Seq<char>>(e@)),
        },
{
    let chars = to_chars(source);
    let size = crate::text::byte_len_of(chars.as_slice());
    if size < 50000 || operations.len() < 50 {
        return apply_operations(source, operations);
    }
    let source_lines = crate::text::split_lines(source);
    if source_lines.len() < 1000 {
        return apply_operations(source, operations);
    }
    let ghost ls = lines(source@);
    let ghost all = ops_view(operations@);
    proof {
        assert(source_lines.deep_view() =~= source_lines@.map_values(|x: String| x@));
        lemma_lines_bytes(source@);
    }
    let starts = line_starts(&source_lines);
    let n = source_lines.len() / 200 + if source_lines.len() % 200 != 0 { 1 } else { 0 };
    let mut chunks: Vec<usize> = Vec::new();
    let mut k: usize = 0;
    while k < operations.len()
        invariant
            k <= operations.len(),
            ls == source_lines@.map_values(|x: String| x@),
            starts@.len() == ls.len() + 1,
            forall|j: int| 0 <= j <= ls.len() ==> starts@[j] == line_start(ls, j),
            chunks@.len() == k,
            forall|j: int| 0 <= j < k ==> chunks@[j] == op_chunk(ls, op_view(#[trigger] operations@[j])),
        decreases operations.len() - k,
    {
        let line = line_of_position(&starts, key_of(&operations[k]), Ghost(ls));
        chunks.push(line / 200);
        k += 1;
    }
    let mut results: Vec<String> = Vec::new();
    let mut i: usize = 0;
    while i < n
        invariant
            i <= n,
            n == chunk_count(ls.len()),
            n == source_lines.len() / 200 + if source_lines.len() % 200 != 0 { 1int } else { 0int },
            source_lines.len() >= 1000,
            !applied_whole(source@, operations@),
            applied_in_chunks(source@, operations@) is Some,
            ls == lines(source@),
            ls == source_lines@.map_values(|x: String| x@),
            all == ops_view(operations@),
            starts@.len() == ls.len() + 1,
            forall|j: int| 0 <= j <= ls.len() ==> starts@[j] == line_start(ls, j),
            chunks@.len() == operations@.len(),
            forall|j: int| 0 <= j < chunks@.len() ==> chunks@[j] == op_chunk(ls, op_view(#[trigger] operations@[j])),
            results@.len() == i,
            forall|j: int| 0 <= j < i ==> (#[trigger] results@[j])@ == chunk_applied(ls, all, j as nat)->0,
        decreases n - i,
    {
        proof {
            let len = source_lines.len() as int;
            assert(i * 200 < len) by (nonlinear_arith)
                requires
                    i < n,
                    n == len / 200 + if len % 200 != 0 { 1int } else { 0int },
                    len >= 0,
            ;
        }
        let start = i * 200;
        let end = if source_lines.len() - start > 200 { start + 200 } else { source_lines.len() };
        let part = vstd::slice::slice_subrange(source_lines.as_slice(), start, end);
        let text = crate::text::join_lines(part);
        let mine = chunk_operations(operations, &chunks, i, starts[start], Ghost(ls));
        proof {
            assert(part@.map_values(|x: String| x@) =~= chunk_lines(ls, i as nat));
            assert(chunk_applied(ls, all, i as nat) is Some);
        }
        if mine.len() == 0 {
            results.push(text);
        } else {
            match apply_operations(text.as_str(), mine.as_slice()) {
                Ok(t) => results.push(t),
                Err(_) => results.push(text),
            }
        }
        i += 1;
    }
    proof {
        assert(results@.map_values(|x: String| x@) =~= Seq::new(n as nat, |j: int| chunk_applied(ls, all, j as nat)->0));
    }
    Ok(crate::text::join_lines(results.as_slice()))
}


// ---------------------------------------------------------------------------
// Diffing chunk by chunk

/// The operations of the chunks, each chunk's moved on by its index times
/// `chunk_size`, one chunk after the other.
pub open spec fn combined_views(chunks: Seq<Seq<(nat, nat, nat, Seq<char>)>>, chunk_size: nat) -> Seq<
    (nat, nat, nat, Seq<char>),
>
    decreases chunks.len(),
{
    if chunks.len() == 0 {
        seq![]
    } else {
        let i = chunks.len() - 1;
        combined_views(chunks.drop_last(), chunk_size) + chunks.last().map_values(
            |o: (nat, nat, nat, Seq<char>)| shifted(o, (i * chunk_size) as nat),
        )
    }
}

proof fn lemma_combined_views(chunks: Seq<Seq<DiffOp>>, chunk_size: nat)
    ensures
        combined(chunks, chunk_size) == combined_views(chunks.map_values(|c: Seq<DiffOp>| ops_view(c)), chunk_size),
    decreases chunks.len(),
{
    if chunks.len() > 0 {
        lemma_combined_views(chunks.drop_last(), chunk_size);
        assert(chunks.drop_last().map_values(|c: Seq<DiffOp>| ops_view(c)) =~= chunks.map_values(
            |c: Seq<DiffOp>| ops_view(c),
        ).drop_last());
    }
}

/// Lines per chunk when two large texts are diffed chunk by chunk.
pub const DIFF_CHUNK_LINES: usize = 5000;

/// Chunk `j` of the lines `ls`, joined by newlines.
pub open spec fn diff_chunk(ls: Seq<Seq<char>>, j: nat) -> Seq<char> {
    let a: int = (j * 5000) as int;
    let b: int = if (j + 1) * 5000 < ls.len() {
        ((j + 1) * 5000) as int
    } else {
        ls.len() as int
    };
    join(ls.subrange(a, b), nl())
}

/// Whether two texts are diffed whole rather than chunk by chunk: either
/// is under 10000 bytes or 100 lines.
pub open spec fn diffed_whole(old: Seq<char>, new: Seq<char>) -> bool {
    byte_len(old) < 10000 || byte_len(new) < 10000 || lines(old).len() < 100 || lines(new).len() < 100
}

/// The diff of `old` into `new` made chunk by chunk: whole for small
/// texts; else the lines of each are taken 5000 at a time, chunk `j` of
/// `old` diffed into chunk `j` of `new` (as far as both have chunks), each
/// chunk's operations moved on by `j * 5000` and all of them optimized.
pub open spec fn diff_in_chunks(old: Seq<char>, new: Seq<char>) -> Seq<(nat, nat, nat, Seq<char>)> {
    if diffed_whole(old, new) {
        diff_ops(old, new)
    } else {
        let lo = lines(old);
        let ln = lines(new);
        let co = (lo.len() + 4999) / 5000;
        let cn = (ln.len() + 4999) / 5000;
        let m = if co < cn {
            co
        } else {
            cn
        };
        optimized(
            combined_views(Seq::new(m, |j: int| diff_ops(diff_chunk(lo, j as nat), diff_chunk(ln, j as nat))), 5000),
        )
    }
}

proof fn lemma_join_bytes(x: Seq<Seq<char>>)
    ensures
        byte_len(join(x, nl())) <= line_bytes(x),
    decreases x.len(),
{
    if x.len() == 1 {
        lemma_line_bytes_one(x[0]);
        assert(x =~= seq![x[0]]);
    } else if x.len() >= 2 {
        lemma_join_bytes(x.drop_last());
        crate::text::lemma_byte_len_concat(join(x.drop_last(), nl()), nl());
        crate::text::lemma_byte_len_concat(join(x.drop_last(), nl()) + nl(), x.last());
        assert(byte_len(nl()) == 1) by {
            let one = nl();
            assert(one.drop_last() =~= Seq::<char>::empty());
            assert(byte_len(one) == byte_len(one.drop_last()) + utf8_len(one.last()));
            assert(('\n' as u32) == 10);
        }
    }
}

/// Each line takes at least one byte.
proof fn lemma_line_bytes_count(ls: Seq<Seq<char>>)
    ensures
        ls.len() <= line_bytes(ls),
    decreases ls.len(),
{
    if ls.len() > 0 {
        lemma_line_bytes_count(ls.drop_last());
    }
}

/// A chunk's positions moved on by the chunk's first line stay within the
/// bytes of all the lines.
proof fn lemma_chunk_room(ls: Seq<Seq<char>>, a: int, b: int)
    requires
        0 <= a <= b <= ls.len(),
    ensures
        a + byte_len(join(ls.subrange(a, b), nl())) <= line_bytes(ls),
{
    lemma_join_bytes(ls.subrange(a, b));
    lemma_line_bytes_count(ls.take(a));
    assert(ls.take(b) =~= ls.take(a) + ls.subrange(a, b));
    lemma_line_bytes_concat(ls.take(a), ls.subrange(a, b));
    lemma_line_bytes_prefix(ls, b);
}

/// Diffs two large texts a chunk of lines at a time: texts under 10000
/// bytes or 100 lines are diffed whole, as `diff_strings` diffs them; else
/// chunk `j` (5000 lines) of `old` is diffed into chunk `j` of `new`, its
/// operations moved on by `j * 5000`, and all are combined and optimized.
pub fn diff_strings_parallel(old: &str, new: &str) -> (r: Vec<DiffOp>)
    requires
        byte_len(old@) <= isize::MAX,
    ensures
        ops_view(r@) == diff_in_chunks(old@, new@),
{
    let co_chars = to_chars(old);
    let cn_chars = to_chars(new);
    let bo = crate::text::byte_len_of(co_chars.as_slice());
    let bn = crate::text::byte_len_of(cn_chars.as_slice());
    if bo < 10000 || bn < 10000 {
        return diff_strings(old, new);
    }
    let old_lines = crate::text::split_lines(old);
    let new_lines = crate::text::split_lines(new);
    if old_lines.len() < 100 || new_lines.len() < 100 {
        return diff_strings(old, new);
    }
    let ghost lo = lines(old@);
    let ghost ln = lines(new@);
    proof {
        assert(old_lines.deep_view() =~= old_lines@.map_values(|x: String| x@));
        assert(new_lines.deep_view() =~= new_lines@.map_values(|x: String| x@));
        lemma_lines_bytes(old@);
        lemma_line_bytes_count(lo);
    }
    let co = old_lines.len() / 5000 + if old_lines.len() % 5000 != 0 { 1 } else { 0 };
    let cn = new_lines.len() / 5000 + if new_lines.len() % 5000 != 0 { 1 } else { 0 };
    let m = if co < cn { co } else { cn };
    let ghost want = Seq::new(m as nat, |j: int| diff_ops(diff_chunk(lo, j as nat), diff_chunk(ln, j as nat)));
    let mut results: Vec<Vec<DiffOp>> = Vec::new();
    let mut j: usize = 0;
    while j < m
        invariant
            j <= m,
            co == old_lines.len() / 5000 + if old_lines.len() % 5000 != 0 { 1int } else { 0int },
            cn == new_lines.len() / 5000 + if new_lines.len() % 5000 != 0 { 1int } else { 0int },
            m == (if co < cn { co } else { cn }),
            lo == old_lines@.map_values(|x: String| x@),
            ln == new_lines@.map_values(|x: String| x@),
            line_bytes(lo) <= byte_len(old@) + 1,
            byte_len(old@) <= isize::MAX,
            want == Seq::new(m as nat, |j: int| diff_ops(diff_chunk(lo, j as nat), diff_chunk(ln, j as nat))),
            results@.len() == j,
            forall|i: int| 0 <= i < j ==> ops_view(#[trigger] results@[i]@) == want[i],
            forall|i: int, k: int|
                0 <= i < j && 0 <= k < results@[i]@.len() ==> op_view(#[trigger] results@[i]@[k]).1 + i * 5000
                    <= line_bytes(lo) && op_view(results@[i]@[k]).2 + i * 5000 <= line_bytes(lo),
        decreases m - j,
    {
        proof {
            let len = old_lines.len() as int;
            let nlen = new_lines.len() as int;
            assert(j * 5000 < len) by (nonlinear_arith)
                requires
                    j < co,
                    co == len / 5000 + if len % 5000 != 0 { 1int } else { 0int },
                    len >= 0,
            ;
            assert(j * 5000 < nlen) by (nonlinear_arith)
                requires
                    j < cn,
                    cn == nlen / 5000 + if nlen % 5000 != 0 { 1int } else { 0int },
                    nlen >= 0,
            ;
        }
        let a = j * 5000;
        let bo_end = if old_lines.len() - a > 5000 { a + 5000 } else { old_lines.len() };
        let bn_end = if new_lines.len() - a > 5000 { a + 5000 } else { new_lines.len() };
        let old_text = crate::text::join_lines(vstd::slice::slice_subrange(old_lines.as_slice(), a, bo_end));
        let new_text = crate::text::join_lines(vstd::slice::slice_subrange(new_lines.as_slice(), a, bn_end));
        proof {
            assert(old_lines@.subrange(a as int, bo_end as int).map_values(|x: String| x@) =~= lo.subrange(
                a as int,
                bo_end as int,
            ));
            assert(new_lines@.subrange(a as int, bn_end as int).map_values(|x: String| x@) =~= ln.subrange(
                a as int,
                bn_end as int,
            ));
            assert(old_text@ == diff_chunk(lo, j as nat));
            assert(new_text@ == diff_chunk(ln, j as nat));
            lemma_chunk_room(lo, a as int, bo_end as int);
        }
        let ops = diff_strings(old_text.as_str(), new_text.as_str());
        results.push(ops);
        j += 1;
    }
    proof {
        assert(m * 5000 <= line_bytes(lo) + 5000) by (nonlinear_arith)
            requires
                m <= co,
                co == old_lines.len() / 5000 + if old_lines.len() % 5000 != 0 { 1int } else { 0int },
                old_lines.len() <= line_bytes(lo),
        ;
        let chunks = results@.map_values(|c: Vec<DiffOp>| c@);
        assert forall|i: int, k: int| 0 <= i < chunks.len() && 0 <= k < chunks[i].len() implies op_view(
            #[trigger] chunks[i][k],
        ).1 + i * 5000 <= usize::MAX && op_view(chunks[i][k]).2 + i * 5000 <= usize::MAX by {
            assert(chunks[i] == results@[i]@);
            assert(op_view(results@[i]@[k]).1 + i * 5000 <= line_bytes(lo));
        }
        lemma_combined_views(chunks, 5000);
        assert(chunks.map_values(|c: Seq<DiffOp>| ops_view(c)) =~= want);
    }
    combine_chunk_results(results, 5000)
}

} // verus!
