//! Line-range replacements applied to a file's text in one pass.
//!
//! Reading the file and writing the result back happen outside this module;
//! here the text goes in and the edited text comes out.
use vstd::prelude::*;
use crate::text::{from_chars, lines, push_chars, push_str, split_lines_chars, to_chars};

verus! {

/// An edit of a range of lines.
#[derive(Debug, Clone)]
pub enum EditOperation {
    /// Replace lines `start_line..=end_line` (0-based) by `new_content`,
    /// written as it is.
    ReplaceLines { start_line: u64, end_line: u64, new_content: String },
}

/// An operation on a file.
#[derive(Debug, Clone)]
pub enum FileOperation {
    Edit(EditOperation),
}

impl EditOperation {
    pub open spec fn start(self) -> int {
        match self {
            EditOperation::ReplaceLines { start_line, .. } => start_line as int,
        }
    }

    pub open spec fn end(self) -> int {
        match self {
            EditOperation::ReplaceLines { end_line, .. } => end_line as int,
        }
    }

    pub open spec fn content(self) -> Seq<char> {
        match self {
            EditOperation::ReplaceLines { new_content, .. } => new_content@,
        }
    }
}

/// `x` placed into `s` after every operation that starts no later than it
/// (one step of a stable sort by start line).
pub open spec fn insert_by_start(s: Seq<EditOperation>, x: EditOperation) -> Seq<EditOperation>
    decreases s.len(),
{
    if s.len() == 0 {
        seq![x]
    } else if s.last().start() <= x.start() {
        s.push(x)
    } else {
        insert_by_start(s.drop_last(), x).push(s.last())
    }
}

/// The operations sorted by start line, keeping the given order among those
/// that start on the same line.
pub open spec fn by_start(ops: Seq<EditOperation>) -> Seq<EditOperation>
    decreases ops.len(),
{
    if ops.len() == 0 {
        seq![]
    } else {
        insert_by_start(by_start(ops.drop_last()), ops.last())
    }
}

/// The contents of the operations from `j` on that start at or after line
/// `n`, one after the other.
pub open spec fn appended(ops: Seq<EditOperation>, j: int, n: int) -> Seq<char>
    decreases ops.len() - j,
{
    if j >= ops.len() || j < 0 {
        seq![]
    } else {
        (if ops[j].start() >= n {
            ops[j].content()
        } else {
            seq![]
        }) + appended(ops, j + 1, n)
    }
}

/// The text produced from line `idx` on, when lines through `skip` are
/// replaced already and `ops[j]` is the next operation: a line where the
/// next operation starts is replaced by its content together with the lines
/// through its end; other lines are written with a newline; operations
/// starting at or after the end of the text are appended.
pub open spec fn edited_from(lines: Seq<Seq<char>>, ops: Seq<EditOperation>, idx: int, skip: int, j: int) -> Seq<char>
    decreases lines.len() - idx,
{
    if idx >= lines.len() || idx < 0 {
        appended(ops, j, lines.len() as int)
    } else if idx <= skip {
        edited_from(lines, ops, idx + 1, skip, j)
    } else if 0 <= j < ops.len() && ops[j].start() == idx {
        ops[j].content() + edited_from(lines, ops, idx + 1, ops[j].end(), j + 1)
    } else {
        lines[idx] + "\n"@ + edited_from(lines, ops, idx + 1, skip, j)
    }
}

/// The text after the operations, applied in order of their start lines.
pub open spec fn edited(text: Seq<char>, ops: Seq<EditOperation>) -> Seq<char> {
    edited_from(lines(text), by_start(ops), 0, -1, 0)
}

fn start_of(op: &EditOperation) -> (r: u64)
    ensures
        r == op.start(),
{
    match op {
        EditOperation::ReplaceLines { start_line, .. } => *start_line,
    }
}

fn end_of(op: &EditOperation) -> (r: u64)
    ensures
        r == op.end(),
{
    match op {
        EditOperation::ReplaceLines { end_line, .. } => *end_line,
    }
}

fn content_of(op: &EditOperation) -> (r: &str)
    ensures
        r@ == op.content(),
{
    match op {
        EditOperation::ReplaceLines { new_content, .. } => new_content.as_str(),
    }
}

proof fn lemma_insert_at(s: Seq<EditOperation>, x: EditOperation, p: int)
    requires
        0 <= p <= s.len(),
        p == 0 || s[p - 1].start() <= x.start(),
        forall|k: int| p <= k < s.len() ==> (#[trigger] s[k]).start() > x.start(),
    ensures
        insert_by_start(s, x) == s.insert(p, x),
    decreases s.len(),
{
    if s.len() == 0 {
        assert(s.insert(p, x) =~= seq![x]);
    } else if p == s.len() {
        assert(s.insert(p, x) =~= s.push(x));
    } else {
        assert(s.last().start() > x.start());
        lemma_insert_at(s.drop_last(), x, p);
        assert(s.drop_last().insert(p, x).push(s.last()) =~= s.insert(p, x));
    }
}

/// Replace line ranges of `text` as the operations say, taking them in
/// order of their start lines (see `edited`).
pub fn process_large_file(text: &str, operations: &[EditOperation]) -> (r: String)
    ensures
        r@ == edited(text@, operations@),
{
    // Sort the operations by start line, stably.
    let mut sorted: Vec<&EditOperation> = Vec::new();
    let mut i: usize = 0;
    while i < operations.len()
        invariant
            i <= operations.len(),
            sorted@.map_values(|o: &EditOperation| *o) == by_start(operations@.take(i as int)),
        decreases operations.len() - i,
    {
        let x = &operations[i];
        let key = start_of(x);
        let ghost s = sorted@.map_values(|o: &EditOperation| *o);
        let mut p: usize = sorted.len();
        while p > 0 && start_of(sorted[p - 1]) > key
            invariant
                p <= sorted.len(),
                s == sorted@.map_values(|o: &EditOperation| *o),
                forall|k: int| p <= k < s.len() ==> (#[trigger] s[k]).start() > key,
            decreases p,
        {
            p -= 1;
        }
        proof {
            lemma_insert_at(s, *x, p as int);
            assert(operations@.take(i + 1).drop_last() =~= operations@.take(i as int));
            assert(operations@.take(i + 1).last() == operations@[i as int]);
        }
        sorted.insert(p, x);
        proof {
            assert(sorted@.map_values(|o: &EditOperation| *o) =~= s.insert(p as int, *x));
        }
        i += 1;
    }
    proof {
        assert(operations@.take(operations.len() as int) =~= operations@);
    }
    let ghost ops = sorted@.map_values(|o: &EditOperation| *o);
    let v = to_chars(text);
    let ls = split_lines_chars(v.as_slice());
    let ghost lv = lines(text@);
    let n = ls.len();
    let mut out: Vec<char> = Vec::new();
    let mut idx: usize = 0;
    let mut skipping = false;
    let mut skip: u64 = 0;
    let mut j: usize = 0;
    while idx < n
        invariant
            idx <= n,
            n == ls.len() == lv.len(),
            ls@.map_values(|l: Vec<char>| l@) == lv,
            ops == sorted@.map_values(|o: &EditOperation| *o),
            j <= sorted.len(),
            out@ + edited_from(lv, ops, idx as int, if skipping { skip as int } else { -1 }, j as int)
                == edited_from(lv, ops, 0, -1, 0),
        decreases n - idx,
    {
        let ghost cur_skip: int = if skipping { skip as int } else { -1 };
        if skipping && (idx as u64) <= skip {
            // Replaced already.
        } else if j < sorted.len() && start_of(sorted[j]) == idx as u64 {
            push_str(&mut out, content_of(sorted[j]));
            skipping = true;
            skip = end_of(sorted[j]);
            j += 1;
        } else {
            proof {
                assert(ls@[idx as int]@ == lv[idx as int]);
                reveal_strlit("\n");
            }
            push_chars(&mut out, ls[idx].as_slice());
            out.push('\n');
        }
        idx += 1;
        proof {
            assert(out@ + edited_from(lv, ops, idx as int, if skipping { skip as int } else { -1 }, j as int)
                =~= edited_from(lv, ops, 0, -1, 0));
        }
    }
    // Operations that start at or after the end of the text.
    let ghost before_tail = out@;
    let mut k: usize = j;
    while k < sorted.len()
        invariant
            j <= k <= sorted.len(),
            n == lv.len(),
            ops == sorted@.map_values(|o: &EditOperation| *o),
            out@ + appended(ops, k as int, n as int) == before_tail + appended(ops, j as int, n as int),
        decreases sorted.len() - k,
    {
        if start_of(sorted[k]) >= n as u64 {
            push_str(&mut out, content_of(sorted[k]));
        }
        k += 1;
        proof {
            assert(out@ + appended(ops, k as int, n as int) =~= before_tail + appended(ops, j as int, n as int));
        }
    }
    proof {
        assert(appended(ops, k as int, n as int) =~= Seq::<char>::empty());
        assert(out@ =~= edited(text@, operations@));
    }
    from_chars(out.as_slice())
}

/// The edit operations among `operations`, in order.
pub open spec fn edits_of(operations: Seq<FileOperation>) -> Seq<EditOperation> {
    operations.map_values(|op: FileOperation| match op {
        FileOperation::Edit(e) => e,
    })
}

/// Apply a set of operations to a file's text: its edit operations, as
/// `process_large_file` applies them.
pub fn apply_operations(text: &str, operations: &[FileOperation]) -> (r: String)
    ensures
        r@ == edited(text@, edits_of(operations@)),
{
    let mut edits: Vec<EditOperation> = Vec::new();
    let mut i: usize = 0;
    while i < operations.len()
        invariant
            i <= operations.len(),
            edits@ =~= edits_of(operations@).take(i as int),
        decreases operations.len() - i,
    {
        match &operations[i] {
            FileOperation::Edit(e) => {
                let c = clone_edit(e);
                edits.push(c);
            },
        }
        i += 1;
    }
    proof {
        assert(edits_of(operations@).take(operations.len() as int) =~= edits_of(operations@));
        assert(edits@ == edits_of(operations@));
    }
    process_large_file(text, edits.as_slice())
}

fn clone_edit(e: &EditOperation) -> (r: EditOperation)
    ensures
        r == *e,
{
    match e {
        EditOperation::ReplaceLines { start_line, end_line, new_content } => EditOperation::ReplaceLines {
            start_line: *start_line,
            end_line: *end_line,
            new_content: new_content.clone(),
        },
    }
}


/// Each line followed by a newline, one after the other.
pub open spec fn with_newlines(ls: Seq<Seq<char>>) -> Seq<char>
    decreases ls.len(),
{
    if ls.len() == 0 {
        seq![]
    } else {
        ls[0] + "\n"@ + with_newlines(ls.skip(1))
    }
}

/// The lines after line `e`.
pub open spec fn lines_after(ls: Seq<Seq<char>>, e: int) -> Seq<Seq<char>> {
    if e + 1 >= ls.len() {
        seq![]
    } else {
        ls.skip(e + 1)
    }
}

proof fn lemma_copy_until(ls: Seq<Seq<char>>, ops: Seq<EditOperation>, idx: int, start: int)
    requires
        ops.len() == 1,
        ops[0].start() == start,
        0 <= idx <= start < ls.len(),
    ensures
        edited_from(ls, ops, idx, -1, 0) == with_newlines(ls.subrange(idx, start)) + edited_from(
            ls,
            ops,
            start,
            -1,
            0,
        ),
    decreases start - idx,
{
    if idx == start {
        assert(ls.subrange(idx, start) =~= Seq::<Seq<char>>::empty());
        assert(with_newlines(ls.subrange(idx, start)) =~= Seq::<char>::empty());
    } else {
        lemma_copy_until(ls, ops, idx + 1, start);
        assert(ls.subrange(idx, start).skip(1) =~= ls.subrange(idx + 1, start));
        assert(ls.subrange(idx, start)[0] == ls[idx]);
    }
}

proof fn lemma_skip_through(ls: Seq<Seq<char>>, ops: Seq<EditOperation>, idx: int, end: int)
    requires
        ops.len() == 1,
        0 <= idx,
        idx <= end + 1,
    ensures
        edited_from(ls, ops, idx, end, 1) == edited_from(ls, ops, end + 1, end, 1),
    decreases end + 1 - idx,
{
    if idx < end + 1 {
        lemma_skip_through(ls, ops, idx + 1, end);
    }
}

proof fn lemma_copy_rest(ls: Seq<Seq<char>>, ops: Seq<EditOperation>, idx: int, end: int)
    requires
        ops.len() == 1,
        0 <= idx,
        idx > end,
    ensures
        edited_from(ls, ops, idx, end, 1) == (if idx >= ls.len() {
            seq![]
        } else {
            with_newlines(ls.skip(idx))
        }),
    decreases ls.len() - idx,
{
    if idx < ls.len() {
        lemma_copy_rest(ls, ops, idx + 1, end);
        assert(ls.skip(idx).skip(1) =~= ls.skip(idx + 1));
        if idx + 1 >= ls.len() {
            assert(ls.skip(idx + 1) =~= Seq::<Seq<char>>::empty());
            assert(with_newlines(ls.skip(idx + 1)) =~= Seq::<char>::empty());
        }
    } else {
        assert(appended(ops, 1, ls.len() as int) =~= Seq::<char>::empty());
    }
}

/// One replacement of lines `start..=end` (with `start` inside the text)
/// keeps the lines before `start` and after `end`, each with its newline,
/// and puts the new content between them.
pub proof fn law_single_replacement_keeps_other_lines(text: Seq<char>, op: EditOperation)
    requires
        op.start() < lines(text).len(),
        op.start() <= op.end(),
    ensures
        edited(text, seq![op]) == with_newlines(lines(text).take(op.start())) + op.content()
            + with_newlines(lines_after(lines(text), op.end())),
{
    let ls = lines(text);
    let ops = seq![op];
    assert(by_start(ops) =~= ops) by {
        assert(ops.drop_last() =~= Seq::<EditOperation>::empty());
        assert(by_start(ops.drop_last()) =~= Seq::<EditOperation>::empty());
        assert(insert_by_start(Seq::<EditOperation>::empty(), op) =~= seq![op]);
    }
    lemma_copy_until(ls, ops, 0, op.start());
    assert(ls.subrange(0, op.start()) =~= ls.take(op.start()));
    lemma_skip_through(ls, ops, op.start() + 1, op.end());
    lemma_copy_rest(ls, ops, op.end() + 1, op.end());
    if op.end() + 1 >= ls.len() {
        assert(with_newlines(lines_after(ls, op.end())) =~= Seq::<char>::empty());
    }
}

} // verus!
