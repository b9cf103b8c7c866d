//! Query results and their rendering as a plain-text table.
use vstd::prelude::*;
use crate::text::{
    byte_len, byte_len_of, decimal, from_chars, push_decimal, push_repeat_wide, push_str, repeat,
    to_chars,
};

verus! {

/// Represents a query result
#[derive(Debug)]
pub struct QueryResult {
    /// Column names
    pub columns: Vec<String>,
    /// Rows of data
    pub rows: Vec<Vec<String>>,
    /// Number of rows affected or returned
    pub row_count: usize,
}

impl QueryResult {
    /// The column names as texts.
    pub open spec fn cols(&self) -> Seq<Seq<char>> {
        self.columns@.map_values(|c: String| c@)
    }

    /// The rows as sequences of cell texts.
    pub open spec fn cells(&self) -> Seq<Seq<Seq<char>>> {
        self.rows@.map_values(|r: Vec<String>| r@.map_values(|c: String| c@))
    }
}

/// The widest byte length among `w` and the cells of column `i` in `rows`
/// (rows shorter than `i + 1` do not count).
pub open spec fn widest(rows: Seq<Seq<Seq<char>>>, i: int, w: nat) -> nat
    decreases rows.len(),
{
    if rows.len() == 0 {
        w
    } else {
        let before = widest(rows.drop_last(), i, w);
        let r = rows.last();
        if i < r.len() && byte_len(r[i]) > before {
            byte_len(r[i])
        } else {
            before
        }
    }
}

/// Width of each column: the byte length (`str::len`) of its longest entry,
/// header included.
pub open spec fn column_widths(cols: Seq<Seq<char>>, rows: Seq<Seq<Seq<char>>>) -> Seq<nat> {
    Seq::new(cols.len(), |i: int| widest(rows, i, byte_len(cols[i])))
}

/// `format!("{:w$}", s)`: `s` padded with spaces up to `w` characters.
pub open spec fn pad(s: Seq<char>, w: nat) -> Seq<char> {
    if s.len() < w {
        s + repeat(' ', (w - s.len()) as nat)
    } else {
        s
    }
}

/// The cells of one line joined by `" | "`, each padded to its column's
/// width; cells beyond the known columns are written as they are.
pub open spec fn cells_line(cells: Seq<Seq<char>>, widths: Seq<nat>) -> Seq<char>
    decreases cells.len(),
{
    if cells.len() == 0 {
        seq![]
    } else {
        let i = cells.len() - 1;
        cells_line(cells.drop_last(), widths) + (if i > 0 {
            " | "@
        } else {
            seq![]
        }) + (if i < widths.len() {
            pad(cells.last(), widths[i])
        } else {
            cells.last()
        })
    }
}

/// The separator line: a run of `-` per column, joined by `"-+-"`.
pub open spec fn rule_line(widths: Seq<nat>) -> Seq<char>
    decreases widths.len(),
{
    if widths.len() == 0 {
        seq![]
    } else {
        rule_line(widths.drop_last()) + (if widths.len() > 1 {
            "-+-"@
        } else {
            seq![]
        }) + repeat('-', widths.last())
    }
}

/// Every row as a line of its own, each ended by a newline.
pub open spec fn body_lines(rows: Seq<Seq<Seq<char>>>, widths: Seq<nat>) -> Seq<char>
    decreases rows.len(),
{
    if rows.len() == 0 {
        seq![]
    } else {
        body_lines(rows.drop_last(), widths) + cells_line(rows.last(), widths) + "\n"@
    }
}

/// The whole table: header, separator, rows, and the row count.
pub open spec fn table_text(cols: Seq<Seq<char>>, rows: Seq<Seq<Seq<char>>>, row_count: nat) -> Seq<
    char,
> {
    if rows.len() == 0 {
        "No results found."@
    } else {
        let w = column_widths(cols, rows);
        cells_line(cols, w) + "\n"@ + rule_line(w) + "\n"@ + body_lines(rows, w) + "\n"@
            + decimal(row_count) + " row(s) returned"@
    }
}

/// Appends `s` padded to `w` characters.
fn push_padded(out: &mut Vec<char>, s: &str, w: u128)
    ensures
        final(out)@ == old(out)@ + pad(s@, w as nat),
{
    let v = to_chars(s);
    let ghost before = out@;
    push_str(out, s);
    let n = v.len() as u128;
    if n < w {
        push_repeat_wide(out, ' ', w - n);
        proof {
            assert(out@ =~= before + (s@ + repeat(' ', (w - s@.len()) as nat)));
        }
    }
}

/// Appends one line of cells (without its newline).
fn push_cells(out: &mut Vec<char>, cells: &Vec<String>, widths: &Vec<u128>)
    ensures
        final(out)@ == old(out)@ + cells_line(
            cells@.map_values(|c: String| c@),
            widths@.map_values(|w: u128| w as nat),
        ),
{
    let ghost cs = cells@.map_values(|c: String| c@);
    let ghost ws = widths@.map_values(|w: u128| w as nat);
    let ghost start = out@;
    let mut i: usize = 0;
    while i < cells.len()
        invariant
            i <= cells.len(),
            cs == cells@.map_values(|c: String| c@),
            ws == widths@.map_values(|w: u128| w as nat),
            out@ == start + cells_line(cs.take(i as int), ws),
        decreases cells.len() - i,
    {
        proof {
            assert(cs.take(i + 1).drop_last() =~= cs.take(i as int));
            assert(cs.take(i + 1).last() == cells@[i as int]@);
        }
        if i > 0 {
            push_str(out, " | ");
        }
        if i < widths.len() {
            push_padded(out, cells[i].as_str(), widths[i]);
        } else {
            push_str(out, cells[i].as_str());
        }
        i += 1;
        proof {
            assert(out@ =~= start + cells_line(cs.take(i as int), ws));
        }
    }
    proof {
        assert(cs.take(cells.len() as int) =~= cs);
    }
}

/// The widths of the columns of `result`.
fn compute_widths(result: &QueryResult) -> (w: Vec<u128>)
    ensures
        w@.map_values(|x: u128| x as nat) == column_widths(result.cols(), result.cells()),
{
    let ghost cols = result.cols();
    let ghost rows = result.cells();
    let mut w: Vec<u128> = Vec::new();
    let mut i: usize = 0;
    while i < result.columns.len()
        invariant
            i <= result.columns.len(),
            cols == result.cols(),
            rows == result.cells(),
            w.len() == i,
            forall|k: int| 0 <= k < i ==> (#[trigger] w@[k]) as nat == widest(rows, k, byte_len(cols[k])),
        decreases result.columns.len() - i,
    {
        let head = to_chars(result.columns[i].as_str());
        let mut m: u128 = byte_len_of(head.as_slice());
        let mut r: usize = 0;
        while r < result.rows.len()
            invariant
                i < result.columns.len(),
                r <= result.rows.len(),
                cols == result.cols(),
                rows == result.cells(),
                m == widest(rows.take(r as int), i as int, byte_len(cols[i as int])),
            decreases result.rows.len() - r,
        {
            proof {
                assert(rows.take(r + 1).drop_last() =~= rows.take(r as int));
                assert(rows.take(r + 1).last() == rows[r as int]);
            }
            let row = &result.rows[r];
            if i < row.len() {
                let cell = to_chars(row[i].as_str());
                let b = byte_len_of(cell.as_slice());
                if b > m {
                    m = b;
                }
            }
            r += 1;
        }
        proof {
            assert(rows.take(result.rows.len() as int) =~= rows);
        }
        w.push(m);
        i += 1;
    }
    proof {
        assert(w@.map_values(|x: u128| x as nat) =~= column_widths(cols, rows));
    }
    w
}

/// Format query results as a table string
pub fn format_results_as_table(result: &QueryResult) -> (s: String)
    ensures
        s@ == table_text(result.cols(), result.cells(), result.row_count as nat),
{
    if result.rows.len() == 0 {
        return crate::text::owned("No results found.");
    }
    let widths = compute_widths(result);
    let ghost ws = widths@.map_values(|x: u128| x as nat);
    let ghost cols = result.cols();
    let ghost rows = result.cells();
    let mut out: Vec<char> = Vec::new();
    push_cells(&mut out, &result.columns, &widths);
    push_str(&mut out, "\n");
    let ghost after_header = out@;
    let mut i: usize = 0;
    while i < widths.len()
        invariant
            i <= widths.len(),
            ws == widths@.map_values(|x: u128| x as nat),
            out@ == after_header + rule_line(ws.take(i as int)),
        decreases widths.len() - i,
    {
        proof {
            assert(ws.take(i + 1).drop_last() =~= ws.take(i as int));
        }
        if i > 0 {
            push_str(&mut out, "-+-");
        }
        push_repeat_wide(&mut out, '-', widths[i]);
        i += 1;
        proof {
            assert(out@ =~= after_header + rule_line(ws.take(i as int)));
        }
    }
    proof {
        assert(ws.take(widths.len() as int) =~= ws);
    }
    push_str(&mut out, "\n");
    let ghost after_rule = out@;
    let mut r: usize = 0;
    while r < result.rows.len()
        invariant
            r <= result.rows.len(),
            ws == widths@.map_values(|x: u128| x as nat),
            rows == result.cells(),
            out@ == after_rule + body_lines(rows.take(r as int), ws),
        decreases result.rows.len() - r,
    {
        proof {
            assert(rows.take(r + 1).drop_last() =~= rows.take(r as int));
            assert(rows.take(r + 1).last() == result.rows@[r as int]@.map_values(|c: String| c@));
        }
        push_cells(&mut out, &result.rows[r], &widths);
        push_str(&mut out, "\n");
        r += 1;
        proof {
            assert(out@ =~= after_rule + body_lines(rows.take(r as int), ws));
        }
    }
    proof {
        assert(rows.take(result.rows.len() as int) =~= rows);
    }
    push_str(&mut out, "\n");
    push_decimal(&mut out, result.row_count as u64);
    push_str(&mut out, " row(s) returned");
    proof {
        assert(out@ =~= table_text(cols, rows, result.row_count as nat));
    }
    from_chars(out.as_slice())
}

} // verus!
