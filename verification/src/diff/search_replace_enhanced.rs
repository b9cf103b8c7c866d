//! Search/replace that reports on every block: which tolerance matched it,
//! where, and how often, and a report of the whole edit. Similarity scores
//! for blocks that match nowhere are computed by the caller and handed in
//! as text.
use vstd::prelude::*;
use crate::diff::search_replace::{
    adjust_checked, apply_block_with, apply_fold_with, clone_line, copy_lines, find_matches,
    find_matches_spec, lemma_apply_fold_with_stuck, lemma_dv, lemma_find_matches_bounds, push_range,
    BlockView, EditResult, ErrorView, SearchReplaceBlock, SearchReplaceSyntaxError, ToleranceLevel,
    ToleranceMatch, parse_blocks_spec, parse_search_replace_blocks, result_view,
};
use crate::text::{
    contains, decimal, from_chars, join, join_lines, lines, nl, owned, push_decimal, push_str, split_lines,
    str_contains,
};
use crate::tools::initialize::{debug_of, debug_text};

verus! {

/// Diagnostic information for a search/replace block
#[derive(Debug, Clone)]
pub struct BlockDiagnostic {
    /// Block index (0-based)
    pub index: usize,
    /// Whether the block was successfully applied
    pub success: bool,
    /// Matches found for this block
    pub matches: Vec<ToleranceMatch>,
    /// Tolerance level used (if successful)
    pub tolerance_used: Option<ToleranceLevel>,
    /// Error message (if unsuccessful)
    pub error: Option<String>,
    /// Line range after replacement
    pub replacement_range: Option<(usize, usize)>,
    /// Similar content found (if no exact match)
    pub similar_content: Option<String>,
    /// How similar that content is, in percent with one decimal
    pub similarity_percent: Option<String>,
}

/// What the tolerance level of a diagnostic reads as ("Unknown" when none
/// is recorded).
pub open spec fn tolerance_text(t: Option<ToleranceLevel>) -> Seq<char> {
    match t {
        Some(l) => l.message_text(),
        None => "Unknown"@,
    }
}

/// The one-line summary of a diagnostic.
pub open spec fn summary_text(d: BlockDiagnostic) -> Seq<char> {
    let head = "Block #"@ + decimal((d.index + 1) as nat);
    if !d.success {
        head + ": Failed - "@ + match d.error {
            Some(e) => e@,
            None => "Unknown error"@,
        }
    } else if d.matches@.len() > 1 {
        head + ": Success with "@ + decimal(d.matches@.len()) + " matches (used first) - "@ + tolerance_text(
            d.tolerance_used,
        )
    } else {
        head + ": Success - "@ + tolerance_text(d.tolerance_used)
    }
}

fn push_tolerance(v: &mut Vec<char>, t: Option<ToleranceLevel>)
    ensures
        final(v)@ == old(v)@ + tolerance_text(t),
{
    match t {
        Some(l) => push_str(v, l.message()),
        None => push_str(v, "Unknown"),
    }
}

impl BlockDiagnostic {
    /// Check if a block has ambiguous matches
    pub fn has_ambiguous_matches(&self) -> (b: bool)
        ensures
            b == (self.matches@.len() > 1),
    {
        self.matches.len() > 1
    }

    /// Get a textual summary of this diagnostic
    pub fn get_summary(&self) -> (r: String)
        requires
            self.index < usize::MAX,
        ensures
            r@ == summary_text(*self),
    {
        let mut v: Vec<char> = Vec::new();
        push_str(&mut v, "Block #");
        push_decimal(&mut v, (self.index + 1) as u64);
        if !self.success {
            push_str(&mut v, ": Failed - ");
            match &self.error {
                Some(e) => push_str(&mut v, e.as_str()),
                None => push_str(&mut v, "Unknown error"),
            }
        } else if self.has_ambiguous_matches() {
            push_str(&mut v, ": Success with ");
            push_decimal(&mut v, self.matches.len() as u64);
            push_str(&mut v, " matches (used first) - ");
            push_tolerance(&mut v, self.tolerance_used);
        } else {
            push_str(&mut v, ": Success - ");
            push_tolerance(&mut v, self.tolerance_used);
        }
        from_chars(v.as_slice())
    }
}

/// `d` describes block `j` applied to the lines `ls`: a success with every
/// match found for its search lines, the first of which was used.
pub open spec fn applied_diagnostic(d: BlockDiagnostic, j: int, ls: Seq<Seq<char>>, search: Seq<Seq<char>>) -> bool {
    let ms = find_matches_spec(ls, search, 0);
    &&& d.index == j
    &&& d.success
    &&& d.matches@ == ms
    &&& ms.len() > 0
    &&& d.tolerance_used == Some(ms[0].level)
    &&& d.error is None
    &&& d.replacement_range == Some(ms[0].range)
    &&& d.similar_content is None
    &&& d.similarity_percent is None
}

/// The lines after the first `j` blocks were applied.
pub open spec fn lines_after(ls0: Seq<Seq<char>>, bs: Seq<BlockView>, j: nat, fix: bool) -> Seq<Seq<char>> {
    match apply_fold_with(ls0, bs, j, fix) {
        Some(Ok((ls, _))) => ls,
        _ => seq![],
    }
}

/// What `format!("{:?}", lines)` prints for a list of lines.
pub open spec fn debug_lines(ls: Seq<Seq<char>>) -> Seq<char> {
    "["@ + join(ls.map_values(|l: Seq<char>| debug_text(l)), ", "@) + "]"@
}

/// The error when block number `n` (from 1) with search lines `search`
/// matches nowhere.
pub open spec fn no_match_error(n: nat, search: Seq<Seq<char>>) -> Seq<char> {
    "Could not find a match for search block #"@ + decimal(n) + ": "@ + debug_lines(search)
}

/// Block number `idx` (from 0) applied alone to the text `c`: the new
/// text and its warnings, `Err` where it matches nowhere, `None` where
/// re-indenting would cut inside a character.
pub open spec fn single_outcome(c: Seq<char>, b: BlockView, idx: nat, fix: bool) -> Option<
    Result<(Seq<char>, Seq<Seq<char>>), ()>,
> {
    match apply_block_with(lines(c), seq![], b, idx, fix) {
        Some(Ok((ls, ws))) => Some(Ok((join(ls, nl()), ws))),
        Some(Err(_)) => Some(Err(())),
        None => None,
    }
}

/// After trying the first `k` blocks one at a time, each on the text the
/// ones before left: the text, the warnings, and whether any applied.
pub open spec fn individual_fold(c0: Seq<char>, bs: Seq<BlockView>, k: nat, fix: bool) -> Option<
    (Seq<char>, Seq<Seq<char>>, bool),
>
    decreases k,
{
    if k == 0 || k > bs.len() {
        Some((c0, seq![], false))
    } else {
        match individual_fold(c0, bs, (k - 1) as nat, fix) {
            Some((c, ws, ch)) => match single_outcome(c, bs[k - 1], (k - 1) as nat, fix) {
                Some(Ok((c2, w2))) => Some((c2, ws + w2, true)),
                Some(Err(_)) => Some((c, ws, ch)),
                None => None,
            },
            None => None,
        }
    }
}

/// The text block `j` is tried on.
pub open spec fn text_before(c0: Seq<char>, bs: Seq<BlockView>, j: nat, fix: bool) -> Seq<char> {
    match individual_fold(c0, bs, j, fix) {
        Some((c, _, _)) => c,
        None => seq![],
    }
}

/// Where each block that matched nowhere stands among the blocks, with the
/// text it was tried on, for the first `k` blocks.
pub open spec fn failures(c0: Seq<char>, bs: Seq<BlockView>, k: nat, fix: bool) -> Seq<(int, Seq<char>)>
    decreases k,
{
    if k == 0 {
        seq![]
    } else {
        let c = text_before(c0, bs, (k - 1) as nat, fix);
        failures(c0, bs, (k - 1) as nat, fix) + if single_outcome(c, bs[k - 1], (k - 1) as nat, fix) matches Some(
            Err(_),
        ) {
            seq![(k - 1, c)]
        } else {
            seq![]
        }
    }
}

/// `d` describes block `j`, with search lines `search`, that matched
/// nowhere; what is like it is left for the caller to add.
pub open spec fn failed_diagnostic(d: BlockDiagnostic, j: int, search: Seq<Seq<char>>) -> bool {
    &&& d.index == j
    &&& !d.success
    &&& d.matches@.len() == 0
    &&& d.tolerance_used is None
    &&& d.error matches Some(e) && e@ == no_match_error((j + 1) as nat, search)
    &&& d.replacement_range is None
    &&& d.similar_content is None
    &&& d.similarity_percent is None
}

/// `d` describes block `j` tried alone on the text the blocks before it
/// left.
pub open spec fn individual_diagnostic(d: BlockDiagnostic, j: int, c0: Seq<char>, bs: Seq<BlockView>, fix: bool) -> bool {
    let c = text_before(c0, bs, j as nat, fix);
    if single_outcome(c, bs[j], j as nat, fix) matches Some(Ok(_)) {
        applied_diagnostic(d, j, lines(c), bs[j].0)
    } else {
        failed_diagnostic(d, j, bs[j].0)
    }
}

proof fn lemma_individual_stuck(c0: Seq<char>, bs: Seq<BlockView>, k: nat, m: nat, fix: bool)
    requires
        k <= m <= bs.len(),
        individual_fold(c0, bs, k, fix) is None,
    ensures
        individual_fold(c0, bs, m, fix) is None,
    decreases m - k,
{
    if m > k {
        lemma_individual_stuck(c0, bs, k, (m - 1) as nat, fix);
    }
}

fn debug_line_list(ls: &Vec<String>) -> (r: String)
    ensures
        r@ == debug_lines(ls.deep_view()),
{
    let mut parts: Vec<String> = Vec::new();
    let mut i: usize = 0;
    while i < ls.len()
        invariant
            i <= ls.len(),
            parts.deep_view() =~= ls.deep_view().take(i as int).map_values(|l: Seq<char>| debug_text(l)),
        decreases ls.len() - i,
    {
        let d = debug_of(ls[i].as_str());
        let ghost prev = parts.deep_view();
        parts.push(d);
        proof {
            assert(parts.deep_view() =~= prev.push(d@));
            assert(ls.deep_view().take(i + 1) =~= ls.deep_view().take(i as int).push(ls[i as int]@));
        }
        i += 1;
    }
    proof {
        assert(ls.deep_view().take(ls.len() as int) =~= ls.deep_view());
    }
    let sep = crate::text::to_chars(", ");
    let joined = crate::text::join_strings(parts.as_slice(), sep.as_slice());
    let mut v: Vec<char> = Vec::new();
    push_str(&mut v, "[");
    crate::text::push_chars(&mut v, joined.as_slice());
    push_str(&mut v, "]");
    proof {
        lemma_dv(parts);
    }
    from_chars(v.as_slice())
}

fn no_match_text(n: usize, search: &Vec<String>) -> (r: String)
    ensures
        r@ == no_match_error(n as nat, search.deep_view()),
{
    let mut v: Vec<char> = Vec::new();
    push_str(&mut v, "Could not find a match for search block #");
    push_decimal(&mut v, n as u64);
    push_str(&mut v, ": ");
    let d = debug_line_list(search);
    push_str(&mut v, d.as_str());
    from_chars(v.as_slice())
}

fn copy_matches(ms: &Vec<ToleranceMatch>) -> (r: Vec<ToleranceMatch>)
    ensures
        r@ == ms@,
{
    let mut r: Vec<ToleranceMatch> = Vec::new();
    let mut i: usize = 0;
    while i < ms.len()
        invariant
            i <= ms.len(),
            r@ == ms@.take(i as int),
        decreases ms.len() - i,
    {
        r.push(ms[i]);
        proof {
            assert(ms@.take(i + 1) =~= ms@.take(i as int).push(ms@[i as int]));
        }
        i += 1;
    }
    proof {
        assert(ms@.take(ms.len() as int) =~= ms@);
    }
    r
}

/// Enhanced result with detailed diagnostic information
#[derive(Debug, Clone)]
pub struct EnhancedEditResult {
    /// Standard edit result
    pub standard_result: EditResult,
    /// Detailed diagnostics for each block
    pub diagnostics: Vec<BlockDiagnostic>,
    /// Whether blocks were applied individually when batch failed
    pub applied_individually: bool,
    /// Suggestions for fixing failed blocks
    pub suggestions: Vec<String>,
}

/// The lines of a block's section that name it and its status.
pub open spec fn section_head(d: BlockDiagnostic) -> Seq<char> {
    "### Block #"@ + decimal((d.index + 1) as nat) + "\n\n"@ + "- **Status**: "@ + (if d.success {
        "Success"@
    } else {
        "Failed"@
    }) + "\n"@
}

/// The lines of a block's section on how it matched.
pub open spec fn section_match(d: BlockDiagnostic) -> Seq<char> {
    (match d.tolerance_used {
        Some(t) => "- **Tolerance**: "@ + t.message_text() + "\n"@,
        None => seq![],
    }) + (if d.matches@.len() > 1 {
        "- **Ambiguity**: "@ + decimal(d.matches@.len()) + " matches found (used first)\n"@
    } else {
        seq![]
    }) + (match d.replacement_range {
        Some((a, b)) => "- **Replaced Lines**: "@ + decimal((a + 1) as nat) + "-"@ + decimal((b + 1) as nat) + "\n"@,
        None => seq![],
    })
}

/// The lines of a block's section on why it failed and what is like it.
pub open spec fn section_failure(d: BlockDiagnostic) -> Seq<char> {
    (match d.error {
        Some(e) => "- **Error**: "@ + e@ + "\n"@,
        None => seq![],
    }) + (match d.similarity_percent {
        Some(p) => "- **Similarity**: "@ + p@ + "%\n"@,
        None => seq![],
    }) + (match d.similar_content {
        Some(c) => "\n**Similar Content Found**:\n"@ + "```\n"@ + c@ + "\n```\n"@,
        None => seq![],
    })
}

/// A report's section on one block.
pub open spec fn diagnostic_section(d: BlockDiagnostic) -> Seq<char> {
    section_head(d) + section_match(d) + section_failure(d) + "\n"@
}

/// The sections of the diagnostics `ds`, in order.
pub open spec fn diagnostic_sections(ds: Seq<BlockDiagnostic>) -> Seq<char>
    decreases ds.len(),
{
    if ds.len() == 0 {
        seq![]
    } else {
        diagnostic_sections(ds.drop_last()) + diagnostic_section(ds.last())
    }
}

/// Each item on a line of its own after "- ".
pub open spec fn bullets(items: Seq<Seq<char>>) -> Seq<char>
    decreases items.len(),
{
    if items.len() == 0 {
        seq![]
    } else {
        bullets(items.drop_last()) + "- "@ + items.last() + "\n"@
    }
}

/// The report on an edit.
pub open spec fn report_text(r: EnhancedEditResult) -> Seq<char> {
    let ws = r.standard_result.warnings.deep_view();
    let ss = r.suggestions.deep_view();
    report_overview(r) + "## Block Diagnostics\n\n"@ + diagnostic_sections(r.diagnostics@) + (if ss.len() > 0 {
        "## Suggestions\n\n"@ + bullets(ss) + "\n"@
    } else {
        seq![]
    }) + (if ws.len() > 0 {
        "## Warnings\n\n"@ + bullets(ws) + "\n"@
    } else {
        seq![]
    })
}

/// Whether every line number a diagnostic prints can be counted from 1.
pub open spec fn report_fits(d: BlockDiagnostic) -> bool {
    &&& d.index < usize::MAX
    &&& d.replacement_range matches Some((a, b)) ==> a < usize::MAX && b < usize::MAX
}

fn push_section_head(v: &mut Vec<char>, d: &BlockDiagnostic)
    requires
        d.index < usize::MAX,
    ensures
        final(v)@ == old(v)@ + section_head(*d),
{
    let ghost start = v@;
    push_str(v, "### Block #");
    push_decimal(v, (d.index + 1) as u64);
    push_str(v, "\n\n");
    push_str(v, "- **Status**: ");
    if d.success {
        push_str(v, "Success");
    } else {
        push_str(v, "Failed");
    }
    push_str(v, "\n");
    proof {
        assert(v@ =~= start + section_head(*d));
    }
}

#[verifier::rlimit(40)]
fn push_section_match(v: &mut Vec<char>, d: &BlockDiagnostic)
    requires
        report_fits(*d),
    ensures
        final(v)@ == old(v)@ + section_match(*d),
{
    let ghost start = v@;
    let ghost p1 = match d.tolerance_used {
        Some(t) => "- **Tolerance**: "@ + t.message_text() + "\n"@,
        None => Seq::<char>::empty(),
    };
    let ghost p2 = if d.matches@.len() > 1 {
        "- **Ambiguity**: "@ + decimal(d.matches@.len()) + " matches found (used first)\n"@
    } else {
        Seq::<char>::empty()
    };
    let ghost p3 = match d.replacement_range {
        Some((a, b)) => "- **Replaced Lines**: "@ + decimal((a + 1) as nat) + "-"@ + decimal((b + 1) as nat) + "\n"@,
        None => Seq::<char>::empty(),
    };
    match d.tolerance_used {
        Some(t) => {
            push_str(v, "- **Tolerance**: ");
            push_str(v, t.message());
            push_str(v, "\n");
        },
        None => {},
    }
    assert(v@ =~= start + p1);
    if d.matches.len() > 1 {
        push_str(v, "- **Ambiguity**: ");
        push_decimal(v, d.matches.len() as u64);
        push_str(v, " matches found (used first)\n");
    }
    assert(v@ =~= start + p1 + p2);
    match d.replacement_range {
        Some((a, b)) => {
            push_str(v, "- **Replaced Lines**: ");
            push_decimal(v, (a + 1) as u64);
            push_str(v, "-");
            push_decimal(v, (b + 1) as u64);
            push_str(v, "\n");
        },
        None => {},
    }
    assert(v@ =~= start + p1 + p2 + p3);
    assert(section_match(*d) == p1 + p2 + p3);
}

fn push_section_failure(v: &mut Vec<char>, d: &BlockDiagnostic)
    ensures
        final(v)@ == old(v)@ + section_failure(*d),
{
    let ghost start = v@;
    match &d.error {
        Some(e) => {
            push_str(v, "- **Error**: ");
            push_str(v, e.as_str());
            push_str(v, "\n");
        },
        None => {},
    }
    match &d.similarity_percent {
        Some(p) => {
            push_str(v, "- **Similarity**: ");
            push_str(v, p.as_str());
            push_str(v, "%\n");
        },
        None => {},
    }
    match &d.similar_content {
        Some(c) => {
            push_str(v, "\n**Similar Content Found**:\n");
            push_str(v, "```\n");
            push_str(v, c.as_str());
            push_str(v, "\n```\n");
        },
        None => {},
    }
    proof {
        assert(v@ =~= start + section_failure(*d));
    }
}

fn push_section(v: &mut Vec<char>, d: &BlockDiagnostic)
    requires
        report_fits(*d),
    ensures
        final(v)@ == old(v)@ + diagnostic_section(*d),
{
    let ghost start = v@;
    push_section_head(v, d);
    push_section_match(v, d);
    push_section_failure(v, d);
    push_str(v, "\n");
    proof {
        assert(v@ =~= start + diagnostic_section(*d));
    }
}

/// The opening of a report, down to the blank line before the block
/// diagnostics.
pub open spec fn report_overview(r: EnhancedEditResult) -> Seq<char> {
    let ws = r.standard_result.warnings.deep_view();
    "# Search/Replace Operation Report\n\n"@ + "## Overview\n\n"@ + "- **Status**: "@ + (if r.standard_result.changes_made {
        "Changes Applied"@
    } else {
        "No Changes Made"@
    }) + "\n"@ + "- **Applied Individually**: "@ + (if r.applied_individually {
        "Yes (batch application failed)"@
    } else {
        "No (batch application succeeded)"@
    }) + "\n"@ + (if ws.len() > 0 {
        "- **Warnings**: "@ + decimal(ws.len()) + "\n"@
    } else {
        seq![]
    }) + "\n"@
}

fn push_overview(v: &mut Vec<char>, result: &EnhancedEditResult)
    ensures
        final(v)@ == old(v)@ + report_overview(*result),
{
    let ghost start = v@;
    push_str(v, "# Search/Replace Operation Report\n\n");
    push_str(v, "## Overview\n\n");
    push_str(v, "- **Status**: ");
    if result.standard_result.changes_made {
        push_str(v, "Changes Applied");
    } else {
        push_str(v, "No Changes Made");
    }
    push_str(v, "\n");
    push_str(v, "- **Applied Individually**: ");
    if result.applied_individually {
        push_str(v, "Yes (batch application failed)");
    } else {
        push_str(v, "No (batch application succeeded)");
    }
    push_str(v, "\n");
    let ghost p1 = "# Search/Replace Operation Report\n\n"@ + "## Overview\n\n"@ + "- **Status**: "@ + (
    if result.standard_result.changes_made {
        "Changes Applied"@
    } else {
        "No Changes Made"@
    }) + "\n"@ + "- **Applied Individually**: "@ + (if result.applied_individually {
        "Yes (batch application failed)"@
    } else {
        "No (batch application succeeded)"@
    }) + "\n"@;
    assert(v@ =~= start + p1);
    let ghost ws = result.standard_result.warnings.deep_view();
    let ghost p2 = if ws.len() > 0 {
        "- **Warnings**: "@ + decimal(ws.len()) + "\n"@
    } else {
        Seq::<char>::empty()
    };
    let nw = result.standard_result.warnings.len();
    assert(ws.len() == nw);
    if nw > 0 {
        push_str(v, "- **Warnings**: ");
        push_decimal(v, nw as u64);
        push_str(v, "\n");
    }
    assert(v@ =~= start + p1 + p2);
    push_str(v, "\n");
    assert(v@ =~= start + p1 + p2 + "\n"@);
    assert(report_overview(*result) == p1 + p2 + "\n"@);
}

fn push_bullets(v: &mut Vec<char>, items: &Vec<String>)
    ensures
        final(v)@ == old(v)@ + bullets(items.deep_view()),
{
    let ghost start = v@;
    let mut i: usize = 0;
    while i < items.len()
        invariant
            i <= items.len(),
            v@ == start + bullets(items.deep_view().take(i as int)),
        decreases items.len() - i,
    {
        push_str(v, "- ");
        push_str(v, items[i].as_str());
        push_str(v, "\n");
        proof {
            let t = items.deep_view().take(i + 1);
            assert(t.drop_last() =~= items.deep_view().take(i as int));
            assert(t.last() == items[i as int]@);
            assert(v@ =~= start + bullets(t));
        }
        i += 1;
    }
    proof {
        assert(items.deep_view().take(items.len() as int) =~= items.deep_view());
    }
}

/// Where `apply_search_replace` can work: no block, in the batch or on its
/// own where the batch fails, would re-indent by cutting inside a
/// character.
pub open spec fn enhanced_defined(e: EnhancedSearchReplace, content: Seq<char>, bv: Seq<BlockView>) -> bool {
    let batch = apply_fold_with(lines(content), bv, bv.len(), e.fix_indentation);
    &&& batch is Some
    &&& (e.enable_individual_fallback && batch->0 is Err) ==> individual_fold(content, bv, bv.len(), e.fix_indentation) is Some
}

/// `r` is what applying blocks whose views are `bv` to `content` with
/// diagnostics answers: the batch's result where every block matched;
/// else, with the individual fallback on, the blocks applied one at a time
/// (with the blocks that matched nowhere and the text each was tried on),
/// and an error naming both failures where none applied; with it off, the
/// batch's error.
pub open spec fn enhanced_answer(
    e: EnhancedSearchReplace,
    content: Seq<char>,
    bv: Seq<BlockView>,
    r: Result<(EnhancedEditResult, Vec<(usize, String)>), String>,
) -> bool {
    let fix = e.fix_indentation;
    let ls0 = lines(content);
    match apply_fold_with(ls0, bv, bv.len(), fix) {
        Some(Ok((ls, ws))) => r matches Ok((res, failed)) && res.standard_result.content@ == join(ls, nl())
            && res.standard_result.warnings.deep_view() == ws && res.standard_result.changes_made == (bv.len() > 0)
            && !res.applied_individually && res.suggestions@.len() == 0 && failed@.len() == 0
            && res.diagnostics@.len() == bv.len() && forall|j: int| 0 <= j < bv.len() ==> applied_diagnostic(
            #[trigger] res.diagnostics@[j],
            j,
            lines_after(ls0, bv, j as nat, fix),
            bv[j].0,
        ),
        Some(Err(n)) => if !e.enable_individual_fallback {
            r matches Err(m) && m@ == "Failed to apply search/replace blocks: "@ + no_match_error(n, bv[n - 1].0)
        } else {
            match individual_fold(content, bv, bv.len(), fix) {
                Some((c, ws, true)) => r matches Ok((res, failed)) && res.standard_result.content@ == c
                    && res.standard_result.warnings.deep_view() == ws && res.standard_result.changes_made
                    && res.applied_individually && res.suggestions@.len() == 0
                    && res.diagnostics@.len() == bv.len() && (forall|j: int| 0 <= j < bv.len() ==> individual_diagnostic(
                    #[trigger] res.diagnostics@[j],
                    j,
                    content,
                    bv,
                    fix,
                )) && failed@.map_values(|f: (usize, String)| (f.0 as int, f.1@)) == failures(content, bv, bv.len(), fix),
                Some((_, _, false)) => r matches Err(m) && m@ == "Failed to apply search/replace blocks. Batch error: "@
                    + no_match_error(n, bv[n - 1].0) + ". Individual error: "@ + "Failed to apply any search/replace blocks"@,
                None => false,
            }
        },
        None => false,
    }
}

/// What a parse error reads as: a hint on the two formats where no block
/// was found, else the error itself.
pub open spec fn parse_failure_text(e: ErrorView) -> Seq<char> {
    let shown = match e.1 {
        Some(n) => "Syntax error at line "@ + decimal(n) + ": "@ + e.0,
        None => "Syntax error: "@ + e.0,
    };
    if contains(shown, "No valid search/replace blocks"@) {
        no_blocks_hint()
    } else {
        shown
    }
}

/// The hint when a text holds no block.
pub open spec fn no_blocks_hint() -> Seq<char> {
    "Failed to parse search/replace blocks: No valid blocks found. Use either <<<<<<< SEARCH/=======/>>>>>>> REPLACE format or search:/replace: prefix format."@
}

/// Enhanced search/replace engine with better error handling and diagnostics
#[derive(Debug, Clone)]
pub struct EnhancedSearchReplace {
    /// Maximum number of attempts for individual blocks
    pub max_individual_attempts: usize,
    /// Whether to attempt individual application when batch fails
    pub enable_individual_fallback: bool,
    /// Whether to attempt fixing indentation in blocks
    pub fix_indentation: bool,
    /// Context lines to include in diagnostics
    pub diagnostic_context_lines: usize,
}

impl EnhancedSearchReplace {
    /// Create a new enhanced search/replace engine
    pub fn new() -> (r: Self)
        ensures
            r.max_individual_attempts == 3,
            r.enable_individual_fallback,
            r.fix_indentation,
            r.diagnostic_context_lines == 3,
    {
        EnhancedSearchReplace {
            max_individual_attempts: 3,
            enable_individual_fallback: true,
            fix_indentation: true,
            diagnostic_context_lines: 3,
        }
    }

    /// Set whether to enable individual block fallback
    pub fn with_individual_fallback(self, enable: bool) -> (r: Self)
        ensures
            r == (EnhancedSearchReplace { enable_individual_fallback: enable, ..self }),
    {
        EnhancedSearchReplace { enable_individual_fallback: enable, ..self }
    }

    /// Set whether to attempt fixing indentation
    pub fn with_indentation_fixing(self, enable: bool) -> (r: Self)
        ensures
            r == (EnhancedSearchReplace { fix_indentation: enable, ..self }),
    {
        EnhancedSearchReplace { fix_indentation: enable, ..self }
    }

    /// Set the number of context lines for diagnostics
    pub fn with_diagnostic_context_lines(self, lines: usize) -> (r: Self)
        ensures
            r == (EnhancedSearchReplace { diagnostic_context_lines: lines, ..self }),
    {
        EnhancedSearchReplace { diagnostic_context_lines: lines, ..self }
    }

    /// One block applied to `ls`, its warnings added to `warnings`: the new
    /// lines and the block's diagnostic, `Err` where it matches nowhere,
    /// `None` where re-indenting would cut inside a character.
    fn apply_step(
        &self,
        ls: &Vec<String>,
        warnings: &mut Vec<String>,
        block: &SearchReplaceBlock,
        idx: usize,
    ) -> (r: Option<Result<(Vec<String>, BlockDiagnostic), ()>>)
        requires
            idx < usize::MAX,
        ensures
            match apply_block_with(ls.deep_view(), old(warnings).deep_view(), block@, idx as nat, self.fix_indentation) {
                Some(Ok((nls, nws))) => r matches Some(Ok((v, d))) && v.deep_view() == nls
                    && final(warnings).deep_view() == nws && applied_diagnostic(d, idx as int, ls.deep_view(), block@.0),
                Some(Err(_)) => r matches Some(Err(())),
                None => r is None,
            },
    {
        proof {
            lemma_dv(*ls);
            lemma_dv(block.search_lines);
            lemma_dv(block.replace_lines);
        }
        let matches = find_matches(ls.as_slice(), block.search_lines.as_slice(), 0);
        let n = ls.len();
        proof {
            assert(ls.deep_view().len() == n);
            lemma_find_matches_bounds(ls.deep_view(), block@.0, 0);
        }
        if matches.len() == 0 {
            return Some(Err(()));
        }
        let best = matches[0];
        proof {
            assert(matches@[0] == best);
        }
        match best.warning_message() {
            Some(w) => {
                let ghost prev = warnings.deep_view();
                warnings.push(w);
                proof {
                    assert(warnings.deep_view() =~= prev.push(w@));
                }
            },
            None => {},
        }
        if matches.len() > 1 {
            let mut v: Vec<char> = Vec::new();
            push_str(&mut v, "Warning: Search block #");
            push_decimal(&mut v, (idx + 1) as u64);
            push_str(&mut v, " matches multiple parts of the file. Using the first match.");
            let w = from_chars(v.as_slice());
            let ghost prev = warnings.deep_view();
            warnings.push(w);
            proof {
                assert(warnings.deep_view() =~= prev.push(w@));
            }
        }
        let (start, end) = best.range;
        let ghost lv = ls.deep_view();
        let replace_lines: Vec<String> = if self.fix_indentation && best.level
            == ToleranceLevel::IgnoreLeadingWhitespace {
            let mut orig: Vec<String> = Vec::new();
            push_range(&mut orig, ls, start, end + 1);
            proof {
                assert(orig.deep_view() =~= lv.subrange(start as int, end + 1));
                lemma_dv(orig);
            }
            match adjust_checked(orig.as_slice(), block.search_lines.as_slice(), block.replace_lines.as_slice()) {
                Some(v) => v,
                None => {
                    return None;
                },
            }
        } else {
            copy_lines(block.replace_lines.as_slice())
        };
        let mut next: Vec<String> = Vec::new();
        proof {
            assert(next.deep_view() =~= Seq::<Seq<char>>::empty());
        }
        push_range(&mut next, ls, 0, start);
        let ghost mid = next.deep_view();
        let mut j: usize = 0;
        while j < replace_lines.len()
            invariant
                j <= replace_lines.len(),
                next.deep_view() =~= mid + replace_lines.deep_view().take(j as int),
            decreases replace_lines.len() - j,
        {
            let c = clone_line(&replace_lines[j]);
            let ghost prev = next.deep_view();
            next.push(c);
            proof {
                assert(next.deep_view() =~= prev.push(c@));
                assert(replace_lines.deep_view().take(j + 1) =~= replace_lines.deep_view().take(j as int).push(
                    c@,
                ));
            }
            j += 1;
        }
        proof {
            assert(replace_lines.deep_view().take(replace_lines.len() as int) =~= replace_lines.deep_view());
        }
        push_range(&mut next, ls, end + 1, ls.len());
        proof {
            assert(lv.take(start as int) =~= lv.subrange(0, start as int));
            assert(lv.skip(end + 1) =~= lv.subrange(end + 1, lv.len() as int));
            assert(next.deep_view() =~= lv.take(start as int) + replace_lines.deep_view() + lv.skip(end + 1));
        }
        let diagnostic = BlockDiagnostic {
            index: idx,
            success: true,
            matches: copy_matches(&matches),
            tolerance_used: Some(best.level),
            error: None,
            replacement_range: Some((start, end)),
            similar_content: None,
            similarity_percent: None,
        };
        Some(Ok((next, diagnostic)))
    }

    /// Apply a single block, number `idx` (from 0), to `content`.
    pub fn apply_single_block(&self, content: &str, block: &SearchReplaceBlock, idx: usize) -> (r: Result<
        (EditResult, BlockDiagnostic),
        String,
    >)
        requires
            idx < usize::MAX,
            apply_block_with(lines(content@), seq![], block@, idx as nat, self.fix_indentation) is Some,
        ensures
            match apply_block_with(lines(content@), seq![], block@, idx as nat, self.fix_indentation) {
                Some(Ok((ls, ws))) => r matches Ok((res, d)) && res.content@ == join(ls, nl())
                    && res.warnings.deep_view() == ws && res.changes_made && applied_diagnostic(
                    d,
                    idx as int,
                    lines(content@),
                    block@.0,
                ),
                Some(Err(_)) => r matches Err(m) && m@ == no_match_error((idx + 1) as nat, block@.0),
                None => false,
            },
    {
        match self.single_checked(content, block, idx) {
            Some(r) => r,
            None => Err(String::new()),
        }
    }

    /// What `apply_single_block` gives, or `None` where re-indenting would
    /// cut inside a character.
    fn single_checked(&self, content: &str, block: &SearchReplaceBlock, idx: usize) -> (r: Option<Result<
        (EditResult, BlockDiagnostic),
        String,
    >>)
        requires
            idx < usize::MAX,
        ensures
            match apply_block_with(lines(content@), seq![], block@, idx as nat, self.fix_indentation) {
                Some(Ok((ls, ws))) => r matches Some(Ok((res, d))) && res.content@ == join(ls, nl())
                    && res.warnings.deep_view() == ws && res.changes_made && applied_diagnostic(
                    d,
                    idx as int,
                    lines(content@),
                    block@.0,
                ),
                Some(Err(_)) => r matches Some(Err(m)) && m@ == no_match_error((idx + 1) as nat, block@.0),
                None => r is None,
            },
    {
        let content_lines = split_lines(content);
        let mut warnings: Vec<String> = Vec::new();
        proof {
            assert(warnings.deep_view() =~= Seq::<Seq<char>>::empty());
        }
        match self.apply_step(&content_lines, &mut warnings, block, idx) {
            Some(Ok((next, d))) => {
                let joined = join_lines(next.as_slice());
                proof {
                    lemma_dv(next);
                }
                Some(Ok((EditResult { content: joined, warnings, changes_made: true }, d)))
            },
            Some(Err(())) => {
                proof {
                    lemma_dv(block.search_lines);
                }
                let search = copy_lines(block.search_lines.as_slice());
                proof {
                    lemma_dv(search);
                }
                Some(Err(no_match_text(idx + 1, &search)))
            },
            None => None,
        }
    }

    /// Apply blocks one at a time, each on the text the ones before left,
    /// going on past a block that matches nowhere. Besides the result and a
    /// diagnostic per block, it lists where each block that matched nowhere
    /// stands with the text it was tried on, so that what is like it can be
    /// found. It fails where no block applied.
    pub fn apply_individually(&self, content: &str, blocks: &[SearchReplaceBlock]) -> (r: Result<
        (EditResult, Vec<BlockDiagnostic>, Vec<(usize, String)>),
        String,
    >)
        requires
            individual_fold(content@, blocks@.map_values(|b: SearchReplaceBlock| b@), blocks@.len(), self.fix_indentation) is Some,
        ensures
            ({
                let bv = blocks@.map_values(|b: SearchReplaceBlock| b@);
                let fix = self.fix_indentation;
                match individual_fold(content@, bv, bv.len(), fix) {
                    Some((c, ws, true)) => r matches Ok((res, diags, failed)) && res.content@ == c
                        && res.warnings.deep_view() == ws && res.changes_made && diags@.len() == bv.len()
                        && (forall|j: int| 0 <= j < bv.len() ==> individual_diagnostic(#[trigger] diags@[j], j, content@, bv, fix))
                        && failed@.map_values(|f: (usize, String)| (f.0 as int, f.1@)) == failures(content@, bv, bv.len(), fix),
                    Some((_, _, false)) => r matches Err(m) && m@ == "Failed to apply any search/replace blocks"@,
                    None => false,
                }
            }),
    {
        match self.individual_checked(content, blocks) {
            Some(r) => r,
            None => Err(String::new()),
        }
    }

    /// What `apply_individually` gives, or `None` where re-indenting would
    /// cut inside a character.
    fn individual_checked(&self, content: &str, blocks: &[SearchReplaceBlock]) -> (r: Option<Result<
        (EditResult, Vec<BlockDiagnostic>, Vec<(usize, String)>),
        String,
    >>)
        ensures
            ({
                let bv = blocks@.map_values(|b: SearchReplaceBlock| b@);
                let fix = self.fix_indentation;
                match individual_fold(content@, bv, bv.len(), fix) {
                    Some((c, ws, true)) => r matches Some(Ok((res, diags, failed))) && res.content@ == c
                        && res.warnings.deep_view() == ws && res.changes_made && diags@.len() == bv.len()
                        && (forall|j: int| 0 <= j < bv.len() ==> individual_diagnostic(#[trigger] diags@[j], j, content@, bv, fix))
                        && failed@.map_values(|f: (usize, String)| (f.0 as int, f.1@)) == failures(content@, bv, bv.len(), fix),
                    Some((_, _, false)) => r matches Some(Err(m)) && m@ == "Failed to apply any search/replace blocks"@,
                    None => r is None,
                }
            }),
    {
        let ghost bv = blocks@.map_values(|b: SearchReplaceBlock| b@);
        let ghost c0 = content@;
        let ghost fix = self.fix_indentation;
        let mut current = crate::text::owned(content);
        let mut warnings: Vec<String> = Vec::new();
        let mut changed = false;
        let mut diagnostics: Vec<BlockDiagnostic> = Vec::new();
        let mut failed: Vec<(usize, String)> = Vec::new();
        proof {
            assert(warnings.deep_view() =~= Seq::<Seq<char>>::empty());
            assert(failed@.map_values(|f: (usize, String)| (f.0 as int, f.1@)) =~= Seq::<(int, Seq<char>)>::empty());
        }
        let mut idx: usize = 0;
        while idx < blocks.len()
            invariant
                idx <= blocks.len(),
                bv == blocks@.map_values(|b: SearchReplaceBlock| b@),
                bv.len() == blocks.len(),
                c0 == content@,
                fix == self.fix_indentation,
                individual_fold(c0, bv, idx as nat, fix) == Some((current@, warnings.deep_view(), changed)),
                diagnostics@.len() == idx,
                forall|j: int| 0 <= j < idx ==> individual_diagnostic(#[trigger] diagnostics@[j], j, c0, bv, fix),
                failed@.map_values(|f: (usize, String)| (f.0 as int, f.1@)) == failures(c0, bv, idx as nat, fix),
            decreases blocks.len() - idx,
        {
            let block = &blocks[idx];
            proof {
                assert(bv[idx as int] == block@);
                assert(text_before(c0, bv, idx as nat, fix) == current@);
            }
            let ghost fv = failed@.map_values(|f: (usize, String)| (f.0 as int, f.1@));
            let step = match self.single_checked(current.as_str(), block, idx) {
                Some(x) => x,
                None => {
                    proof {
                        assert(individual_fold(c0, bv, (idx + 1) as nat, fix) is None);
                        lemma_individual_stuck(c0, bv, (idx + 1) as nat, bv.len(), fix);
                    }
                    return None;
                },
            };
            match step {
                Ok((res, d)) => {
                    let ghost wprev = warnings.deep_view();
                    let mut k: usize = 0;
                    while k < res.warnings.len()
                        invariant
                            k <= res.warnings.len(),
                            warnings.deep_view() =~= wprev + res.warnings.deep_view().take(k as int),
                        decreases res.warnings.len() - k,
                    {
                        let w = clone_line(&res.warnings[k]);
                        let ghost p = warnings.deep_view();
                        warnings.push(w);
                        proof {
                            assert(warnings.deep_view() =~= p.push(w@));
                            assert(res.warnings.deep_view().take(k + 1) =~= res.warnings.deep_view().take(k as int).push(w@));
                        }
                        k += 1;
                    }
                    proof {
                        assert(res.warnings.deep_view().take(res.warnings.len() as int) =~= res.warnings.deep_view());
                    }
                    current = res.content;
                    changed = true;
                    diagnostics.push(d);
                    proof {
                        assert(failures(c0, bv, (idx + 1) as nat, fix) =~= fv);
                    }
                },
                Err(e) => {
                    let ghost before = current@;
                    let d = BlockDiagnostic {
                        index: idx,
                        success: false,
                        matches: Vec::new(),
                        tolerance_used: None,
                        error: Some(e),
                        replacement_range: None,
                        similar_content: None,
                        similarity_percent: None,
                    };
                    diagnostics.push(d);
                    let text = crate::text::owned(current.as_str());
                    failed.push((idx, text));
                    proof {
                        assert(failed@.map_values(|f: (usize, String)| (f.0 as int, f.1@)) =~= fv.push((idx as int, before)));
                        assert(failures(c0, bv, (idx + 1) as nat, fix) =~= fv + seq![(idx as int, before)]);
                    }
                },
            }
            proof {
                assert forall|j: int| 0 <= j < idx + 1 implies individual_diagnostic(#[trigger] diagnostics@[j], j, c0, bv, fix) by {
                    if j < idx {
                    }
                }
            }
            idx += 1;
        }
        if !changed {
            return Some(Err(crate::text::owned("Failed to apply any search/replace blocks")));
        }
        Some(Ok((EditResult { content: current, warnings, changes_made: true }, diagnostics, failed)))
    }

    /// Apply search/replace blocks with enhanced error handling and
    /// diagnostics: all blocks in one batch; where one of them matches
    /// nowhere and the individual fallback is on, each block on its own.
    /// Besides the result, it lists the blocks that matched nowhere with the
    /// text each was tried on (none after a batch), so that similar content
    /// and suggestions can be added to their diagnostics.
    pub fn apply_search_replace(&self, content: &str, blocks: &[SearchReplaceBlock]) -> (r: Result<
        (EnhancedEditResult, Vec<(usize, String)>),
        String,
    >)
        requires
            enhanced_defined(*self, content@, blocks@.map_values(|b: SearchReplaceBlock| b@)),
        ensures
            enhanced_answer(*self, content@, blocks@.map_values(|b: SearchReplaceBlock| b@), r),
    {
        match self.apply_batch(content, blocks) {
            Ok((result, diagnostics)) => Ok((
                EnhancedEditResult {
                    standard_result: result,
                    diagnostics,
                    applied_individually: false,
                    suggestions: Vec::new(),
                },
                Vec::new(),
            )),
            Err(batch_error) => {
                if self.enable_individual_fallback {
                    match self.apply_individually(content, blocks) {
                        Ok((result, diagnostics, failed)) => Ok((
                            EnhancedEditResult {
                                standard_result: result,
                                diagnostics,
                                applied_individually: true,
                                suggestions: Vec::new(),
                            },
                            failed,
                        )),
                        Err(individual_error) => {
                            let mut v: Vec<char> = Vec::new();
                            push_str(&mut v, "Failed to apply search/replace blocks. Batch error: ");
                            push_str(&mut v, batch_error.as_str());
                            push_str(&mut v, ". Individual error: ");
                            push_str(&mut v, individual_error.as_str());
                            Err(from_chars(v.as_slice()))
                        },
                    }
                } else {
                    let mut v: Vec<char> = Vec::new();
                    push_str(&mut v, "Failed to apply search/replace blocks: ");
                    push_str(&mut v, batch_error.as_str());
                    Err(from_chars(v.as_slice()))
                }
            },
        }
    }

    /// Apply search/replace blocks from text: the blocks parsed and then
    /// applied as `apply_search_replace` does; a text that does not parse
    /// answers with its error, or with a hint on the two formats where it
    /// holds no block.
    pub fn apply_from_text(&self, content: &str, search_replace_text: &str) -> (r: Result<
        (EnhancedEditResult, Vec<(usize, String)>),
        String,
    >)
        requires
            parse_blocks_spec(search_replace_text@) matches Ok(bv) ==> enhanced_defined(*self, content@, bv),
        ensures
            match parse_blocks_spec(search_replace_text@) {
                Ok(bv) => enhanced_answer(*self, content@, bv, r),
                Err(e) => r matches Err(m) && m@ == parse_failure_text(e),
            },
    {
        match parse_search_replace_blocks(search_replace_text) {
            Ok(blocks) => {
                proof {
                    assert(result_view(Ok::<Vec<SearchReplaceBlock>, SearchReplaceSyntaxError>(blocks)) matches Ok(v)
                        && v == blocks@.map_values(|b: SearchReplaceBlock| b@));
                }
                self.apply_search_replace(content, blocks.as_slice())
            },
            Err(e) => {
                let shown = e.to_text();
                if str_contains(shown.as_str(), "No valid search/replace blocks") {
                    Err(owned("Failed to parse search/replace blocks: No valid blocks found. Use either <<<<<<< SEARCH/=======/>>>>>>> REPLACE format or search:/replace: prefix format."))
                } else {
                    Err(shown)
                }
            },
        }
    }

    /// Whether `apply_from_text` can be asked to apply the blocks written in
    /// `search_replace_text` to `content`.
    pub fn text_edit_defined(&self, content: &str, search_replace_text: &str) -> (b: bool)
        ensures
            b == (parse_blocks_spec(search_replace_text@) matches Ok(bv) ==> enhanced_defined(*self, content@, bv)),
    {
        match parse_search_replace_blocks(search_replace_text) {
            Ok(blocks) => {
                proof {
                    assert(result_view(Ok::<Vec<SearchReplaceBlock>, SearchReplaceSyntaxError>(blocks)) matches Ok(v)
                        && v == blocks@.map_values(|b: SearchReplaceBlock| b@));
                }
                self.edit_defined(content, blocks.as_slice())
            },
            Err(_) => true,
        }
    }

    /// Whether `apply_search_replace` can be asked to apply `blocks` to
    /// `content`: no block, in the batch or on its own where the batch
    /// fails, would re-indent by cutting inside a character.
    pub fn edit_defined(&self, content: &str, blocks: &[SearchReplaceBlock]) -> (b: bool)
        ensures
            b == enhanced_defined(*self, content@, blocks@.map_values(|b: SearchReplaceBlock| b@)),
    {
        match self.batch_checked(content, blocks) {
            None => false,
            Some(Ok(_)) => true,
            Some(Err(_)) => !self.enable_individual_fallback || self.individual_checked(content, blocks).is_some(),
        }
    }

    /// Adds to the diagnostic at `position` the content found most like
    /// its search lines and how similar it is, in percent with one decimal,
    /// and appends `suggestions` to the result's.
    pub fn add_failure_note(
        &self,
        result: &mut EnhancedEditResult,
        position: usize,
        similar: String,
        percent: String,
        suggestions: &Vec<String>,
    )
        requires
            position < old(result).diagnostics@.len(),
        ensures
            final(result).diagnostics@ == old(result).diagnostics@.update(
                position as int,
                BlockDiagnostic {
                    similar_content: Some(similar),
                    similarity_percent: Some(percent),
                    ..old(result).diagnostics@[position as int]
                },
            ),
            final(result).suggestions.deep_view() == old(result).suggestions.deep_view() + suggestions.deep_view(),
            final(result).standard_result == old(result).standard_result,
            final(result).applied_individually == old(result).applied_individually,
    {
        let mut d = result.diagnostics.remove(position);
        d.similar_content = Some(similar);
        d.similarity_percent = Some(percent);
        result.diagnostics.insert(position, d);
        proof {
            assert(result.diagnostics@ =~= old(result).diagnostics@.update(
                position as int,
                BlockDiagnostic {
                    similar_content: Some(similar),
                    similarity_percent: Some(percent),
                    ..old(result).diagnostics@[position as int]
                },
            ));
        }
        let ghost start = result.suggestions.deep_view();
        let ghost diags = result.diagnostics@;
        let ghost standard = result.standard_result;
        let ghost individually = result.applied_individually;
        let mut i: usize = 0;
        while i < suggestions.len()
            invariant
                i <= suggestions.len(),
                result.diagnostics@ == diags,
                result.standard_result == standard,
                result.applied_individually == individually,
                result.suggestions.deep_view() =~= start + suggestions.deep_view().take(i as int),
            decreases suggestions.len() - i,
        {
            let w = clone_line(&suggestions[i]);
            let ghost p = result.suggestions.deep_view();
            result.suggestions.push(w);
            proof {
                assert(result.suggestions.deep_view() =~= p.push(w@));
                assert(suggestions.deep_view().take(i + 1) =~= suggestions.deep_view().take(i as int).push(w@));
            }
            i += 1;
        }
        proof {
            assert(suggestions.deep_view().take(suggestions.len() as int) =~= suggestions.deep_view());
        }
    }

    /// Generate a detailed report of the edit result
    pub fn generate_report(&self, result: &EnhancedEditResult) -> (r: String)
        requires
            forall|j: int| 0 <= j < result.diagnostics@.len() ==> report_fits(#[trigger] result.diagnostics@[j]),
        ensures
            r@ == report_text(*result),
    {
        let mut v: Vec<char> = Vec::new();
        proof {
            lemma_dv(result.standard_result.warnings);
            lemma_dv(result.suggestions);
        }
        push_overview(&mut v, result);
        let nw = result.standard_result.warnings.len();
        push_str(&mut v, "## Block Diagnostics\n\n");
        let ghost head = v@;
        let mut i: usize = 0;
        while i < result.diagnostics.len()
            invariant
                i <= result.diagnostics.len(),
                forall|j: int| 0 <= j < result.diagnostics@.len() ==> report_fits(#[trigger] result.diagnostics@[j]),
                v@ == head + diagnostic_sections(result.diagnostics@.take(i as int)),
            decreases result.diagnostics.len() - i,
        {
            let ghost before = v@;
            push_section(&mut v, &result.diagnostics[i]);
            proof {
                let t = result.diagnostics@.take(i + 1);
                assert(t.drop_last() =~= result.diagnostics@.take(i as int));
                assert(t.last() == result.diagnostics@[i as int]);
                assert(v@ =~= head + diagnostic_sections(t));
            }
            i += 1;
        }
        proof {
            assert(result.diagnostics@.take(result.diagnostics.len() as int) =~= result.diagnostics@);
        }
        if result.suggestions.len() > 0 {
            push_str(&mut v, "## Suggestions\n\n");
            push_bullets(&mut v, &result.suggestions);
            push_str(&mut v, "\n");
        }
        if nw > 0 {
            push_str(&mut v, "## Warnings\n\n");
            push_bullets(&mut v, &result.standard_result.warnings);
            push_str(&mut v, "\n");
        }
        proof {
            assert(v@ =~= report_text(*result));
        }
        from_chars(v.as_slice())
    }

    /// Apply blocks in batch: each block in turn at its first match, with a
    /// diagnostic for each; the error names the first block that matches
    /// nowhere, with its search lines.
    pub fn apply_batch(&self, content: &str, blocks: &[SearchReplaceBlock]) -> (r: Result<
        (EditResult, Vec<BlockDiagnostic>),
        String,
    >)
        requires
            apply_fold_with(lines(content@), blocks@.map_values(|b: SearchReplaceBlock| b@), blocks@.len(), self.fix_indentation) is Some,
        ensures
            ({
                let bv = blocks@.map_values(|b: SearchReplaceBlock| b@);
                let ls0 = lines(content@);
                match apply_fold_with(ls0, bv, bv.len(), self.fix_indentation) {
                    Some(Ok((ls, ws))) => r matches Ok((res, diags)) && res.content@ == join(ls, nl())
                        && res.warnings.deep_view() == ws && res.changes_made == (bv.len() > 0)
                        && diags@.len() == bv.len() && forall|j: int| 0 <= j < bv.len() ==> applied_diagnostic(
                        #[trigger] diags@[j],
                        j,
                        lines_after(ls0, bv, j as nat, self.fix_indentation),
                        bv[j].0,
                    ),
                    Some(Err(n)) => r matches Err(m) && 1 <= n <= bv.len() && m@ == no_match_error(n, bv[n - 1].0),
                    None => false,
                }
            }),
    {
        match self.batch_checked(content, blocks) {
            Some(r) => r,
            None => Err(String::new()),
        }
    }

    /// What `apply_batch` gives, or `None` where re-indenting would cut
    /// inside a character.
    fn batch_checked(&self, content: &str, blocks: &[SearchReplaceBlock]) -> (r: Option<Result<
        (EditResult, Vec<BlockDiagnostic>),
        String,
    >>)
        ensures
            ({
                let bv = blocks@.map_values(|b: SearchReplaceBlock| b@);
                let ls0 = lines(content@);
                match apply_fold_with(ls0, bv, bv.len(), self.fix_indentation) {
                    Some(Ok((ls, ws))) => r matches Some(Ok((res, diags))) && res.content@ == join(ls, nl())
                        && res.warnings.deep_view() == ws && res.changes_made == (bv.len() > 0)
                        && diags@.len() == bv.len() && forall|j: int| 0 <= j < bv.len() ==> applied_diagnostic(
                        #[trigger] diags@[j],
                        j,
                        lines_after(ls0, bv, j as nat, self.fix_indentation),
                        bv[j].0,
                    ),
                    Some(Err(n)) => r matches Some(Err(m)) && 1 <= n <= bv.len() && m@ == no_match_error(n, bv[n - 1].0),
                    None => r is None,
                }
            }),
    {
        let ghost bv = blocks@.map_values(|b: SearchReplaceBlock| b@);
        let ghost ls0 = lines(content@);
        let ghost fix = self.fix_indentation;
        let mut result_lines = split_lines(content);
        let mut warnings: Vec<String> = Vec::new();
        let mut diagnostics: Vec<BlockDiagnostic> = Vec::new();
        proof {
            assert(warnings.deep_view() =~= Seq::<Seq<char>>::empty());
        }
        let mut idx: usize = 0;
        while idx < blocks.len()
            invariant
                idx <= blocks.len(),
                bv == blocks@.map_values(|b: SearchReplaceBlock| b@),
                bv.len() == blocks.len(),
                ls0 == lines(content@),
                fix == self.fix_indentation,
                apply_fold_with(ls0, bv, idx as nat, fix) == Some(
                    Ok::<(Seq<Seq<char>>, Seq<Seq<char>>), nat>((result_lines.deep_view(), warnings.deep_view())),
                ),
                diagnostics@.len() == idx,
                forall|j: int| 0 <= j < idx ==> applied_diagnostic(
                    #[trigger] diagnostics@[j],
                    j,
                    lines_after(ls0, bv, j as nat, fix),
                    bv[j].0,
                ),
            decreases blocks.len() - idx,
        {
            let block = &blocks[idx];
            proof {
                assert(bv[idx as int] == block@);
            }
            let ghost before = result_lines.deep_view();
            match self.apply_step(&result_lines, &mut warnings, block, idx) {
                Some(Ok((next, d))) => {
                    proof {
                        assert(lines_after(ls0, bv, idx as nat, fix) == before);
                    }
                    diagnostics.push(d);
                    result_lines = next;
                },
                Some(Err(())) => {
                    proof {
                        if idx + 1 < bv.len() {
                            lemma_apply_fold_with_stuck(ls0, bv, (idx + 1) as nat, bv.len(), fix);
                        }
                        lemma_dv(block.search_lines);
                    }
                    let search = copy_lines(block.search_lines.as_slice());
                    proof {
                        lemma_dv(search);
                    }
                    return Some(Err(no_match_text(idx + 1, &search)));
                },
                None => {
                    proof {
                        if idx + 1 < bv.len() {
                            lemma_apply_fold_with_stuck(ls0, bv, (idx + 1) as nat, bv.len(), fix);
                        }
                    }
                    return None;
                },
            }
            idx += 1;
        }
        let joined = join_lines(result_lines.as_slice());
        proof {
            lemma_dv(result_lines);
        }
        Some(Ok((EditResult { content: joined, warnings, changes_made: blocks.len() > 0 }, diagnostics)))
    }
}

/// With indentation fixing on, an edit with diagnostics that applies comes
/// out as the plain edit does: where applying the blocks succeeds, both
/// give the same content and warnings, and the edit is not applied block
/// by block.
pub proof fn law_diagnosed_edit_is_plain_edit(
    e: EnhancedSearchReplace,
    content: Seq<char>,
    bv: Seq<BlockView>,
    r: Result<(EnhancedEditResult, Vec<(usize, String)>), String>,
    plain: Result<EditResult, crate::diff::search_replace::ApplyError>,
)
    requires
        e.fix_indentation,
        enhanced_answer(e, content, bv, r),
        crate::diff::search_replace::edit_answer(content, bv, plain),
        plain is Ok,
    ensures
        r matches Ok((res, _)) && plain matches Ok(p) && res.standard_result.content@ == p.content@
            && res.standard_result.warnings.deep_view() == p.warnings.deep_view() && !res.applied_individually,
{
}

} // verus!
