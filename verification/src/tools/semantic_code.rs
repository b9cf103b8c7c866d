//! The semantic code tools: finding symbols and references, editing a
//! symbol's body and adding new code next to a symbol or at a line. The
//! language server is asked outside the library; what is decided from its
//! answers, and the new text of a file, is here.
use vstd::prelude::*;
use crate::lsp::types::lowercase;
use crate::text::{contains, decimal, from_chars, lines, owned, push_decimal, push_str, str_contains, str_eq, to_chars};

verus! {

/// Tool for finding symbols in the codebase.
#[derive(Debug, Clone, Copy)]
pub struct FindSymbolTool {}

/// Parameters for finding symbols.
#[derive(Debug, Clone)]
pub struct FindSymbolParams {
    /// Name of the symbol to find
    pub name: String,
    /// Path relative to workspace root to search within
    pub within_relative_path: Option<String>,
    /// Whether to include the bodies of the symbols in the result
    pub include_body: Option<bool>,
    /// Types of symbols to include (e.g. "class", "function", "method")
    pub include_types: Option<Vec<String>>,
    /// Whether to use substring matching
    pub substring_matching: Option<bool>,
    /// Maximum number of results to return (0 for all)
    pub max_results: Option<usize>,
}

/// Tool for finding references to a symbol.
#[derive(Debug, Clone, Copy)]
pub struct FindReferencesTool {}

/// Parameters for finding references.
#[derive(Debug, Clone)]
pub struct FindReferencesParams {
    /// Path to the file containing the symbol
    pub file_path: String,
    /// Line number (0-based) of the symbol
    pub line: u32,
    /// Column (0-based) of the symbol
    pub column: u32,
    /// Whether to include the bodies of the references in the result
    pub include_body: Option<bool>,
}

/// Tool for editing a symbol.
#[derive(Debug, Clone, Copy)]
pub struct EditSymbolTool {}

/// Parameters for editing a symbol.
#[derive(Debug, Clone)]
pub struct EditSymbolParams {
    /// Path to the file containing the symbol
    pub file_path: String,
    /// Line number (0-based) of the symbol
    pub line: u32,
    /// Column (0-based) of the symbol
    pub column: u32,
    /// New body content for the symbol
    pub new_body: String,
}

/// Tool for adding a new symbol next to an existing one or at a line.
#[derive(Debug, Clone, Copy)]
pub struct AddSymbolTool {}

/// Parameters for adding a symbol.
#[derive(Debug, Clone)]
pub struct AddSymbolParams {
    /// Path to the file containing the anchor symbol (or file)
    pub file_path: String,
    /// Line number (0-based) of the anchor symbol
    pub line: Option<u32>,
    /// Column (0-based) of the anchor symbol
    pub column: Option<u32>,
    /// Position type: before/after the anchor symbol, or at a line
    pub position: String,
    /// Content of the new symbol to add
    pub content: String,
}

impl FindSymbolTool {
    pub fn new() -> (r: Self) {
        FindSymbolTool {}
    }
}

impl Default for FindSymbolTool {
    fn default() -> (r: Self) {
        FindSymbolTool {}
    }
}

impl FindReferencesTool {
    pub fn new() -> (r: Self) {
        FindReferencesTool {}
    }
}

impl Default for FindReferencesTool {
    fn default() -> (r: Self) {
        FindReferencesTool {}
    }
}

impl EditSymbolTool {
    pub fn new() -> (r: Self) {
        EditSymbolTool {}
    }
}

impl Default for EditSymbolTool {
    fn default() -> (r: Self) {
        EditSymbolTool {}
    }
}

impl AddSymbolTool {
    pub fn new() -> (r: Self) {
        AddSymbolTool {}
    }
}

impl Default for AddSymbolTool {
    fn default() -> (r: Self) {
        AddSymbolTool {}
    }
}

// ---------------------------------------------------------------------------
// Paths and filters

/// The number of '/' at the start of `s`.
pub open spec fn leading_slashes(s: Seq<char>) -> nat
    decreases s.len(),
{
    if s.len() > 0 && s[0] == '/' {
        1 + leading_slashes(s.skip(1))
    } else {
        0
    }
}

proof fn lemma_leading_slashes(s: Seq<char>, k: int)
    requires
        0 <= k <= s.len(),
        forall|j: int| 0 <= j < k ==> s[j] == '/',
        k == s.len() || s[k] != '/',
    ensures
        leading_slashes(s) == k,
    decreases k,
{
    if k > 0 {
        assert forall|j: int| 0 <= j < k - 1 implies s.skip(1)[j] == '/' by {
            assert(s.skip(1)[j] == s[j + 1]);
        }
        if k < s.len() {
            assert(s.skip(1)[k - 1] == s[k]);
        }
        lemma_leading_slashes(s.skip(1), k - 1);
    } else if s.len() > 0 {
        assert(s[0] != '/');
    }
}

/// The path relative to the workspace: `file_path` without the '/' it
/// starts with.
pub fn relative_path(file_path: &str) -> (r: String)
    ensures
        r@ == file_path@.skip(leading_slashes(file_path@) as int),
{
    let s = to_chars(file_path);
    let mut k: usize = 0;
    while k < s.len() && s[k] == '/'
        invariant
            k <= s.len(),
            forall|j: int| 0 <= j < k ==> s@[j] == '/',
        decreases s.len() - k,
    {
        k += 1;
    }
    proof {
        lemma_leading_slashes(s@, k as int);
    }
    let rest = crate::text::slice_chars(s.as_slice(), k, s.len());
    proof {
        assert(rest@ =~= s@.skip(k as int));
    }
    from_chars(rest.as_slice())
}

/// Whether a symbol of the kind named `kind_name` is among `types`: its
/// lowercased name holds one of them, lowercased.
pub open spec fn kind_in(kind_name: Seq<char>, types: Seq<Seq<char>>) -> bool {
    exists|i: int| 0 <= i < types.len() && contains(lowercase(kind_name), #[trigger] lowercase(types[i]))
}

/// Whether a symbol of the kind named `kind_name` passes the type filter.
pub fn kind_matches(kind_name: &str, types: &Vec<String>) -> (b: bool)
    ensures
        b == kind_in(kind_name@, types.deep_view()),
{
    let kind = crate::lsp::types::to_lower(kind_name);
    let ghost tv = types.deep_view();
    let mut i: usize = 0;
    while i < types.len()
        invariant
            i <= types.len(),
            tv == types.deep_view(),
            kind@ == lowercase(kind_name@),
            forall|j: int| 0 <= j < i ==> !contains(lowercase(kind_name@), #[trigger] lowercase(tv[j])),
        decreases types.len() - i,
    {
        let t = crate::lsp::types::to_lower(types[i].as_str());
        proof {
            assert(tv[i as int] == types@[i as int]@);
        }
        if str_contains(kind.as_str(), t.as_str()) {
            return true;
        }
        i += 1;
    }
    false
}

/// Keep at most `max_results` of the symbols found, when it is given and
/// not 0.
pub fn limit_results<T>(found: &mut Vec<T>, max_results: Option<usize>)
    ensures
        match max_results {
            Some(m) => m > 0 && old(found)@.len() > m ==> final(found)@ == old(found)@.take(m as int),
            None => true,
        },
        !(max_results matches Some(m) && m > 0 && old(found)@.len() > m) ==> final(found)@ == old(found)@,
{
    match max_results {
        Some(m) => {
            if m > 0 && found.len() > m {
                found.truncate(m);
            }
        },
        None => {},
    }
}

// ---------------------------------------------------------------------------
// Adding code

/// Where new code goes.
#[derive(Debug, Clone, Copy, PartialEq, Eq)]
pub enum AddPlacement {
    /// Next to the symbol at `line`:`column`, on the line where it starts
    /// (before it) or where it ends (after it).
    Anchor { line: u32, column: u32, before: bool },
    /// Before the line with this number.
    At { line: u32 },
}

/// How the position of an addition is read: "before" and "after" (in any
/// case) need a line and a column; "at" needs a line. Only the exact word
/// "before" puts the code before the symbol.
pub open spec fn placement_for(position: Seq<char>, line: Option<u32>, column: Option<u32>) -> Result<
    AddPlacement,
    Seq<char>,
> {
    let p = lowercase(position);
    if p == "before"@ || p == "after"@ {
        match (line, column) {
            (Some(l), Some(c)) => Ok(AddPlacement::Anchor { line: l, column: c, before: position == "before"@ }),
            _ => Err("Line and column must be provided for before/after positioning"@),
        }
    } else if p == "at"@ {
        match line {
            Some(l) => Ok(AddPlacement::At { line: l }),
            None => Err("Line must be provided for 'at' positioning"@),
        }
    } else {
        Err("Invalid position type: "@ + position)
    }
}

impl AddSymbolTool {
    /// Where the code of an addition goes, or why it cannot be placed.
    pub fn placement(&self, params: &AddSymbolParams) -> (r: Result<AddPlacement, String>)
        ensures
            match r {
                Ok(p) => placement_for(params.position@, params.line, params.column) == Ok::<AddPlacement, Seq<char>>(p),
                Err(e) => placement_for(params.position@, params.line, params.column) == Err::<AddPlacement, Seq<char>>(e@),
            },
    {
        let p = crate::lsp::types::to_lower(params.position.as_str());
        if str_eq(p.as_str(), "before") || str_eq(p.as_str(), "after") {
            match (params.line, params.column) {
                (Some(l), Some(c)) => {
                    let before = str_eq(params.position.as_str(), "before");
                    Ok(AddPlacement::Anchor { line: l, column: c, before })
                },
                _ => Err(owned("Line and column must be provided for before/after positioning")),
            }
        } else if str_eq(p.as_str(), "at") {
            match params.line {
                Some(l) => Ok(AddPlacement::At { line: l }),
                None => Err(owned("Line must be provided for 'at' positioning")),
            }
        } else {
            let mut v: Vec<char> = Vec::new();
            push_str(&mut v, "Invalid position type: ");
            push_str(&mut v, params.position.as_str());
            Err(from_chars(v.as_slice()))
        }
    }
}

/// The lines `ls`, each ended by a newline, with `new` and a newline put
/// before (`before`) or after the line numbered `target`.
pub open spec fn with_code(ls: Seq<Seq<char>>, target: int, new: Seq<char>, before: bool) -> Seq<char>
    decreases ls.len(),
{
    if ls.len() == 0 {
        seq![]
    } else {
        let i = ls.len() - 1;
        with_code(ls.drop_last(), target, new, before) + if i == target {
            if before {
                new + "\n"@ + ls[i] + "\n"@
            } else {
                ls[i] + "\n"@ + new + "\n"@
            }
        } else {
            ls[i] + "\n"@
        }
    }
}

fn push_with_code(v: &mut Vec<char>, ls: &Vec<String>, target: usize, new: &str, before: bool)
    ensures
        final(v)@ == old(v)@ + with_code(ls.deep_view(), target as int, new@, before),
{
    let ghost lv = ls.deep_view();
    let ghost head = v@;
    let mut i: usize = 0;
    while i < ls.len()
        invariant
            i <= ls.len(),
            lv == ls.deep_view(),
            v@ == head + with_code(lv.take(i as int), target as int, new@, before),
        decreases ls.len() - i,
    {
        proof {
            assert(lv.take(i + 1).drop_last() =~= lv.take(i as int));
            assert(lv[i as int] == ls@[i as int]@);
            assert(lv.take(i + 1)[i as int] == lv[i as int]);
        }
        if i == target {
            if before {
                push_str(v, new);
                push_str(v, "\n");
                push_str(v, ls[i].as_str());
                push_str(v, "\n");
            } else {
                push_str(v, ls[i].as_str());
                push_str(v, "\n");
                push_str(v, new);
                push_str(v, "\n");
            }
        } else {
            push_str(v, ls[i].as_str());
            push_str(v, "\n");
        }
        i += 1;
        proof {
            assert(v@ =~= head + with_code(lv.take(i as int), target as int, new@, before));
        }
    }
    proof {
        assert(lv.take(ls.len() as int) =~= lv);
    }
}

/// The file after adding `code` next to the symbol whose range starts (for
/// `before`) or ends on line `line`: every line ends with a newline, and
/// `code` with its own newline stands before or after that line.
pub fn insert_next_to_line(content: &str, line: u32, before: bool, code: &str) -> (r: String)
    ensures
        r@ == with_code(lines(content@), line as int, code@, before),
{
    let ls = crate::text::split_lines(content);
    let mut v: Vec<char> = Vec::new();
    push_with_code(&mut v, &ls, line as usize, code, before);
    from_chars(v.as_slice())
}

/// The refusal of a line beyond the end of the file.
pub open spec fn out_of_range_message(line: nat, max: nat) -> Seq<char> {
    "Line number "@ + decimal(line) + " is out of range (max: "@ + decimal(max) + ")"@
}

/// The file after adding `code` before line `line`: refused when the file
/// has fewer lines than that; every line ends with a newline. Code asked
/// for just past the last line is not added.
pub fn insert_at_line(content: &str, line: usize, code: &str) -> (r: Result<String, String>)
    ensures
        line > lines(content@).len() <==> r is Err,
        match r {
            Ok(t) => t@ == with_code(lines(content@), line as int, code@, true),
            Err(e) => e@ == out_of_range_message(line as nat, lines(content@).len()),
        },
{
    let ls = crate::text::split_lines(content);
    if line > ls.len() {
        let mut v: Vec<char> = Vec::new();
        push_str(&mut v, "Line number ");
        push_decimal(&mut v, line as u64);
        push_str(&mut v, " is out of range (max: ");
        push_decimal(&mut v, ls.len() as u64);
        push_str(&mut v, ")");
        return Err(from_chars(v.as_slice()));
    }
    let mut v: Vec<char> = Vec::new();
    push_with_code(&mut v, &ls, line, code, true);
    Ok(from_chars(v.as_slice()))
}

// ---------------------------------------------------------------------------
// Answers

/// "No symbol found at {path}:{line}:{column}"
pub fn no_symbol_text(path: &str, line: u32, column: u32) -> (r: String)
    ensures
        r@ == "No symbol found at "@ + path@ + ":"@ + decimal(line as nat) + ":"@ + decimal(column as nat),
{
    let mut v: Vec<char> = Vec::new();
    push_str(&mut v, "No symbol found at ");
    push_str(&mut v, path);
    push_str(&mut v, ":");
    push_decimal(&mut v, line as u64);
    push_str(&mut v, ":");
    push_decimal(&mut v, column as u64);
    from_chars(v.as_slice())
}

/// "Workspace root does not exist: {root}"
pub fn missing_root_text(root: &str) -> (r: String)
    ensures
        r@ == "Workspace root does not exist: "@ + root@,
{
    let mut v: Vec<char> = Vec::new();
    push_str(&mut v, "Workspace root does not exist: ");
    push_str(&mut v, root);
    from_chars(v.as_slice())
}

impl EditSymbolTool {
    /// "Updated symbol '{name}' in '{path}'"
    pub fn updated_text(&self, name: &str, path: &str) -> (r: String)
        ensures
            r@ == "Updated symbol '"@ + name@ + "' in '"@ + path@ + "'"@,
    {
        let mut v: Vec<char> = Vec::new();
        push_str(&mut v, "Updated symbol '");
        push_str(&mut v, name);
        push_str(&mut v, "' in '");
        push_str(&mut v, path);
        push_str(&mut v, "'");
        from_chars(v.as_slice())
    }
}

impl AddSymbolTool {
    /// "Added new symbol in '{path}' at position '{position}'"
    pub fn added_text(&self, path: &str, position: &str) -> (r: String)
        ensures
            r@ == "Added new symbol in '"@ + path@ + "' at position '"@ + position@ + "'"@,
    {
        let mut v: Vec<char> = Vec::new();
        push_str(&mut v, "Added new symbol in '");
        push_str(&mut v, path);
        push_str(&mut v, "' at position '");
        push_str(&mut v, position);
        push_str(&mut v, "'");
        from_chars(v.as_slice())
    }
}

} // verus!
