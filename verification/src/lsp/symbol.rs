//! Symbols of source files: where they sit, how they nest, finding them
//! and listing them.
use vstd::prelude::*;
use crate::lsp::types::SymbolKind;
use crate::text::{contains, decimal, from_chars, join, lines, push_decimal, push_str, str_contains, str_eq};

verus! {

/// Location of a symbol in a file
#[derive(Debug, Clone)]
pub struct SymbolLocation {
    /// Relative path to the file containing the symbol
    pub relative_path: String,
    /// Line number (0-based) where the symbol starts
    pub line: u32,
    /// Column (0-based) where the symbol starts
    pub column: u32,
    /// Range of the symbol (start and end position)
    pub range: SymbolRange,
}

/// Range of a symbol in a file
#[derive(Debug, Clone, Copy, PartialEq, Eq, Structural)]
pub struct SymbolRange {
    /// Start position of the symbol
    pub start: SymbolPosition,
    /// End position of the symbol
    pub end: SymbolPosition,
}

/// Position in a file
#[derive(Debug, Clone, Copy, PartialEq, Eq, Structural)]
pub struct SymbolPosition {
    /// Line number (0-based)
    pub line: u32,
    /// Column (0-based)
    pub column: u32,
}


/// Representation of a code symbol with location information
#[derive(Debug)]
pub struct Symbol {
    /// Name of the symbol
    pub name: String,
    /// Kind of the symbol (class, function, variable, etc.)
    pub kind: SymbolKind,
    /// Location of the symbol (file path, range)
    pub location: SymbolLocation,
    /// Children of the symbol (methods in a class, etc.)
    pub children: Vec<Symbol>,
    /// Symbol body content (if requested)
    pub body: Option<String>,
}

/// Whether a symbol is found by `name`: its name is the name, or holds it
/// when substrings match.
pub open spec fn name_matches(sym: Symbol, name: Seq<char>, substring: bool) -> bool {
    (substring && contains(sym.name@, name)) || sym.name@ == name
}

/// The symbols of `s` and of their children, each before its children,
/// that `name` finds.
pub open spec fn named_in(s: Seq<Symbol>, name: Seq<char>, substring: bool) -> Seq<Symbol>
    decreases s,
{
    if s.len() == 0 {
        seq![]
    } else {
        let last = s[s.len() - 1];
        proof {
            assert(decreases_to!(s => s.subrange(0, s.len() - 1)));
            assert(decreases_to!(s => last));
        }
        named_in(s.subrange(0, s.len() - 1), name, substring) + (if name_matches(last, name, substring) {
            seq![last]
        } else {
            seq![]
        }) + named_in(last.children@, name, substring)
    }
}

/// The symbols of `s` and of their children, each before its children,
/// of the kind `kind`.
pub open spec fn of_kind_in(s: Seq<Symbol>, kind: SymbolKind) -> Seq<Symbol>
    decreases s,
{
    if s.len() == 0 {
        seq![]
    } else {
        let last = s[s.len() - 1];
        proof {
            assert(decreases_to!(s => s.subrange(0, s.len() - 1)));
            assert(decreases_to!(s => last));
        }
        of_kind_in(s.subrange(0, s.len() - 1), kind) + (if last.kind == kind {
            seq![last]
        } else {
            seq![]
        }) + of_kind_in(last.children@, kind)
    }
}

impl Symbol {
    /// Find all symbols with the given name, children included, each
    /// before its children.
    pub fn find_by_name<'a>(symbols: &'a [Symbol], name: &str, substring_match: bool) -> (r: Vec<&'a Symbol>)
        ensures
            r@.map_values(|x: &Symbol| *x) == named_in(symbols@, name@, substring_match),
    {
        let mut r: Vec<&'a Symbol> = Vec::new();
        Self::collect_named(symbols, name, substring_match, &mut r);
        r
    }

    fn collect_named<'a>(symbols: &'a [Symbol], name: &str, substring_match: bool, out: &mut Vec<&'a Symbol>)
        ensures
            final(out)@.map_values(|x: &Symbol| *x) == old(out)@.map_values(|x: &Symbol| *x) + named_in(symbols@, name@, substring_match),
        decreases symbols@,
    {
        let ghost start = out@.map_values(|x: &Symbol| *x);
        let mut i: usize = 0;
        while i < symbols.len()
            invariant
                i <= symbols.len(),
                out@.map_values(|x: &Symbol| *x) == start + named_in(symbols@.take(i as int), name@, substring_match),
            decreases symbols.len() - i,
        {
            let sym = &symbols[i];
            let ghost before = out@.map_values(|x: &Symbol| *x);
            if (substring_match && str_contains(sym.name.as_str(), name)) || str_eq(sym.name.as_str(), name) {
                out.push(sym);
                proof {
                    assert(out@.map_values(|x: &Symbol| *x) =~= before.push(*sym));
                }
            }
            let ghost mid = out@.map_values(|x: &Symbol| *x);
            proof {
                assert(mid == before + if name_matches(*sym, name@, substring_match) {
                    seq![*sym]
                } else {
                    Seq::<Symbol>::empty()
                });
                assert(decreases_to!(symbols@ => symbols@[i as int]));
            }
            Self::collect_named(sym.children.as_slice(), name, substring_match, out);
            proof {
                let t = symbols@.take(i + 1);
                assert(t.subrange(0, t.len() - 1) =~= symbols@.take(i as int));
                assert(t[t.len() - 1] == symbols@[i as int]);
                assert(out@.map_values(|x: &Symbol| *x) =~= start + named_in(t, name@, substring_match));
            }
            i += 1;
        }
        proof {
            assert(symbols@.take(symbols.len() as int) =~= symbols@);
        }
    }

    /// Find all symbols of the given kind, children included, each before
    /// its children.
    pub fn find_by_kind<'a>(symbols: &'a [Symbol], kind: SymbolKind) -> (r: Vec<&'a Symbol>)
        ensures
            r@.map_values(|x: &Symbol| *x) == of_kind_in(symbols@, kind),
    {
        let mut r: Vec<&'a Symbol> = Vec::new();
        Self::collect_kind(symbols, kind, &mut r);
        r
    }

    fn collect_kind<'a>(symbols: &'a [Symbol], kind: SymbolKind, out: &mut Vec<&'a Symbol>)
        ensures
            final(out)@.map_values(|x: &Symbol| *x) == old(out)@.map_values(|x: &Symbol| *x) + of_kind_in(symbols@, kind),
        decreases symbols@,
    {
        let ghost start = out@.map_values(|x: &Symbol| *x);
        let mut i: usize = 0;
        while i < symbols.len()
            invariant
                i <= symbols.len(),
                out@.map_values(|x: &Symbol| *x) == start + of_kind_in(symbols@.take(i as int), kind),
            decreases symbols.len() - i,
        {
            let sym = &symbols[i];
            let ghost before = out@.map_values(|x: &Symbol| *x);
            if sym.kind == kind {
                out.push(sym);
                proof {
                    assert(out@.map_values(|x: &Symbol| *x) =~= before.push(*sym));
                }
            }
            let ghost mid = out@.map_values(|x: &Symbol| *x);
            proof {
                assert(mid == before + if sym.kind == kind {
                    seq![*sym]
                } else {
                    Seq::<Symbol>::empty()
                });
                assert(decreases_to!(symbols@ => symbols@[i as int]));
            }
            Self::collect_kind(sym.children.as_slice(), kind, out);
            proof {
                let t = symbols@.take(i + 1);
                assert(t.subrange(0, t.len() - 1) =~= symbols@.take(i as int));
                assert(t[t.len() - 1] == symbols@[i as int]);
                assert(out@.map_values(|x: &Symbol| *x) =~= start + of_kind_in(t, kind));
            }
            i += 1;
        }
        proof {
            assert(symbols@.take(symbols.len() as int) =~= symbols@);
        }
    }

    /// The symbol's body in `content`, the text of its file: the lines
    /// from its range's start line to its end line.
    pub fn get_body(&self, content: &str) -> (r: String)
        requires
            self.location.range.start.line <= self.location.range.end.line + 1,
            self.location.range.end.line < lines(content@).len(),
        ensures
            r@ == join(
                lines(content@).subrange(
                    self.location.range.start.line as int,
                    self.location.range.end.line + 1,
                ),
                "\n"@,
            ),
    {
        let ls = crate::text::split_lines(content);
        proof {
            assert(ls.deep_view().len() == ls.len());
        }
        let a = self.location.range.start.line as usize;
        let b = self.location.range.end.line as usize + 1;
        let mut part: Vec<String> = Vec::new();
        let mut i = a;
        while i < b
            invariant
                a <= i <= b,
                b <= ls.len(),
                ls.deep_view() == lines(content@),
                part@.map_values(|s: String| s@) == ls.deep_view().subrange(a as int, i as int),
            decreases b - i,
        {
            let ghost before = part@;
            let s = ls[i].clone();
            part.push(s);
            proof {
                assert(ls.deep_view()[i as int] == ls@[i as int]@);
                assert(part@.map_values(|s: String| s@) =~= before.map_values(|s: String| s@).push(s@));
                assert(ls.deep_view().subrange(a as int, i + 1) =~= ls.deep_view().subrange(a as int, i as int).push(
                    ls.deep_view()[i as int],
                ));
            }
            i += 1;
        }
        proof {
            reveal_strlit("\n");
            assert(crate::text::nl() =~= "\n"@);
        }
        crate::text::join_lines(part.as_slice())
    }
}

/// The listing of a symbol: indent, kind, name and where it starts (lines
/// and columns from 1); with children included and depth left, a newline
/// and each child's listing (indented two more spaces, one less depth)
/// followed by a newline.
pub open spec fn listing(sym: Symbol, include_children: bool, depth: nat, indent: Seq<char>) -> Seq<char>
    decreases sym,
{
    indent + sym.kind.title() + " "@ + sym.name@ + " ("@ + sym.location.relative_path@ + ":"@ + decimal(
        (sym.location.line + 1) as nat,
    ) + ":"@ + decimal((sym.location.column + 1) as nat) + ")"@ + if include_children && depth > 0
        && sym.children@.len() > 0 {
        proof {
            assert(decreases_to!(sym => sym.children@));
        }
        "\n"@ + listings(sym.children@, include_children, (depth - 1) as nat, indent + "  "@)
    } else {
        seq![]
    }
}

/// The listings of `cs`, each followed by a newline.
pub open spec fn listings(cs: Seq<Symbol>, include_children: bool, depth: nat, indent: Seq<char>) -> Seq<char>
    decreases cs,
{
    if cs.len() == 0 {
        seq![]
    } else {
        proof {
            assert(decreases_to!(cs => cs.subrange(0, cs.len() - 1)));
            assert(decreases_to!(cs => cs[cs.len() - 1]));
        }
        listings(cs.subrange(0, cs.len() - 1), include_children, depth, indent) + listing(
            cs[cs.len() - 1],
            include_children,
            depth,
            indent,
        ) + "\n"@
    }
}

/// The listing of a symbol and, when asked and depth allows, of its
/// children.
pub fn format_symbol_info(symbol: &Symbol, include_children: bool, depth: usize, indent: &str) -> (r: String)
    ensures
        r@ == listing(*symbol, include_children, depth as nat, indent@),
    decreases symbol,
{
    let mut v: Vec<char> = Vec::new();
    push_str(&mut v, indent);
    push_str(&mut v, symbol.kind.title_text());
    push_str(&mut v, " ");
    push_str(&mut v, symbol.name.as_str());
    push_str(&mut v, " (");
    push_str(&mut v, symbol.location.relative_path.as_str());
    push_str(&mut v, ":");
    push_decimal(&mut v, symbol.location.line as u64 + 1);
    push_str(&mut v, ":");
    push_decimal(&mut v, symbol.location.column as u64 + 1);
    push_str(&mut v, ")");
    if include_children && depth > 0 && symbol.children.len() > 0 {
        push_str(&mut v, "\n");
        let mut deeper: Vec<char> = Vec::new();
        push_str(&mut deeper, indent);
        push_str(&mut deeper, "  ");
        let inner = from_chars(deeper.as_slice());
        let ghost head = v@;
        let cs = &symbol.children;
        let mut i: usize = 0;
        while i < cs.len()
            invariant
                i <= cs.len(),
                depth > 0,
                *cs == symbol.children,
                inner@ == indent@ + "  "@,
                v@ == head + listings(cs@.take(i as int), include_children, (depth - 1) as nat, inner@),
            decreases cs.len() - i,
        {
            proof {
                assert(decreases_to!(symbol => symbol.children));
            }
            let child = format_symbol_info(&cs[i], include_children, depth - 1, inner.as_str());
            push_str(&mut v, child.as_str());
            push_str(&mut v, "\n");
            proof {
                let t = cs@.take(i + 1);
                assert(t.subrange(0, t.len() - 1) =~= cs@.take(i as int));
                assert(t[t.len() - 1] == cs@[i as int]);
                assert(v@ =~= head + listings(t, include_children, (depth - 1) as nat, inner@));
            }
            i += 1;
        }
        proof {
            assert(cs@.take(cs.len() as int) =~= cs@);
        }
    }
    from_chars(v.as_slice())
}

/// A position in a file.
pub fn create_position(line: u32, column: u32) -> (r: SymbolPosition)
    ensures
        r == (SymbolPosition { line, column }),
{
    SymbolPosition { line, column }
}

/// A range of a file.
pub fn create_range(start_line: u32, start_column: u32, end_line: u32, end_column: u32) -> (r: SymbolRange)
    ensures
        r == (SymbolRange {
            start: SymbolPosition { line: start_line, column: start_column },
            end: SymbolPosition { line: end_line, column: end_column },
        }),
{
    SymbolRange { start: create_position(start_line, start_column), end: create_position(end_line, end_column) }
}

} // verus!
