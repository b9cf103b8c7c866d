//! Languages, symbol kinds and positions as the language server protocol
//! names them.
use vstd::prelude::*;
use crate::text::{ends_with, str_ends_with};

verus! {

/// Language identifiers supported by LSP
#[derive(Debug, Clone, Copy, PartialEq, Eq, Hash, Structural)]
pub enum Language {
    Rust,
    Python,
    JavaScript,
    TypeScript,
    Go,
    Java,
    CSharp,
    CPlusPlus,
    Ruby,
}

/// What `str::to_lowercase` gives for `s` (Unicode lower case).
pub uninterp spec fn lowercase(s: Seq<char>) -> Seq<char>;

/// `c` in lower case when it is an ASCII capital letter, else `c`.
pub open spec fn ascii_lower(c: char) -> char {
    if 'A' <= c && c <= 'Z' {
        ((c as u32) + 32) as char
    } else {
        c
    }
}

/// `str::to_lowercase`: the result is named by `lowercase` and depends on
/// the text alone; for ASCII text it is each capital letter in lower case
/// and every other character kept, as the ASCII lower-case mapping is.
#[verifier::external_body]
pub(crate) fn to_lower(s: &str) -> (r: String)
    ensures
        r@ == lowercase(s@),
        (forall|i: int| 0 <= i < s@.len() ==> (s@[i] as u32) < 128) ==> r@ == s@.map_values(
            |c: char| ascii_lower(c),
        ),
{
    s.to_lowercase()
}

impl Language {
    /// The file extensions (without the dot) of the language.
    pub open spec fn extensions(self) -> Seq<Seq<char>> {
        match self {
            Language::Rust => seq!["rs"@],
            Language::Python => seq!["py"@, "pyi"@, "pyx"@, "pyd"@],
            Language::JavaScript => seq!["js"@, "jsx"@, "mjs"@],
            Language::TypeScript => seq!["ts"@, "tsx"@],
            Language::Go => seq!["go"@],
            Language::Java => seq!["java"@],
            Language::CSharp => seq!["cs"@],
            Language::CPlusPlus => seq!["cpp"@, "cc"@, "cxx"@, "h"@, "hpp"@, "hxx"@],
            Language::Ruby => seq!["rb"@],
        }
    }

    /// Get file extension matcher for this language
    pub fn get_file_extension(&self) -> (r: Vec<&'static str>)
        ensures
            r@.map_values(|e: &str| e@) == self.extensions(),
    {
        let r: Vec<&'static str> = match self {
            Language::Rust => vec!["rs"],
            Language::Python => vec!["py", "pyi", "pyx", "pyd"],
            Language::JavaScript => vec!["js", "jsx", "mjs"],
            Language::TypeScript => vec!["ts", "tsx"],
            Language::Go => vec!["go"],
            Language::Java => vec!["java"],
            Language::CSharp => vec!["cs"],
            Language::CPlusPlus => vec!["cpp", "cc", "cxx", "h", "hpp", "hxx"],
            Language::Ruby => vec!["rb"],
        };
        proof {
            assert(r@.map_values(|e: &str| e@) =~= self.extensions());
        }
        r
    }

    /// The file name, lower-cased, ends with "." and one of the language's
    /// extensions.
    pub open spec fn is_relevant(self, filename: Seq<char>) -> bool {
        exists|i: int|
            0 <= i < self.extensions().len() && ends_with(
                lowercase(filename),
                "."@ + #[trigger] self.extensions()[i],
            )
    }

    /// Check if a file name is relevant for this language
    pub fn is_relevant_filename(&self, filename: &str) -> (b: bool)
        ensures
            b == self.is_relevant(filename@),
    {
        let lower = to_lower(filename);
        let exts = self.get_file_extension();
        let ghost es = exts@.map_values(|e: &str| e@);
        let mut i: usize = 0;
        while i < exts.len()
            invariant
                i <= exts.len(),
                lower@ == lowercase(filename@),
                es == exts@.map_values(|e: &str| e@),
                es == self.extensions(),
                forall|j: int| 0 <= j < i ==> !ends_with(lower@, "."@ + #[trigger] es[j]),
            decreases exts.len() - i,
        {
            let mut v: Vec<char> = Vec::new();
            v.push('.');
            crate::text::push_str(&mut v, exts[i]);
            let suffix = crate::text::from_chars(v.as_slice());
            proof {
                reveal_strlit(".");
                assert(suffix@ =~= "."@ + es[i as int]);
            }
            if str_ends_with(lower.as_str(), suffix.as_str()) {
                return true;
            }
            i += 1;
        }
        false
    }
}

/// Represents the location of a symbol
#[derive(Debug, Clone)]
pub struct SymbolLocation {
    /// Relative path to the file containing the symbol
    pub relative_path: Option<String>,
    /// Line where the symbol is defined (0-based)
    pub line: Option<usize>,
    /// Column where the symbol is defined (0-based)
    pub column: Option<usize>,
}

/// Symbol kinds as defined in the LSP specification; `code` gives the
/// protocol's number of each.
#[derive(Debug, Clone, Copy, PartialEq, Eq, Hash, Structural)]
pub enum SymbolKind {
    File,
    Module,
    Namespace,
    Package,
    Class,
    Method,
    Property,
    Field,
    Constructor,
    Enum,
    Interface,
    Function,
    Variable,
    Constant,
    String,
    Number,
    Boolean,
    Array,
    Object,
    Key,
    Null,
    EnumMember,
    Struct,
    Event,
    Operator,
    TypeParameter,
}

impl SymbolKind {
    /// The number the protocol gives the kind, in declaration order from 1.
    pub open spec fn number(self) -> nat {
        match self {
            SymbolKind::File => 1,
            SymbolKind::Module => 2,
            SymbolKind::Namespace => 3,
            SymbolKind::Package => 4,
            SymbolKind::Class => 5,
            SymbolKind::Method => 6,
            SymbolKind::Property => 7,
            SymbolKind::Field => 8,
            SymbolKind::Constructor => 9,
            SymbolKind::Enum => 10,
            SymbolKind::Interface => 11,
            SymbolKind::Function => 12,
            SymbolKind::Variable => 13,
            SymbolKind::Constant => 14,
            SymbolKind::String => 15,
            SymbolKind::Number => 16,
            SymbolKind::Boolean => 17,
            SymbolKind::Array => 18,
            SymbolKind::Object => 19,
            SymbolKind::Key => 20,
            SymbolKind::Null => 21,
            SymbolKind::EnumMember => 22,
            SymbolKind::Struct => 23,
            SymbolKind::Event => 24,
            SymbolKind::Operator => 25,
            SymbolKind::TypeParameter => 26,
        }
    }

    /// The kind's name as written in symbol listings.
    pub open spec fn title(self) -> Seq<char> {
        match self {
            SymbolKind::File => "File"@,
            SymbolKind::Module => "Module"@,
            SymbolKind::Namespace => "Namespace"@,
            SymbolKind::Package => "Package"@,
            SymbolKind::Class => "Class"@,
            SymbolKind::Method => "Method"@,
            SymbolKind::Property => "Property"@,
            SymbolKind::Field => "Field"@,
            SymbolKind::Constructor => "Constructor"@,
            SymbolKind::Enum => "Enum"@,
            SymbolKind::Interface => "Interface"@,
            SymbolKind::Function => "Function"@,
            SymbolKind::Variable => "Variable"@,
            SymbolKind::Constant => "Constant"@,
            SymbolKind::String => "String"@,
            SymbolKind::Number => "Number"@,
            SymbolKind::Boolean => "Boolean"@,
            SymbolKind::Array => "Array"@,
            SymbolKind::Object => "Object"@,
            SymbolKind::Key => "Key"@,
            SymbolKind::Null => "Null"@,
            SymbolKind::EnumMember => "EnumMember"@,
            SymbolKind::Struct => "Struct"@,
            SymbolKind::Event => "Event"@,
            SymbolKind::Operator => "Operator"@,
            SymbolKind::TypeParameter => "TypeParameter"@,
        }
    }

    /// The kind's name as written in symbol listings.
    pub fn title_text(&self) -> (r: &'static str)
        ensures
            r@ == self.title(),
    {
        match self {
            SymbolKind::File => "File",
            SymbolKind::Module => "Module",
            SymbolKind::Namespace => "Namespace",
            SymbolKind::Package => "Package",
            SymbolKind::Class => "Class",
            SymbolKind::Method => "Method",
            SymbolKind::Property => "Property",
            SymbolKind::Field => "Field",
            SymbolKind::Constructor => "Constructor",
            SymbolKind::Enum => "Enum",
            SymbolKind::Interface => "Interface",
            SymbolKind::Function => "Function",
            SymbolKind::Variable => "Variable",
            SymbolKind::Constant => "Constant",
            SymbolKind::String => "String",
            SymbolKind::Number => "Number",
            SymbolKind::Boolean => "Boolean",
            SymbolKind::Array => "Array",
            SymbolKind::Object => "Object",
            SymbolKind::Key => "Key",
            SymbolKind::Null => "Null",
            SymbolKind::EnumMember => "EnumMember",
            SymbolKind::Struct => "Struct",
            SymbolKind::Event => "Event",
            SymbolKind::Operator => "Operator",
            SymbolKind::TypeParameter => "TypeParameter",
        }
    }

    /// The number the protocol gives the kind: 1 for `File` up to 26 for
    /// `TypeParameter`, in declaration order.
    pub fn code(&self) -> (n: u8)
        ensures
            n == self.number(),
    {
        match self {
            SymbolKind::File => 1,
            SymbolKind::Module => 2,
            SymbolKind::Namespace => 3,
            SymbolKind::Package => 4,
            SymbolKind::Class => 5,
            SymbolKind::Method => 6,
            SymbolKind::Property => 7,
            SymbolKind::Field => 8,
            SymbolKind::Constructor => 9,
            SymbolKind::Enum => 10,
            SymbolKind::Interface => 11,
            SymbolKind::Function => 12,
            SymbolKind::Variable => 13,
            SymbolKind::Constant => 14,
            SymbolKind::String => 15,
            SymbolKind::Number => 16,
            SymbolKind::Boolean => 17,
            SymbolKind::Array => 18,
            SymbolKind::Object => 19,
            SymbolKind::Key => 20,
            SymbolKind::Null => 21,
            SymbolKind::EnumMember => 22,
            SymbolKind::Struct => 23,
            SymbolKind::Event => 24,
            SymbolKind::Operator => 25,
            SymbolKind::TypeParameter => 26,
        }
    }
}

/// Position in a text document (0-based line and column)
#[derive(Debug, Clone, Copy, PartialEq, Eq, Structural)]
pub struct Position {
    pub line: usize,
    pub character: usize,
}

/// A range in a text document (start and end positions)
#[derive(Debug, Clone, Copy, PartialEq, Eq, Structural)]
pub struct Range {
    pub start: Position,
    pub end: Position,
}

/// Configuration for a language server
#[derive(Debug, Clone)]
pub struct LSPConfig {
    /// Language to use
    pub language: Language,
    /// Paths to ignore (glob patterns)
    pub ignored_paths: Vec<String>,
    /// Content of the .gitignore file, if any
    pub gitignore_content: Option<String>,
    /// Trace LSP communication for debugging
    pub trace_lsp_communication: bool,
}

} // verus!
