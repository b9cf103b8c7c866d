//! Which language server serves a file, and how it is started.
use vstd::prelude::*;
use crate::error::WinxError;
use crate::lsp::utils::{get_file_extension, path_extension};
use crate::security::path_debug;
use crate::text::{from_chars, owned, push_str, str_eq};

verus! {

/// Supported language server types
#[derive(Debug, Clone, Copy, PartialEq, Eq, Structural)]
pub enum LanguageServerType {
    /// Rust analyzer for Rust code
    RustAnalyzer,
    /// Pyright for Python code
    Pyright,
    /// TypeScript language server
    TypeScript,
    /// Clangd for C/C++ code
    Clangd,
    /// Java language server
    Java,
    /// Go language server
    Gopls,
    /// Solargraph for Ruby code
    Ruby,
    /// Omnisharp for C# code
    CSharp,
}

impl LanguageServerType {
    /// The program that starts the server, and its arguments.
    pub open spec fn command(self) -> (Seq<char>, Seq<Seq<char>>) {
        match self {
            LanguageServerType::RustAnalyzer => ("rust-analyzer"@, seq![]),
            LanguageServerType::Pyright => ("pyright-langserver"@, seq!["--stdio"@]),
            LanguageServerType::TypeScript => ("typescript-language-server"@, seq!["--stdio"@]),
            LanguageServerType::Clangd => ("clangd"@, seq![]),
            LanguageServerType::Java => ("jdtls"@, seq![]),
            LanguageServerType::Gopls => ("gopls"@, seq!["serve"@]),
            LanguageServerType::Ruby => ("solargraph"@, seq!["stdio"@]),
            LanguageServerType::CSharp => ("omnisharp"@, seq!["--languageserver"@]),
        }
    }

    /// Get the command to start the language server
    pub fn get_command(&self) -> (r: (&'static str, Vec<String>))
        ensures
            r.0@ == self.command().0,
            r.1@.map_values(|a: String| a@) == self.command().1,
    {
        let mut args: Vec<String> = Vec::new();
        let prog: &'static str = match self {
            LanguageServerType::RustAnalyzer => "rust-analyzer",
            LanguageServerType::Pyright => {
                args.push(owned("--stdio"));
                "pyright-langserver"
            },
            LanguageServerType::TypeScript => {
                args.push(owned("--stdio"));
                "typescript-language-server"
            },
            LanguageServerType::Clangd => "clangd",
            LanguageServerType::Java => "jdtls",
            LanguageServerType::Gopls => {
                args.push(owned("serve"));
                "gopls"
            },
            LanguageServerType::Ruby => {
                args.push(owned("stdio"));
                "solargraph"
            },
            LanguageServerType::CSharp => {
                args.push(owned("--languageserver"));
                "omnisharp"
            },
        };
        proof {
            assert(args@.map_values(|a: String| a@) =~= self.command().1);
        }
        (prog, args)
    }

    /// The server for files of extension `ext`, if any.
    pub open spec fn for_extension(ext: Seq<char>) -> Option<LanguageServerType> {
        if ext == "rs"@ {
            Some(LanguageServerType::RustAnalyzer)
        } else if ext == "py"@ {
            Some(LanguageServerType::Pyright)
        } else if ext == "ts"@ || ext == "js"@ || ext == "tsx"@ || ext == "jsx"@ {
            Some(LanguageServerType::TypeScript)
        } else if ext == "c"@ || ext == "cpp"@ || ext == "h"@ || ext == "hpp"@ {
            Some(LanguageServerType::Clangd)
        } else if ext == "java"@ {
            Some(LanguageServerType::Java)
        } else if ext == "go"@ {
            Some(LanguageServerType::Gopls)
        } else if ext == "rb"@ {
            Some(LanguageServerType::Ruby)
        } else if ext == "cs"@ {
            Some(LanguageServerType::CSharp)
        } else {
            None
        }
    }

    /// Detect the language server type from a file extension
    pub fn from_extension(ext: &str) -> (r: Option<Self>)
        ensures
            r == Self::for_extension(ext@),
    {
        if str_eq(ext, "rs") {
            Some(LanguageServerType::RustAnalyzer)
        } else if str_eq(ext, "py") {
            Some(LanguageServerType::Pyright)
        } else if str_eq(ext, "ts") || str_eq(ext, "js") || str_eq(ext, "tsx") || str_eq(ext, "jsx") {
            Some(LanguageServerType::TypeScript)
        } else if str_eq(ext, "c") || str_eq(ext, "cpp") || str_eq(ext, "h") || str_eq(ext, "hpp") {
            Some(LanguageServerType::Clangd)
        } else if str_eq(ext, "java") {
            Some(LanguageServerType::Java)
        } else if str_eq(ext, "go") {
            Some(LanguageServerType::Gopls)
        } else if str_eq(ext, "rb") {
            Some(LanguageServerType::Ruby)
        } else if str_eq(ext, "cs") {
            Some(LanguageServerType::CSharp)
        } else {
            None
        }
    }
}

/// LSP client factory for creating clients for different languages
#[derive(Debug, Default)]
pub struct LspClientFactory;

impl LspClientFactory {
    /// Create a new LSP client factory
    pub fn new() -> (r: Self) {
        LspClientFactory
    }

    /// The server to start for `file_path`: by its extension; a path with no
    /// extension, or one no server handles, is refused.
    pub fn server_type_for_file(&self, file_path: &str) -> (r: Result<LanguageServerType, WinxError>)
        ensures
            match path_extension(file_path@) {
                None => r matches Err(WinxError::LspError(m)) && m@ == "Failed to determine file extension: "@
                    + path_debug(file_path@),
                Some(e) => match LanguageServerType::for_extension(e) {
                    Some(t) => r == Ok::<LanguageServerType, WinxError>(t),
                    None => r matches Err(WinxError::LspError(m)) && m@ == "Unsupported file extension: "@ + e,
                },
            },
    {
        match get_file_extension(file_path) {
            None => {
                let mut v: Vec<char> = Vec::new();
                push_str(&mut v, "Failed to determine file extension: ");
                let d = crate::security::debug_path_text(file_path);
                push_str(&mut v, d.as_str());
                Err(WinxError::LspError(from_chars(v.as_slice())))
            },
            Some(ext) => match LanguageServerType::from_extension(ext.as_str()) {
                Some(t) => Ok(t),
                None => {
                    let mut v: Vec<char> = Vec::new();
                    push_str(&mut v, "Unsupported file extension: ");
                    push_str(&mut v, ext.as_str());
                    Err(WinxError::LspError(from_chars(v.as_slice())))
                },
            },
        }
    }
}

} // verus!
