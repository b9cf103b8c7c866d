use winx_code_agent::lsp::client::{LanguageServerType, LspClientFactory};
use winx_code_agent::lsp::server::LSPServer;
use winx_code_agent::lsp::types::{Language, SymbolKind};
use winx_code_agent::lsp::utils::{get_file_extension, to_absolute_path};

#[test]
fn test_language_extensions() {
    assert_eq!(Language::Rust.get_file_extension(), vec!["rs"]);
    assert_eq!(Language::CPlusPlus.get_file_extension().len(), 6);
    assert!(Language::Python.is_relevant_filename("script.PY"));
    assert!(Language::Python.is_relevant_filename("types.pyi"));
    assert!(!Language::Python.is_relevant_filename("notes.txt"));
    assert!(!Language::Rust.is_relevant_filename("rs"));
    assert!(Language::TypeScript.is_relevant_filename("App.TSX"));
}

#[test]
fn test_server_commands_and_extensions() {
    let (prog, args) = LanguageServerType::Pyright.get_command();
    assert_eq!(prog, "pyright-langserver");
    assert_eq!(args, vec!["--stdio".to_string()]);
    let (prog, args) = LanguageServerType::RustAnalyzer.get_command();
    assert_eq!(prog, "rust-analyzer");
    assert!(args.is_empty());
    assert_eq!(LanguageServerType::from_extension("jsx"), Some(LanguageServerType::TypeScript));
    assert_eq!(LanguageServerType::from_extension("hpp"), Some(LanguageServerType::Clangd));
    assert_eq!(LanguageServerType::from_extension("md"), None);
}

#[test]
fn test_server_type_for_file() {
    let factory = LspClientFactory::new();
    assert_eq!(factory.server_type_for_file("src/main.rs").unwrap(), LanguageServerType::RustAnalyzer);
    let err = factory.server_type_for_file("README.md").unwrap_err();
    assert_eq!(err.to_text().unwrap(), "LSP error: Unsupported file extension: md");
    let err = factory.server_type_for_file("Makefile").unwrap_err();
    assert_eq!(
        err.to_text().unwrap(),
        "LSP error: Failed to determine file extension: \"Makefile\""
    );
}

#[test]
fn test_paths() {
    assert_eq!(to_absolute_path("src/lib.rs", "/project"), "/project/src/lib.rs");
    assert_eq!(to_absolute_path("/etc/x", "/project"), "/etc/x");
    assert_eq!(get_file_extension("a/b.tar.gz"), Some("gz".to_string()));
    assert_eq!(get_file_extension("a/.bashrc"), None);
}

#[test]
fn test_symbol_kind_codes_and_server() {
    assert_eq!(SymbolKind::File.code(), 1);
    assert_eq!(SymbolKind::Struct.code(), 23);
    assert_eq!(SymbolKind::TypeParameter.code(), 26);
    let server = LSPServer::new("/p", Language::Go, vec![], None);
    assert!(!server.is_running());
}
