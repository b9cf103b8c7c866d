//! A language server for one project, and whether it runs.
use vstd::prelude::*;
use crate::lsp::types::{LSPConfig, Language};

verus! {

/// A language server for the project at `root_path`.
#[derive(Debug)]
pub struct LSPServer {
    /// Root path of the project
    root_path: String,
    /// LSP configuration
    config: LSPConfig,
    /// Whether the server is running
    is_running: bool,
}

impl LSPServer {
    pub closed spec fn root(&self) -> Seq<char> {
        self.root_path@
    }

    pub closed spec fn language(&self) -> Language {
        self.config.language
    }

    pub closed spec fn running(&self) -> bool {
        self.is_running
    }

    pub closed spec fn configuration(&self) -> LSPConfig {
        self.config
    }

    /// Create a new LSP server for the given language; it does not run yet
    /// and does not trace its traffic.
    pub fn new(
        root_path: &str,
        language: Language,
        ignored_paths: Vec<String>,
        gitignore_content: Option<String>,
    ) -> (r: Self)
        ensures
            r.root() == root_path@,
            r.language() == language,
            r.configuration().ignored_paths == ignored_paths,
            r.configuration().gitignore_content == gitignore_content,
            !r.configuration().trace_lsp_communication,
            !r.running(),
    {
        let config = LSPConfig { language, ignored_paths, gitignore_content, trace_lsp_communication: false };
        LSPServer { root_path: crate::text::owned(root_path), config, is_running: false }
    }

    /// Check if the server is running
    pub fn is_running(&self) -> (b: bool)
        ensures
            b == self.running(),
    {
        self.is_running
    }
}

} // verus!
