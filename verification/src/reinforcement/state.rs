//! What is known about the codebase: files, build status, changes and
//! syntax errors. Paths are held as text.
use vstd::prelude::*;

verus! {

/// Metadata about a file in the codebase
#[derive(Debug, Clone, PartialEq, Eq, Hash)]
pub struct FileMetadata {
    /// Size of the file in bytes
    pub size: usize,
    /// Last modification timestamp
    pub last_modified: u64,
    /// File extension
    pub extension: Option<String>,
    /// Whether the file contains syntax errors
    pub has_syntax_errors: bool,
}

/// Status of the build process
#[derive(Debug, Clone, Copy, PartialEq, Eq, Hash, Structural)]
pub enum BuildStatus {
    /// Build succeeded
    Success,
    /// Build failed
    Failed,
    /// Build status unknown
    Unknown,
}

/// A change in the codebase
#[derive(Debug, Clone, PartialEq, Eq, Hash)]
pub struct Change {
    /// Path of the file that was changed
    pub file_path: String,
    /// Type of change
    pub change_type: ChangeType,
    /// Timestamp of the change
    pub timestamp: u64,
}

/// Type of change in the codebase
#[derive(Debug, Clone, Copy, PartialEq, Eq, Hash, Structural)]
pub enum ChangeType {
    /// File was created
    Created,
    /// File was modified
    Modified,
    /// File was deleted
    Deleted,
}

/// Representation of a syntax error
#[derive(Debug, Clone, PartialEq, Eq, Hash)]
pub struct SyntaxError {
    /// Path of the file containing the error
    pub file_path: String,
    /// Line number where the error occurs
    pub line: usize,
    /// Column number where the error occurs
    pub column: usize,
    /// Error message
    pub message: String,
    /// Error severity
    pub severity: ErrorSeverity,
}

/// Severity of a syntax error
#[derive(Debug, Clone, Copy, PartialEq, Eq, Hash, Structural)]
pub enum ErrorSeverity {
    /// Error that prevents compilation
    Error,
    /// Warning that doesn't prevent compilation
    Warning,
    /// Informational message
    Info,
}

/// A simplified version of the codebase state for efficient state
/// representation
#[derive(Debug, Clone, Copy, PartialEq, Eq, Hash, Structural)]
pub struct SimplifiedCodebaseState {
    /// Number of files in the codebase
    pub file_count: usize,
    /// Number of syntax errors
    pub error_count: usize,
    /// Number of warnings
    pub warning_count: usize,
    /// Test coverage percentage (0-100) as an integer
    pub test_coverage: usize,
    /// Whether the build is successful
    pub build_success: bool,
}

} // verus!
