//! The agent's error type and helpers that turn other failures into it.
use vstd::prelude::*;
use crate::text::{contains, decimal, from_chars, owned, push_decimal, push_str, str_contains};

verus! {

/// `std::io::Error`, carried through unchanged.
#[verifier::external_type_specification]
#[verifier::external_body]
pub struct ExIoError(std::io::Error);

/// Main error type for the agent. Paths are held as text.
#[derive(Debug)]
pub enum WinxError {
    Io { source: std::io::Error, path: Option<String> },
    BashExecution { message: String },
    ShellNotStarted,
    LockError { message: String },
    PermissionDenied { message: String },
    FileOperation { message: String, path: String },
    InvalidArgument { message: String },
    InvalidPath { path: String },
    FileTooLarge { path: String, size: u64 },
    SyntaxError { message: String },
    ParseError { message: String },
    LspError(String),
    SymbolError { message: String },
    InitializationRequired { message: String },
    Other(String),
    IoError(String),
}

/// Result type alias using WinxError
pub type WinxResult<T> = Result<T, WinxError>;

impl WinxError {
    /// Create a new IO error with path context
    pub fn io_error(err: std::io::Error, path: Option<&str>) -> (r: Self)
        ensures
            r matches WinxError::Io { source, path: p } && source == err && match path {
                Some(q) => p matches Some(s) && s@ == q@,
                None => p is None,
            },
    {
        let p = match path {
            Some(q) => Some(owned(q)),
            None => None,
        };
        WinxError::Io { source: err, path: p }
    }

    /// Create a new bash execution error
    pub fn bash_error(message: &str) -> (r: Self)
        ensures
            r matches WinxError::BashExecution { message: m } && m@ == message@,
    {
        WinxError::BashExecution { message: owned(message) }
    }

    /// Create a new lock error
    pub fn lock_error(message: &str) -> (r: Self)
        ensures
            r matches WinxError::LockError { message: m } && m@ == message@,
    {
        WinxError::LockError { message: owned(message) }
    }

    /// Create a new permission denied error
    pub fn permission_error(message: &str) -> (r: Self)
        ensures
            r matches WinxError::PermissionDenied { message: m } && m@ == message@,
    {
        WinxError::PermissionDenied { message: owned(message) }
    }

    /// Create a new file operation error
    pub fn file_error(message: &str, path: &str) -> (r: Self)
        ensures
            r matches WinxError::FileOperation { message: m, path: p } && m@ == message@ && p@
                == path@,
    {
        WinxError::FileOperation { message: owned(message), path: owned(path) }
    }

    /// Create a new invalid argument error
    pub fn invalid_argument(message: &str) -> (r: Self)
        ensures
            r matches WinxError::InvalidArgument { message: m } && m@ == message@,
    {
        WinxError::InvalidArgument { message: owned(message) }
    }

    /// Create a new invalid path error
    pub fn invalid_path(path: &str) -> (r: Self)
        ensures
            r matches WinxError::InvalidPath { path: p } && p@ == path@,
    {
        WinxError::InvalidPath { path: owned(path) }
    }

    /// Create a new file too large error
    pub fn file_too_large(path: &str, size: u64) -> (r: Self)
        ensures
            r matches WinxError::FileTooLarge { path: p, size: s } && p@ == path@ && s == size,
    {
        WinxError::FileTooLarge { path: owned(path), size }
    }

    /// Create a new syntax error
    pub fn syntax_error(message: &str) -> (r: Self)
        ensures
            r matches WinxError::SyntaxError { message: m } && m@ == message@,
    {
        WinxError::SyntaxError { message: owned(message) }
    }

    /// Create a new parse error
    pub fn parse_error(message: &str) -> (r: Self)
        ensures
            r matches WinxError::ParseError { message: m } && m@ == message@,
    {
        WinxError::ParseError { message: owned(message) }
    }

    /// Create a new LSP error
    pub fn lsp_error(message: &str) -> (r: Self)
        ensures
            r matches WinxError::LspError(m) && m@ == message@,
    {
        WinxError::LspError(owned(message))
    }

    /// Create a new symbol error
    pub fn symbol_error(message: &str) -> (r: Self)
        ensures
            r matches WinxError::SymbolError { message: m } && m@ == message@,
    {
        WinxError::SymbolError { message: owned(message) }
    }

    /// Create a new initialization required error
    pub fn initialization_required(message: &str) -> (r: Self)
        ensures
            r matches WinxError::InitializationRequired { message: m } && m@ == message@,
    {
        WinxError::InitializationRequired { message: owned(message) }
    }

    /// Create a new generic error
    pub fn other(message: &str) -> (r: Self)
        ensures
            r matches WinxError::Other(m) && m@ == message@,
    {
        WinxError::Other(owned(message))
    }

    /// The error's text as its `Display` prints it, for every variant that
    /// holds no IO error (the text of an IO error comes from the system).
    pub open spec fn display(&self) -> Option<Seq<char>> {
        match self {
            WinxError::Io { .. } => None,
            WinxError::BashExecution { message } => Some(
                "Failed to execute bash command: "@ + message@,
            ),
            WinxError::ShellNotStarted => Some("Shell not started or not available"@),
            WinxError::LockError { message } => Some("Failed to acquire lock: "@ + message@),
            WinxError::PermissionDenied { message } => Some("Permission denied: "@ + message@),
            WinxError::FileOperation { message, .. } => Some(
                "File operation failed: "@ + message@,
            ),
            WinxError::InvalidArgument { message } => Some("Invalid argument: "@ + message@),
            WinxError::InvalidPath { path } => Some("Invalid file path: "@ + path@),
            WinxError::FileTooLarge { path, .. } => Some("File too large: "@ + path@),
            WinxError::SyntaxError { message } => Some("Syntax error: "@ + message@),
            WinxError::ParseError { message } => Some("Parse error: "@ + message@),
            WinxError::LspError(m) => Some("LSP error: "@ + m@),
            WinxError::SymbolError { message } => Some("Symbol error: "@ + message@),
            WinxError::InitializationRequired { message } => Some(
                "Initialization required: "@ + message@,
            ),
            WinxError::Other(m) => Some(m@),
            WinxError::IoError(m) => Some("IO error: "@ + m@),
        }
    }

    /// The error's text as its `Display` prints it (see `display`); for an
    /// IO error, "IO error: " and the IO error's own text.
    pub fn to_text(&self) -> (r: Option<String>)
        ensures
            r is Some,
            self.display() matches Some(t) ==> r->0@ == t,
            self matches WinxError::Io { source, .. } ==> exists|t: String| displays_as(source, t) && r->0@
                == "IO error: "@ + t@,
    {
        let mut v: Vec<char> = Vec::new();
        match self {
            WinxError::Io { source, .. } => {
                let t = source.to_string();
                push_str(&mut v, "IO error: ");
                push_str(&mut v, t.as_str());
                let r = from_chars(v.as_slice());
                proof {
                    assert(r@ == "IO error: "@ + t@);
                    assert(displays_as(source, t));
                    assert(exists|t2: String| displays_as(source, t2) && r@ == "IO error: "@ + t2@);
                    assert(Some(r)->0@ == r@);
                }
                return Some(r);
            },
            WinxError::BashExecution { message } => {
                push_str(&mut v, "Failed to execute bash command: ");
                push_str(&mut v, message.as_str());
            },
            WinxError::ShellNotStarted => {
                push_str(&mut v, "Shell not started or not available");
            },
            WinxError::LockError { message } => {
                push_str(&mut v, "Failed to acquire lock: ");
                push_str(&mut v, message.as_str());
            },
            WinxError::PermissionDenied { message } => {
                push_str(&mut v, "Permission denied: ");
                push_str(&mut v, message.as_str());
            },
            WinxError::FileOperation { message, .. } => {
                push_str(&mut v, "File operation failed: ");
                push_str(&mut v, message.as_str());
            },
            WinxError::InvalidArgument { message } => {
                push_str(&mut v, "Invalid argument: ");
                push_str(&mut v, message.as_str());
            },
            WinxError::InvalidPath { path } => {
                push_str(&mut v, "Invalid file path: ");
                push_str(&mut v, path.as_str());
            },
            WinxError::FileTooLarge { path, .. } => {
                push_str(&mut v, "File too large: ");
                push_str(&mut v, path.as_str());
            },
            WinxError::SyntaxError { message } => {
                push_str(&mut v, "Syntax error: ");
                push_str(&mut v, message.as_str());
            },
            WinxError::ParseError { message } => {
                push_str(&mut v, "Parse error: ");
                push_str(&mut v, message.as_str());
            },
            WinxError::LspError(m) => {
                push_str(&mut v, "LSP error: ");
                push_str(&mut v, m.as_str());
            },
            WinxError::SymbolError { message } => {
                push_str(&mut v, "Symbol error: ");
                push_str(&mut v, message.as_str());
            },
            WinxError::InitializationRequired { message } => {
                push_str(&mut v, "Initialization required: ");
                push_str(&mut v, message.as_str());
            },
            WinxError::Other(m) => {
                push_str(&mut v, m.as_str());
            },
            WinxError::IoError(m) => {
                push_str(&mut v, "IO error: ");
                push_str(&mut v, m.as_str());
            },
        }
        Some(from_chars(v.as_slice()))
    }
}

/// The error codes of the protocol's error answers.
#[derive(Debug, Clone, Copy, PartialEq, Eq)]
pub enum McpCode {
    InvalidRequest,
    InvalidParams,
    InternalError,
}

impl McpCode {
    /// The JSON-RPC number of the code.
    pub fn code(&self) -> (r: i32)
        ensures
            r == match self {
                McpCode::InvalidRequest => -32600i32,
                McpCode::InvalidParams => -32602i32,
                McpCode::InternalError => -32603i32,
            },
    {
        match self {
            McpCode::InvalidRequest => -32600,
            McpCode::InvalidParams => -32602,
            McpCode::InternalError => -32603,
        }
    }
}

/// A value in the data of an error answer.
#[derive(Debug, Clone)]
pub enum DataValue {
    Text(String),
    Null,
    Number(u64),
    /// A number of bytes, shown in megabytes (the number over a million).
    Megabytes(u64),
}

impl View for DataValue {
    /// (kind, text, number): kind 0 is text, 1 null, 2 a number, 3 megabytes.
    type V = (nat, Seq<char>, nat);

    open spec fn view(&self) -> (nat, Seq<char>, nat) {
        match self {
            DataValue::Text(s) => (0, s@, 0),
            DataValue::Null => (1, seq![], 0),
            DataValue::Number(n) => (2, seq![], *n as nat),
            DataValue::Megabytes(n) => (3, seq![], *n as nat),
        }
    }
}

pub open spec fn text_value(s: Seq<char>) -> (nat, Seq<char>, nat) {
    (0, s, 0)
}

/// The error answer of the protocol: its code, its message and its data.
#[derive(Debug, Clone)]
pub struct McpErrorInfo {
    pub code: McpCode,
    pub message: String,
    pub data: Vec<(&'static str, DataValue)>,
}

impl McpErrorInfo {
    pub open spec fn data_view(&self) -> Seq<(Seq<char>, (nat, Seq<char>, nat))> {
        self.data@.map_values(|e: (&'static str, DataValue)| (e.0@, e.1@))
    }
}

/// "error_type" and "details" entries.
pub open spec fn typed_details(kind: Seq<char>, details: Seq<char>) -> Seq<(Seq<char>, (nat, Seq<char>, nat))> {
    seq![("error_type"@, text_value(kind)), ("details"@, text_value(details))]
}

impl WinxError {
    /// The error answer of `self`, where `io_text` is the text of the IO
    /// error an `Io` error holds.
    pub open spec fn mcp_answer(&self, io_text: Seq<char>) -> (McpCode, Seq<char>, Seq<(Seq<char>, (nat, Seq<char>, nat))>) {
        match self {
            WinxError::Io { path, .. } => (
                McpCode::InternalError,
                "IO error: "@ + io_text + match path {
                    Some(p) => " (path: "@ + p@ + ")"@,
                    None => seq![],
                },
                seq![
                    ("error_type"@, text_value("io_error"@)),
                    ("path"@, match path {
                        Some(p) => text_value(p@),
                        None => (1nat, Seq::<char>::empty(), 0nat),
                    }),
                    ("details"@, text_value(io_text)),
                ],
            ),
            WinxError::BashExecution { message } => (
                McpCode::InternalError,
                "Command execution failed: "@ + message@,
                typed_details("bash_execution_error"@, message@),
            ),
            WinxError::ShellNotStarted => (
                McpCode::InternalError,
                "Shell not started or not available"@,
                typed_details("shell_not_started"@, "Initialize the shell before executing commands"@),
            ),
            WinxError::LockError { message } => (
                McpCode::InternalError,
                "Failed to acquire lock: "@ + message@,
                typed_details("lock_error"@, message@),
            ),
            WinxError::PermissionDenied { message } => (
                McpCode::InvalidRequest,
                "Permission denied: "@ + message@,
                typed_details("permission_denied"@, message@),
            ),
            WinxError::FileOperation { message, path } => (
                McpCode::InternalError,
                "File operation failed: "@ + message@ + " (path: "@ + path@ + ")"@,
                seq![
                    ("error_type"@, text_value("file_operation_error"@)),
                    ("path"@, text_value(path@)),
                    ("details"@, text_value(message@)),
                ],
            ),
            WinxError::InvalidArgument { message } => (
                McpCode::InvalidParams,
                "Invalid argument: "@ + message@,
                typed_details("invalid_argument"@, message@),
            ),
            WinxError::InvalidPath { path } => (
                McpCode::InvalidParams,
                "Invalid file path: "@ + path@,
                seq![("error_type"@, text_value("invalid_path"@)), ("path"@, text_value(path@))],
            ),
            WinxError::FileTooLarge { path, size } => (
                McpCode::InternalError,
                "File too large: "@ + path@ + " ("@ + decimal(*size as nat) + " bytes)"@,
                seq![
                    ("error_type"@, text_value("file_too_large"@)),
                    ("path"@, text_value(path@)),
                    ("size"@, (2nat, Seq::<char>::empty(), *size as nat)),
                    ("size_mb"@, (3nat, Seq::<char>::empty(), *size as nat)),
                ],
            ),
            WinxError::SyntaxError { message } => (
                McpCode::InvalidParams,
                "Syntax error: "@ + message@,
                typed_details("syntax_error"@, message@),
            ),
            WinxError::ParseError { message } => (
                McpCode::InvalidParams,
                "Parse error: "@ + message@,
                typed_details("parse_error"@, message@),
            ),
            WinxError::LspError(message) => (
                McpCode::InternalError,
                "LSP error: "@ + message@,
                typed_details("lsp_error"@, message@),
            ),
            WinxError::SymbolError { message } => (
                McpCode::InvalidParams,
                "Symbol error: "@ + message@,
                typed_details("symbol_error"@, message@),
            ),
            WinxError::InitializationRequired { message } => (
                McpCode::InvalidParams,
                "Initialization required: "@ + message@,
                typed_details("initialization_required"@, message@).push(
                    ("solution"@, text_value("Call 'initialize' tool first before using other tools"@)),
                ),
            ),
            WinxError::Other(message) => (
                McpCode::InternalError,
                message@,
                typed_details("other_error"@, message@),
            ),
            WinxError::IoError(message) => (
                McpCode::InternalError,
                "IO error: "@ + message@,
                typed_details("io_error"@, message@),
            ),
        }
    }

    /// The protocol's error answer for this error. For an `Io` error the
    /// message and details carry the IO error's own text.
    pub fn to_mcp_error(&self) -> (r: McpErrorInfo)
        ensures
            exists|t: Seq<char>| (r.code, r.message@, r.data_view()) == self.mcp_answer(t),
            !(self is Io) ==> (r.code, r.message@, r.data_view()) == self.mcp_answer(seq![]),
    {
        let mut m: Vec<char> = Vec::new();
        let mut data: Vec<(&'static str, DataValue)> = Vec::new();
        let ghost mut t: Seq<char> = seq![];
        let code = match self {
            WinxError::Io { source, path } => {
                let text = source.to_string();
                proof {
                    t = text@;
                }
                push_str(&mut m, "IO error: ");
                push_str(&mut m, text.as_str());
                data.push(("error_type", DataValue::Text(owned("io_error"))));
                match path {
                    Some(p) => {
                        push_str(&mut m, " (path: ");
                        push_str(&mut m, p.as_str());
                        push_str(&mut m, ")");
                        data.push(("path", DataValue::Text(p.clone())));
                    },
                    None => {
                        data.push(("path", DataValue::Null));
                    },
                }
                data.push(("details", DataValue::Text(text)));
                McpCode::InternalError
            },
            WinxError::BashExecution { message } => {
                push_str(&mut m, "Command execution failed: ");
                push_str(&mut m, message.as_str());
                push_typed_details(&mut data, "bash_execution_error", message.as_str());
                McpCode::InternalError
            },
            WinxError::ShellNotStarted => {
                push_str(&mut m, "Shell not started or not available");
                push_typed_details(&mut data, "shell_not_started", "Initialize the shell before executing commands");
                McpCode::InternalError
            },
            WinxError::LockError { message } => {
                push_str(&mut m, "Failed to acquire lock: ");
                push_str(&mut m, message.as_str());
                push_typed_details(&mut data, "lock_error", message.as_str());
                McpCode::InternalError
            },
            WinxError::PermissionDenied { message } => {
                push_str(&mut m, "Permission denied: ");
                push_str(&mut m, message.as_str());
                push_typed_details(&mut data, "permission_denied", message.as_str());
                McpCode::InvalidRequest
            },
            WinxError::FileOperation { message, path } => {
                push_str(&mut m, "File operation failed: ");
                push_str(&mut m, message.as_str());
                push_str(&mut m, " (path: ");
                push_str(&mut m, path.as_str());
                push_str(&mut m, ")");
                data.push(("error_type", DataValue::Text(owned("file_operation_error"))));
                data.push(("path", DataValue::Text(path.clone())));
                data.push(("details", DataValue::Text(message.clone())));
                McpCode::InternalError
            },
            WinxError::InvalidArgument { message } => {
                push_str(&mut m, "Invalid argument: ");
                push_str(&mut m, message.as_str());
                push_typed_details(&mut data, "invalid_argument", message.as_str());
                McpCode::InvalidParams
            },
            WinxError::InvalidPath { path } => {
                push_str(&mut m, "Invalid file path: ");
                push_str(&mut m, path.as_str());
                data.push(("error_type", DataValue::Text(owned("invalid_path"))));
                data.push(("path", DataValue::Text(path.clone())));
                McpCode::InvalidParams
            },
            WinxError::FileTooLarge { path, size } => {
                push_str(&mut m, "File too large: ");
                push_str(&mut m, path.as_str());
                push_str(&mut m, " (");
                push_decimal(&mut m, *size);
                push_str(&mut m, " bytes)");
                data.push(("error_type", DataValue::Text(owned("file_too_large"))));
                data.push(("path", DataValue::Text(path.clone())));
                data.push(("size", DataValue::Number(*size)));
                data.push(("size_mb", DataValue::Megabytes(*size)));
                McpCode::InternalError
            },
            WinxError::SyntaxError { message } => {
                push_str(&mut m, "Syntax error: ");
                push_str(&mut m, message.as_str());
                push_typed_details(&mut data, "syntax_error", message.as_str());
                McpCode::InvalidParams
            },
            WinxError::ParseError { message } => {
                push_str(&mut m, "Parse error: ");
                push_str(&mut m, message.as_str());
                push_typed_details(&mut data, "parse_error", message.as_str());
                McpCode::InvalidParams
            },
            WinxError::LspError(message) => {
                push_str(&mut m, "LSP error: ");
                push_str(&mut m, message.as_str());
                push_typed_details(&mut data, "lsp_error", message.as_str());
                McpCode::InternalError
            },
            WinxError::SymbolError { message } => {
                push_str(&mut m, "Symbol error: ");
                push_str(&mut m, message.as_str());
                push_typed_details(&mut data, "symbol_error", message.as_str());
                McpCode::InvalidParams
            },
            WinxError::InitializationRequired { message } => {
                push_str(&mut m, "Initialization required: ");
                push_str(&mut m, message.as_str());
                push_typed_details(&mut data, "initialization_required", message.as_str());
                data.push(
                    ("solution", DataValue::Text(owned("Call 'initialize' tool first before using other tools"))),
                );
                McpCode::InvalidParams
            },
            WinxError::Other(message) => {
                push_str(&mut m, message.as_str());
                push_typed_details(&mut data, "other_error", message.as_str());
                McpCode::InternalError
            },
            WinxError::IoError(message) => {
                push_str(&mut m, "IO error: ");
                push_str(&mut m, message.as_str());
                push_typed_details(&mut data, "io_error", message.as_str());
                McpCode::InternalError
            },
        };
        let r = McpErrorInfo { code, message: from_chars(m.as_slice()), data };
        proof {
            assert((r.code, r.message@, r.data_view()) == self.mcp_answer(t));
        }
        r
    }
}

fn push_typed_details(data: &mut Vec<(&'static str, DataValue)>, kind: &'static str, details: &str)
    ensures
        final(data)@.map_values(|e: (&'static str, DataValue)| (e.0@, e.1@)) == old(data)@.map_values(
            |e: (&'static str, DataValue)| (e.0@, e.1@),
        ) + typed_details(kind@, details@),
{
    data.push(("error_type", DataValue::Text(owned(kind))));
    data.push(("details", DataValue::Text(owned(details))));
    proof {
        reveal_strlit("error_type");
        reveal_strlit("details");
    }
    assert(final(data)@.map_values(|e: (&'static str, DataValue)| (e.0@, e.1@)) =~= old(data)@.map_values(
        |e: (&'static str, DataValue)| (e.0@, e.1@),
    ) + typed_details(kind@, details@));
}


/// The text that `e.to_string()` may give for `e`.
pub open spec fn displays_as<E: std::fmt::Display>(e: &E, s: String) -> bool {
    vstd::string::to_string_from_display_ensures::<E>(e, s)
}

/// Map any error to a WinxError
pub fn map_error<T, E: std::fmt::Display>(result: Result<T, E>) -> (r: Result<T, WinxError>)
    ensures
        match result {
            Ok(t) => r is Ok && r->Ok_0 == t,
            Err(e) => (r matches Err(WinxError::Other(m)) && exists|s: String| displays_as(&e, s) && m@ == s@),
        },
{
    match result {
        Ok(t) => Ok(t),
        Err(e) => {
            let s = e.to_string();
            assert(displays_as(&e, s) && s@ == s@);
            let r = Err(WinxError::Other(s));
            assert(r matches Err(WinxError::Other(m)) && exists|s2: String| displays_as(&e, s2) && m@ == s2@);
            r
        },
    }
}

/// Add context to an error message: `"{context}: {error}"`.
pub fn with_context<T, E: std::fmt::Display>(result: Result<T, E>, context: &str) -> (r: Result<
    T,
    WinxError,
>)
    ensures
        match result {
            Ok(t) => r is Ok && r->Ok_0 == t,
            Err(e) => (r matches Err(WinxError::Other(m)) && exists|s: String| displays_as(&e, s)
                && m@ == context@ + ": "@ + s@),
        },
{
    match result {
        Ok(t) => Ok(t),
        Err(e) => {
            let s = e.to_string();
            assert(displays_as(&e, s));
            let mut v: Vec<char> = Vec::new();
            push_str(&mut v, context);
            push_str(&mut v, ": ");
            push_str(&mut v, s.as_str());
            Err(WinxError::Other(from_chars(v.as_slice())))
        },
    }
}

/// Try an operation and map any error to a WinxError
pub fn try_operation<T, E: std::fmt::Display, F: FnOnce() -> Result<T, E>>(operation: F) -> (r: Result<
    T,
    WinxError,
>)
    requires
        call_requires(operation, ()),
    ensures
        exists|out: Result<T, E>|
            call_ensures(operation, (), out) && match out {
                Ok(t) => r is Ok && r->Ok_0 == t,
                Err(e) => (r matches Err(WinxError::Other(m)) && exists|s: String| displays_as(&e, s)
                    && m@ == s@),
            },
{
    let out = operation();
    map_error(out)
}

/// Handle file operations with proper context: an IO failure becomes
/// `WinxError::Io` naming `path`.
pub fn with_file_context<T, F: FnOnce() -> Result<T, std::io::Error>>(operation: F, path: &str) -> (r: Result<
    T,
    WinxError,
>)
    requires
        call_requires(operation, ()),
    ensures
        exists|out: Result<T, std::io::Error>|
            call_ensures(operation, (), out) && match out {
                Ok(t) => r is Ok && r->Ok_0 == t,
                Err(e) => r matches Err(WinxError::Io { source, path: p }) && source == e && (p matches Some(
                    q,
                ) && q@ == path@),
            },
{
    match operation() {
        Ok(t) => Ok(t),
        Err(e) => Err(WinxError::io_error(e, Some(path))),
    }
}

/// Whether an error's text names a missing file or a refused permission.
pub open spec fn looks_like_io(text: Seq<char>) -> bool {
    contains(text, "permission denied"@) || contains(text, "not found"@)
}

/// Extension trait for converting errors to WinxError
pub trait ErrorExt<T>: Sized {
    /// Convert to WinxResult with added context
    fn with_context(self, message: &str) -> WinxResult<T>;

    /// Convert to WinxResult with file path context: an error whose text
    /// mentions "permission denied" or "not found" becomes an IO error, any
    /// other a file operation error.
    fn with_path(self, path: &str) -> WinxResult<T>;
}

impl<T, E: std::fmt::Display> ErrorExt<T> for Result<T, E> {
    fn with_context(self, message: &str) -> (r: WinxResult<T>)
        ensures
            match self {
                Ok(t) => r is Ok && r->Ok_0 == t,
                Err(e) => (r matches Err(WinxError::Other(m)) && exists|s: String|
                    displays_as(&e, s) && m@ == message@ + ": "@ + s@),
            },
    {
        crate::error::with_context(self, message)
    }

    fn with_path(self, path: &str) -> (r: WinxResult<T>)
        ensures
            match self {
                Ok(t) => r is Ok && r->Ok_0 == t,
                Err(e) => exists|s: String|
                    displays_as(&e, s) && if looks_like_io(s@) {
                        r matches Err(WinxError::Io { path: p, .. }) && (p matches Some(q) && q@ == path@)
                    } else {
                        r matches Err(WinxError::FileOperation { message: m, path: p }) && m@ == s@
                            && p@ == path@
                    },
            },
    {
        match self {
            Ok(t) => Ok(t),
            Err(e) => {
                let s = e.to_string();
                assert(displays_as(&e, s));
                if str_contains(s.as_str(), "permission denied") || str_contains(
                    s.as_str(),
                    "not found",
                ) {
                    let io = other_io_error(s.as_str());
                    Err(WinxError::io_error(io, Some(path)))
                } else {
                    Err(WinxError::file_error(s.as_str(), path))
                }
            },
        }
    }
}

/// `std::io::Error::new(std::io::ErrorKind::Other, message)`; nothing is
/// stated of the value beyond its existence.
#[verifier::external_body]
fn other_io_error(message: &str) -> std::io::Error {
    std::io::Error::new(std::io::ErrorKind::Other, message.to_string())
}

/// Contextual error mapping function: turns an IO error into `WinxError::Io`
/// naming `path`.
pub fn map_io_err(path: &str) -> (f: impl FnOnce(std::io::Error) -> WinxError)
    ensures
        forall|e: std::io::Error| call_requires(f, (e,)),
        forall|e: std::io::Error, r: WinxError|
            call_ensures(f, (e,), r) ==> (r matches WinxError::Io { source, path: p } && source == e
                && (p matches Some(q) && q@ == path@)),
{
    let p = owned(path);
    let ghost pv = path@;
    move|err: std::io::Error| -> (r: WinxError)
        ensures
            r matches WinxError::Io { source, path: pp } && source == err && (pp matches Some(q) && q@ == pv),
        { WinxError::Io { source: err, path: Some(p) } }
}

} // verus!
