//! The actions the agent can take, the tool call that carries out each, and
//! how a tool's output classifies the outcome of one. Paths are held as text.
use vstd::prelude::*;
use crate::text::{contains, from_chars, owned, push_str, str_contains, to_chars};

verus! {

/// Defines all possible actions that the agent can take within the codebase
#[derive(Debug, Clone, PartialEq, Eq, Hash)]
pub enum AgentAction {
    /// Read a file
    ReadFile(String),
    /// Write to a new/empty file
    WriteFile(String, String),
    /// Edit a file using search/replace patterns: file path, search
    /// pattern, replacement text
    EditFile(String, String, String),
    /// Execute a bash command
    ExecuteCommand(String),
    /// Analyze code for syntax errors
    AnalyzeCode(String),
    /// Search for a symbol in the codebase
    SearchForSymbol(String),
    /// Run tests
    RunTests,
    /// Run build
    RunBuild,
    /// Suggest a fix for a syntax error: file, line, column
    SuggestFix(String, usize, usize),
    /// No-op action
    NoOp,
}

/// Represents the outcome of an action after execution
#[derive(Debug, Clone)]
pub enum ActionResult {
    /// Action succeeded
    Success(String),
    /// Action failed
    Failure(String),
    /// Action had no effect (neutral)
    Neutral,
    /// File content
    FileContent(String),
}

/// The kinds of outcome, without the text they carry.
#[derive(Debug, Clone, Copy, PartialEq, Eq, Structural)]
pub enum Outcome {
    Success,
    Failure,
    Neutral,
    FileContent,
}

impl ActionResult {
    /// The kind of outcome.
    pub open spec fn outcome(self) -> Outcome {
        match self {
            ActionResult::Success(_) => Outcome::Success,
            ActionResult::Failure(_) => Outcome::Failure,
            ActionResult::Neutral => Outcome::Neutral,
            ActionResult::FileContent(_) => Outcome::FileContent,
        }
    }

    /// The text carried, empty for `Neutral`.
    pub open spec fn text(self) -> Seq<char> {
        match self {
            ActionResult::Success(s) => s@,
            ActionResult::Failure(s) => s@,
            ActionResult::Neutral => seq![],
            ActionResult::FileContent(s) => s@,
        }
    }
}

/// How the output `r` of the tool run for `action` classifies its outcome.
pub open spec fn classify(action: AgentAction, r: Seq<char>) -> Outcome {
    match action {
        AgentAction::ReadFile(_) => Outcome::FileContent,
        AgentAction::WriteFile(_, _) | AgentAction::EditFile(_, _, _) => if contains(r, "Success"@) {
            Outcome::Success
        } else {
            Outcome::Failure
        },
        AgentAction::ExecuteCommand(_) => if contains(r, "process exited with code 0"@) {
            Outcome::Success
        } else {
            Outcome::Failure
        },
        AgentAction::RunTests => if contains(r, "test result: ok"@) || contains(r, "passing"@) {
            Outcome::Success
        } else {
            Outcome::Failure
        },
        AgentAction::RunBuild => if contains(r, "Finished"@) && !contains(r, "error"@) {
            Outcome::Success
        } else {
            Outcome::Failure
        },
        AgentAction::AnalyzeCode(_) => if contains(r, "No analysis command found"@) || r.len() == 0 {
            Outcome::Neutral
        } else if contains(r, "error"@) {
            Outcome::Failure
        } else {
            Outcome::Success
        },
        AgentAction::SearchForSymbol(_) => if r.len() == 0 {
            Outcome::Neutral
        } else {
            Outcome::Success
        },
        AgentAction::SuggestFix(_, _, _) | AgentAction::NoOp => Outcome::Neutral,
    }
}

/// Classifies a tool's output as the outcome of `action`; every outcome but
/// `Neutral` carries the output.
pub fn map_tool_result_to_action_result(action: &AgentAction, result: &str) -> (r: ActionResult)
    ensures
        r.outcome() == classify(*action, result@),
        r.outcome() != Outcome::Neutral ==> r.text() == result@,
{
    match action {
        AgentAction::ReadFile(_) => ActionResult::FileContent(owned(result)),
        AgentAction::WriteFile(_, _) | AgentAction::EditFile(_, _, _) => {
            if str_contains(result, "Success") {
                ActionResult::Success(owned(result))
            } else {
                ActionResult::Failure(owned(result))
            }
        },
        AgentAction::ExecuteCommand(_) => {
            if str_contains(result, "process exited with code 0") {
                ActionResult::Success(owned(result))
            } else {
                ActionResult::Failure(owned(result))
            }
        },
        AgentAction::RunTests => {
            if str_contains(result, "test result: ok") || str_contains(result, "passing") {
                ActionResult::Success(owned(result))
            } else {
                ActionResult::Failure(owned(result))
            }
        },
        AgentAction::RunBuild => {
            if str_contains(result, "Finished") && !str_contains(result, "error") {
                ActionResult::Success(owned(result))
            } else {
                ActionResult::Failure(owned(result))
            }
        },
        AgentAction::AnalyzeCode(_) => {
            if str_contains(result, "No analysis command found") || result.is_empty() {
                ActionResult::Neutral
            } else if str_contains(result, "error") {
                ActionResult::Failure(owned(result))
            } else {
                ActionResult::Success(owned(result))
            }
        },
        AgentAction::SearchForSymbol(_) => {
            if result.is_empty() {
                ActionResult::Neutral
            } else {
                ActionResult::Success(owned(result))
            }
        },
        AgentAction::SuggestFix(_, _, _) => ActionResult::Neutral,
        AgentAction::NoOp => ActionResult::Neutral,
    }
}


/// The tool calls that carry out actions.
#[derive(Debug, Clone)]
pub enum ToolAction {
    /// Read one or more files
    ReadFiles { file_paths: Vec<String>, show_line_numbers_reason: Option<String> },
    /// Write to a new/empty file
    WriteIfEmpty { file_path: String, file_content: String },
    /// Edit a file using search/replace
    FileEdit { file_path: String, file_edit_using_search_replace_blocks: String },
    /// Execute a bash command; the wait before returning is in milliseconds
    BashCommand { action_json: String, wait_for_millis: Option<u64> },
    /// No-op action
    NoOp,
}

/// `s` with each double quote preceded by a backslash.
pub open spec fn escape_quotes(s: Seq<char>) -> Seq<char>
    decreases s.len(),
{
    if s.len() == 0 {
        seq![]
    } else {
        escape_quotes(s.drop_last()) + if s.last() == '"' {
            seq!['\\', '"']
        } else {
            seq![s.last()]
        }
    }
}

/// The command that runs the project's tests, in the action JSON.
pub open spec fn test_command() -> Seq<char> {
    "{\"command\": \"if [ -f Cargo.toml ]; then cargo test; elif [ -f package.json ]; then npm test; elif [ -f requirements.txt ]; then python -m pytest; else echo \\\"No test command found\\\"; fi\"}"@
}

/// The command that builds the project, in the action JSON.
pub open spec fn build_command() -> Seq<char> {
    "{\"command\": \"if [ -f Cargo.toml ]; then cargo build; elif [ -f package.json ]; then npm run build; elif [ -f Makefile ]; then make; else echo \\\"No build command found\\\"; fi\"}"@
}

/// The command that checks the code of `path`, in the action JSON.
pub open spec fn analysis_command(path: Seq<char>) -> Seq<char> {
    "{\"command\": \"if [ -f Cargo.toml ]; then cargo check --message-format=json | grep \\\""@ + path
        + "\\\" -A 10; elif [ -f package.json ]; then npx eslint "@ + path
        + " --format=json; else echo \\\"No analysis command found\\\"; fi\"}"@
}

/// The command that searches source files for `symbol`, in the action JSON.
pub open spec fn search_command(symbol: Seq<char>) -> Seq<char> {
    "{\"command\": \"grep -r \\\""@ + symbol
        + "\\\" --include=\\\"*.rs\\\" --include=\\\"*.js\\\" --include=\\\"*.py\\\" --include=\\\"*.java\\\" --include=\\\"*.cpp\\\" --include=\\\"*.h\\\" .\"}"@
}

/// The action JSON that runs `cmd`, its double quotes escaped.
pub open spec fn command_json(cmd: Seq<char>) -> Seq<char> {
    "{\"command\": \""@ + escape_quotes(cmd) + "\"}"@
}

/// The search/replace block that turns `search` into `replace`.
pub open spec fn edit_block(search: Seq<char>, replace: Seq<char>) -> Seq<char> {
    "<<<<<<< SEARCH\n"@ + search + "\n=======\n"@ + replace + "\n>>>>>>> REPLACE"@
}

/// Whether `t` is the tool call that carries out `a`.
pub open spec fn carries_out(t: ToolAction, a: AgentAction) -> bool {
    match a {
        AgentAction::ReadFile(p) => t matches ToolAction::ReadFiles { file_paths, show_line_numbers_reason }
            && file_paths@.len() == 1 && file_paths@[0]@ == p@ && show_line_numbers_reason is None,
        AgentAction::WriteFile(p, c) => t matches ToolAction::WriteIfEmpty { file_path, file_content }
            && file_path@ == p@ && file_content@ == c@,
        AgentAction::EditFile(p, se, re) => t matches ToolAction::FileEdit {
            file_path,
            file_edit_using_search_replace_blocks: b,
        } && file_path@ == p@ && b@ == edit_block(se@, re@),
        AgentAction::ExecuteCommand(c) => t matches ToolAction::BashCommand { action_json, wait_for_millis }
            && action_json@ == command_json(c@) && wait_for_millis is None,
        AgentAction::RunTests => t matches ToolAction::BashCommand { action_json, wait_for_millis }
            && action_json@ == test_command() && wait_for_millis is None,
        AgentAction::RunBuild => t matches ToolAction::BashCommand { action_json, wait_for_millis }
            && action_json@ == build_command() && wait_for_millis is None,
        AgentAction::AnalyzeCode(p) => t matches ToolAction::BashCommand { action_json, wait_for_millis }
            && action_json@ == analysis_command(p@) && wait_for_millis is None,
        AgentAction::SearchForSymbol(sym) => t matches ToolAction::BashCommand { action_json, wait_for_millis }
            && action_json@ == search_command(sym@) && wait_for_millis is None,
        AgentAction::SuggestFix(_, _, _) | AgentAction::NoOp => t is NoOp,
    }
}

fn push_escaped_quotes(out: &mut Vec<char>, s: &str)
    ensures
        final(out)@ == old(out)@ + escape_quotes(s@),
{
    let v = to_chars(s);
    let ghost start = out@;
    let mut i: usize = 0;
    while i < v.len()
        invariant
            i <= v.len(),
            v@ == s@,
            out@ == start + escape_quotes(v@.take(i as int)),
        decreases v.len() - i,
    {
        proof {
            assert(v@.take(i + 1).drop_last() =~= v@.take(i as int));
            assert(v@.take(i + 1).last() == v@[i as int]);
        }
        if v[i] == '"' {
            out.push('\\');
            out.push('"');
        } else {
            out.push(v[i]);
        }
        proof {
            assert(out@ =~= start + escape_quotes(v@.take(i + 1)));
        }
        i += 1;
    }
    proof {
        assert(v@.take(v.len() as int) =~= v@);
    }
}

/// The tool call that carries out `action`; suggesting a fix and doing
/// nothing call no tool.
pub fn map_action_to_tool(action: &AgentAction) -> (r: ToolAction)
    ensures
        carries_out(r, *action),
{
    match action {
        AgentAction::ReadFile(path) => {
            let mut file_paths: Vec<String> = Vec::new();
            file_paths.push(owned(path.as_str()));
            ToolAction::ReadFiles { file_paths, show_line_numbers_reason: None }
        },
        AgentAction::WriteFile(path, content) => ToolAction::WriteIfEmpty {
            file_path: owned(path.as_str()),
            file_content: owned(content.as_str()),
        },
        AgentAction::EditFile(path, search, replace) => {
            let mut v: Vec<char> = Vec::new();
            push_str(&mut v, "<<<<<<< SEARCH\n");
            push_str(&mut v, search.as_str());
            push_str(&mut v, "\n=======\n");
            push_str(&mut v, replace.as_str());
            push_str(&mut v, "\n>>>>>>> REPLACE");
            ToolAction::FileEdit {
                file_path: owned(path.as_str()),
                file_edit_using_search_replace_blocks: from_chars(v.as_slice()),
            }
        },
        AgentAction::ExecuteCommand(cmd) => {
            let mut v: Vec<char> = Vec::new();
            push_str(&mut v, "{\"command\": \"");
            push_escaped_quotes(&mut v, cmd.as_str());
            push_str(&mut v, "\"}");
            ToolAction::BashCommand { action_json: from_chars(v.as_slice()), wait_for_millis: None }
        },
        AgentAction::RunTests => ToolAction::BashCommand {
            action_json: owned(
                "{\"command\": \"if [ -f Cargo.toml ]; then cargo test; elif [ -f package.json ]; then npm test; elif [ -f requirements.txt ]; then python -m pytest; else echo \\\"No test command found\\\"; fi\"}",
            ),
            wait_for_millis: None,
        },
        AgentAction::RunBuild => ToolAction::BashCommand {
            action_json: owned(
                "{\"command\": \"if [ -f Cargo.toml ]; then cargo build; elif [ -f package.json ]; then npm run build; elif [ -f Makefile ]; then make; else echo \\\"No build command found\\\"; fi\"}",
            ),
            wait_for_millis: None,
        },
        AgentAction::AnalyzeCode(path) => {
            let mut v: Vec<char> = Vec::new();
            push_str(&mut v, "{\"command\": \"if [ -f Cargo.toml ]; then cargo check --message-format=json | grep \\\"");
            push_str(&mut v, path.as_str());
            push_str(&mut v, "\\\" -A 10; elif [ -f package.json ]; then npx eslint ");
            push_str(&mut v, path.as_str());
            push_str(&mut v, " --format=json; else echo \\\"No analysis command found\\\"; fi\"}");
            ToolAction::BashCommand { action_json: from_chars(v.as_slice()), wait_for_millis: None }
        },
        AgentAction::SearchForSymbol(symbol) => {
            let mut v: Vec<char> = Vec::new();
            push_str(&mut v, "{\"command\": \"grep -r \\\"");
            push_str(&mut v, symbol.as_str());
            push_str(
                &mut v,
                "\\\" --include=\\\"*.rs\\\" --include=\\\"*.js\\\" --include=\\\"*.py\\\" --include=\\\"*.java\\\" --include=\\\"*.cpp\\\" --include=\\\"*.h\\\" .\"}",
            );
            ToolAction::BashCommand { action_json: from_chars(v.as_slice()), wait_for_millis: None }
        },
        AgentAction::SuggestFix(_, _, _) => ToolAction::NoOp,
        AgentAction::NoOp => ToolAction::NoOp,
    }
}

} // verus!
