//! Starting a session: the mode the agent works in, what each mode permits,
//! and the texts of the answer. Probing directories, reading files and the
//! process-wide state live outside the library; this module holds the state
//! and decides.
use vstd::prelude::*;
use crate::error::WinxError;
use crate::tools::file_operations::FsErrorKind;
use crate::lsp::utils::{joined_path, to_absolute_path};
use crate::security::{path_view, SecurityManager};
use crate::text::{
    from_chars, join, lines, owned, push_str, starts_with, str_eq, str_starts_with,
    to_chars,
};

verus! {

/// Mode enum for different operational modes
#[derive(Debug, Clone)]
pub enum Mode {
    /// Full permissions mode
    Wcgw,
    /// Read-only mode for planning
    Architect,
    /// Restricted permissions for code editing
    CodeWriter(CodeWriterConfig),
}

/// Actions that can be performed
#[derive(Debug, Clone, Copy, PartialEq, Eq, Structural)]
pub enum Action {
    ReadFile,
    WriteFile,
    EditFile,
    ExecuteCommand,
    ReadImage,
    SaveContext,
}

/// CodeWriter mode configuration
#[derive(Debug, Clone)]
pub struct CodeWriterConfig {
    /// Allowed file globs
    pub allowed_globs: Vec<String>,
    /// Allowed commands
    pub allowed_commands: Vec<String>,
}

/// What `glob::Pattern::new(pattern)` and `matches(path)` give: `None` when
/// the pattern does not parse, else whether the path matches it.
pub uninterp spec fn glob_match(pattern: Seq<char>, path: Seq<char>) -> Option<bool>;

/// `glob::Pattern::new` then `Pattern::matches`: the result is named by
/// `glob_match` and depends on the pattern and the path alone; nothing more
/// is claimed of it.
#[verifier::external_body]
fn glob_matches(pattern: &str, path: &str) -> (r: Option<bool>)
    ensures
        r == glob_match(pattern@, path@),
{
    match glob::Pattern::new(pattern) {
        Ok(p) => Some(p.matches(path)),
        Err(_) => None,
    }
}

/// What `format!("{:?}", s)` prints for the text `s`.
pub uninterp spec fn debug_text(s: Seq<char>) -> Seq<char>;

/// `Debug` of `str`: the result is named by `debug_text` and depends on
/// the text alone; nothing more is claimed of it.
#[verifier::external_body]
pub(crate) fn debug_of(s: &str) -> (r: String)
    ensures
        r@ == debug_text(s@),
{
    format!("{:?}", s)
}

/// A list of texts as `{:?}` prints it: each text's `Debug` form, between
/// brackets, separated by ", ".
pub open spec fn debug_list(v: Seq<String>) -> Seq<char> {
    "["@ + join(v.map_values(|s: String| debug_text(s@)), ", "@) + "]"@
}

fn push_debug_list(out: &mut Vec<char>, v: &Vec<String>)
    ensures
        final(out)@ == old(out)@ + debug_list(v@),
{
    let ghost parts = v@.map_values(|s: String| debug_text(s@));
    push_str(out, "[");
    let ghost start = out@;
    let mut i: usize = 0;
    while i < v.len()
        invariant
            i <= v.len(),
            parts == v@.map_values(|s: String| debug_text(s@)),
            out@ == start + join(parts.take(i as int), ", "@),
        decreases v.len() - i,
    {
        proof {
            assert(parts.take(i + 1).drop_last() =~= parts.take(i as int));
        }
        if i > 0 {
            push_str(out, ", ");
        }
        let d = debug_of(v[i].as_str());
        push_str(out, d.as_str());
        i += 1;
        proof {
            if i == 1 {
                assert(join(parts.take(1), ", "@) == parts.take(1)[0]);
            }
            assert(out@ =~= start + join(parts.take(i as int), ", "@));
        }
    }
    proof {
        assert(parts.take(v.len() as int) =~= parts);
    }
    push_str(out, "]");
}

fn contains_all(v: &Vec<String>) -> (b: bool)
    ensures
        b == exists|i: int| 0 <= i < v@.len() && (#[trigger] v@[i])@ == "all"@,
{
    let mut i: usize = 0;
    while i < v.len()
        invariant
            i <= v.len(),
            forall|j: int| 0 <= j < i ==> (#[trigger] v@[j])@ != "all"@,
        decreases v.len() - i,
    {
        if str_eq(v[i].as_str(), "all") {
            return true;
        }
        i += 1;
    }
    false
}

/// One of the globs parses and matches `path`.
pub open spec fn some_glob_matches(globs: Seq<String>, path: Seq<char>) -> bool {
    exists|i: int| 0 <= i < globs.len() && glob_match((#[trigger] globs[i])@, path) == Some(true)
}

fn any_glob_matches(globs: &Vec<String>, path: &str) -> (b: bool)
    ensures
        b == some_glob_matches(globs@, path@),
{
    let mut i: usize = 0;
    while i < globs.len()
        invariant
            i <= globs.len(),
            forall|j: int| 0 <= j < i ==> glob_match((#[trigger] globs@[j])@, path@) != Some(true),
        decreases globs.len() - i,
    {
        match glob_matches(globs[i].as_str(), path) {
            Some(true) => {
                proof {
                    assert(glob_match(globs@[i as int]@, path@) == Some(true));
                }
                return true;
            },
            _ => {},
        }
        i += 1;
    }
    false
}

/// "all" is among the texts.
pub open spec fn lists_all(v: Seq<String>) -> bool {
    exists|i: int| 0 <= i < v.len() && (#[trigger] v[i])@ == "all"@
}

/// Whether the mode lets an action through that the security manager
/// refused; `None` means refused (with the manager's error), `Some(false)`
/// refused for want of a path.
pub open spec fn mode_allows(mode: Mode, action: Action, path: Option<Seq<char>>) -> Option<bool> {
    match mode {
        Mode::Wcgw => Some(true),
        Mode::Architect => if action == Action::ReadFile || action == Action::ReadImage {
            Some(true)
        } else {
            None
        },
        Mode::CodeWriter(config) => match action {
            Action::ReadFile | Action::ReadImage | Action::SaveContext => Some(true),
            Action::WriteFile | Action::EditFile => match path {
                Some(p) => if lists_all(config.allowed_globs@) || some_glob_matches(config.allowed_globs@, p) {
                    Some(true)
                } else {
                    None
                },
                None => Some(false),
            },
            Action::ExecuteCommand => if lists_all(config.allowed_commands@) {
                Some(true)
            } else {
                None
            },
        },
    }
}

impl Action {
    /// The security manager's action of the same name.
    pub open spec fn to_security(self) -> crate::security::Action {
        match self {
            Action::ReadFile => crate::security::Action::ReadFile,
            Action::WriteFile => crate::security::Action::WriteFile,
            Action::EditFile => crate::security::Action::EditFile,
            Action::ExecuteCommand => crate::security::Action::ExecuteCommand,
            Action::ReadImage => crate::security::Action::ReadImage,
            Action::SaveContext => crate::security::Action::SaveContext,
        }
    }

    pub fn security_action(&self) -> (r: crate::security::Action)
        ensures
            r == self.to_security(),
    {
        match self {
            Action::ReadFile => crate::security::Action::ReadFile,
            Action::WriteFile => crate::security::Action::WriteFile,
            Action::EditFile => crate::security::Action::EditFile,
            Action::ExecuteCommand => crate::security::Action::ExecuteCommand,
            Action::ReadImage => crate::security::Action::ReadImage,
            Action::SaveContext => crate::security::Action::SaveContext,
        }
    }
}

/// The session: its mode, workspace, whether it was initialized, and its
/// security manager.
#[derive(Debug)]
pub struct Initialize {
    mode: Mode,
    workspace_path: String,
    initialized: bool,
    security: SecurityManager,
}

impl Initialize {
    pub closed spec fn mode(&self) -> Mode {
        self.mode
    }

    pub closed spec fn workspace(&self) -> Seq<char> {
        self.workspace_path@
    }

    pub closed spec fn initialized(&self) -> bool {
        self.initialized
    }

    pub closed spec fn security(&self) -> SecurityManager {
        self.security
    }

    /// A fresh session: mode wcgw, workspace ".", not initialized.
    pub fn new() -> (r: Self)
        ensures
            r.mode() is Wcgw,
            r.workspace() == "."@,
            !r.initialized(),
            r.security().verifies_signatures(),
            !r.security().sandboxed(),
            r.security().allowed_paths().len() == 0,
            r.security().allowed_hosts().len() == 0,
            r.security().access().roles().len() == 1,
            r.security().access().roles()[0].name@ == "default"@,
            r.security().access().roles()[0].allowed_actions@ == seq![
                crate::security::Action::ReadFile,
                crate::security::Action::SaveContext,
            ],
            r.security().access().roles()[0].allowed_paths@.len() == 0,
            r.security().access().roles()[0].denied_paths@.len() == 0,
            r.security().access().roles()[0].allowed_commands@.len() == 0,
            r.security().access().roles()[0].denied_commands@.len() == 0,
            r.security().access().default_role() == "default"@,
            r.security().access().assignments() == Map::<Seq<char>, Seq<char>>::empty(),
    {
        Initialize {
            mode: Mode::Wcgw,
            workspace_path: owned("."),
            initialized: false,
            security: SecurityManager::new(),
        }
    }

    /// Check if the agent has been initialized
    pub fn was_initialized(&self) -> (b: bool)
        ensures
            b == self.initialized(),
    {
        self.initialized
    }

    /// Get the current mode
    pub fn get_current_mode(&self) -> (m: &Mode)
        ensures
            *m == self.mode(),
    {
        &self.mode
    }

    /// Get the current workspace path
    pub fn get_workspace_path(&self) -> (p: &str)
        ensures
            p@ == self.workspace(),
    {
        self.workspace_path.as_str()
    }

    /// Sets the mode, the workspace, and marks the session initialized.
    pub fn set_initialized(&mut self, mode: Mode, workspace: String)
        ensures
            final(self).mode() == mode,
            final(self).workspace() == workspace@,
            final(self).initialized(),
            final(self).security() == old(self).security(),
    {
        self.mode = mode;
        self.workspace_path = workspace;
        self.initialized = true;
    }

    /// Changes the workspace.
    pub fn update_workspace_path(&mut self, workspace: String)
        ensures
            final(self).workspace() == workspace@,
            final(self).mode() == old(self).mode(),
            final(self).initialized() == old(self).initialized(),
            final(self).security() == old(self).security(),
    {
        self.workspace_path = workspace;
    }

    /// Whether `action` on `path` is allowed: first by the security manager
    /// (for the user "default"); where it refuses, by the mode.
    pub fn check_permission(&self, action: Action, path: Option<&str>) -> (r: Result<(), WinxError>)
        ensures
            self.security().access().permits("default"@, action.to_security(), path_view(path)) && match path {
                Some(p) => self.security().sandbox_admits(p@),
                None => true,
            } ==> r is Ok,
            !(self.security().access().permits("default"@, action.to_security(), path_view(path)) && match path {
                Some(p) => self.security().sandbox_admits(p@),
                None => true,
            }) ==> match mode_allows(self.mode(), action, path_view(path)) {
                Some(true) => r is Ok,
                Some(false) => (r matches Err(WinxError::InvalidArgument { message }) && message@
                    == "No file path provided for write/edit action"@),
                None => (r matches Err(WinxError::PermissionDenied { .. })),
            },
    {
        let checked = self.security.check_permission("default", action.security_action(), path);
        let e = match checked {
            Ok(()) => {
                return Ok(());
            },
            Err(e) => e,
        };
        match &self.mode {
            Mode::Wcgw => Ok(()),
            Mode::Architect => match action {
                Action::ReadFile | Action::ReadImage => Ok(()),
                _ => Err(e),
            },
            Mode::CodeWriter(config) => match action {
                Action::ReadFile | Action::ReadImage => Ok(()),
                Action::WriteFile | Action::EditFile => match path {
                    Some(p) => {
                        if contains_all(&config.allowed_globs) {
                            return Ok(());
                        }
                        if any_glob_matches(&config.allowed_globs, p) {
                            return Ok(());
                        }
                        Err(e)
                    },
                    None => Err(WinxError::InvalidArgument {
                        message: owned("No file path provided for write/edit action"),
                    }),
                },
                Action::ExecuteCommand => {
                    if contains_all(&config.allowed_commands) {
                        Ok(())
                    } else {
                        Err(e)
                    }
                },
                Action::SaveContext => Ok(()),
            },
        }
    }

    /// The mode asked for by name: "wcgw", "architect" and "code_writer"
    /// (with its configuration, or one allowing all globs and commands when
    /// none could be read); any other name is wcgw.
    pub fn mode_from_name(&self, name: &str, config: Option<CodeWriterConfig>) -> (m: Mode)
        ensures
            name@ == "wcgw"@ ==> m is Wcgw,
            name@ == "architect"@ ==> m is Architect,
            name@ == "code_writer"@ ==> match config {
                Some(c) => m == Mode::CodeWriter(c),
                None => (m matches Mode::CodeWriter(c) && c.allowed_globs@.map_values(|g: String| g@)
                    == seq!["all"@] && c.allowed_commands@.map_values(|g: String| g@) == seq!["all"@]),
            },
            !(name@ == "wcgw"@ || name@ == "architect"@ || name@ == "code_writer"@) ==> m is Wcgw,
    {
        proof {
            reveal_strlit("wcgw");
            reveal_strlit("architect");
            reveal_strlit("code_writer");
            assert("wcgw"@[0] != "architect"@[0]);
            assert("wcgw"@[0] != "code_writer"@[0]);
            assert("architect"@[0] != "code_writer"@[0]);
        }
        if str_eq(name, "wcgw") {
            Mode::Wcgw
        } else if str_eq(name, "architect") {
            Mode::Architect
        } else if str_eq(name, "code_writer") {
            match config {
                Some(c) => Mode::CodeWriter(c),
                None => {
                    let mut globs: Vec<String> = Vec::new();
                    globs.push(owned("all"));
                    let mut commands: Vec<String> = Vec::new();
                    commands.push(owned("all"));
                    proof {
                        assert(globs@.map_values(|g: String| g@) =~= seq!["all"@]);
                        assert(commands@.map_values(|g: String| g@) =~= seq!["all"@]);
                    }
                    Mode::CodeWriter(CodeWriterConfig { allowed_globs: globs, allowed_commands: commands })
                },
            }
        } else {
            Mode::Wcgw
        }
    }

    /// The text that describes the mode in the answer.
    pub open spec fn mode_text(mode: Mode) -> Seq<char> {
        match mode {
            Mode::Wcgw => "\n# Mode: wcgw\nAll operations are allowed."@,
            Mode::Architect => "\n# Mode: architect\nOnly read operations are allowed. This mode is designed for planning and understanding code."@,
            Mode::CodeWriter(c) => "\n# Mode: code_writer\nAllowed globs: "@ + debug_list(c.allowed_globs@)
                + "\nAllowed commands: "@ + debug_list(c.allowed_commands@)
                + "\nRestricted to specified paths and commands."@,
        }
    }

    pub fn mode_info(&self, mode: &Mode) -> (r: String)
        ensures
            r@ == Self::mode_text(*mode),
    {
        match mode {
            Mode::Wcgw => owned("\n# Mode: wcgw\nAll operations are allowed."),
            Mode::Architect => owned(
                "\n# Mode: architect\nOnly read operations are allowed. This mode is designed for planning and understanding code.",
            ),
            Mode::CodeWriter(c) => {
                let mut v: Vec<char> = Vec::new();
                push_str(&mut v, "\n# Mode: code_writer\nAllowed globs: ");
                push_debug_list(&mut v, &c.allowed_globs);
                push_str(&mut v, "\nAllowed commands: ");
                push_debug_list(&mut v, &c.allowed_commands);
                push_str(&mut v, "\nRestricted to specified paths and commands.");
                from_chars(v.as_slice())
            },
        }
    }

    /// The workspace path with a leading "~" taken as the home directory
    /// (when it is known).
    pub fn expand_home(&self, path: &str, home: Option<&str>) -> (r: String)
        ensures
            r@ == match home {
                Some(h) => if path@ == "~"@ {
                    h@
                } else if starts_with(path@, "~/"@) {
                    joined_path(h@, path@.skip(2))
                } else {
                    path@
                },
                None => path@,
            },
    {
        proof {
            reveal_strlit("~/");
        }
        match home {
            Some(h) => {
                if str_eq(path, "~") {
                    owned(h)
                } else if str_starts_with(path, "~/") {
                    let v = to_chars(path);
                    let rest = crate::text::slice_chars(v.as_slice(), 2, v.len());
                    let rest_s = from_chars(rest.as_slice());
                    proof {
                        assert(rest_s@ =~= path@.skip(2));
                    }
                    to_absolute_path(rest_s.as_str(), h)
                } else {
                    owned(path)
                }
            },
            None => owned(path),
        }
    }

    /// A file to read at start: an absolute path as it is, any other under
    /// the workspace.
    pub fn initial_file_path(&self, workspace: &str, file: &str) -> (r: String)
        ensures
            r@ == if starts_with(file@, "/"@) {
                file@
            } else {
                joined_path(workspace@, file@)
            },
    {
        if str_starts_with(file, "/") {
            owned(file)
        } else {
            to_absolute_path(file, workspace)
        }
    }

    /// The project root recorded in a saved task: the rest of the first line
    /// that starts with "# PROJECT ROOT = " (empty when there is none).
    pub open spec fn project_root_of(content: Seq<char>) -> Seq<char> {
        let ls = lines(content);
        if exists|i: int| 0 <= i < ls.len() && starts_with(#[trigger] ls[i], "# PROJECT ROOT = "@) {
            let i = choose|i: int|
                0 <= i < ls.len() && starts_with(#[trigger] ls[i], "# PROJECT ROOT = "@) && forall|k: int|
                    0 <= k < i ==> !starts_with(#[trigger] ls[k], "# PROJECT ROOT = "@);
            ls[i].skip("# PROJECT ROOT = "@.len() as int)
        } else {
            seq![]
        }
    }

    pub fn project_root(&self, content: &str) -> (r: String)
        ensures
            r@ == Self::project_root_of(content@),
    {
        let ls = crate::text::split_lines(content);
        let ghost lv = lines(content@);
        let prefix = to_chars("# PROJECT ROOT = ");
        let mut i: usize = 0;
        while i < ls.len()
            invariant
                i <= ls.len(),
                ls.deep_view() == lv,
                lv == lines(content@),
                prefix@ == "# PROJECT ROOT = "@,
                forall|k: int| 0 <= k < i ==> !starts_with(#[trigger] lv[k], "# PROJECT ROOT = "@),
            decreases ls.len() - i,
        {
            proof {
                assert(ls.deep_view()[i as int] == ls@[i as int]@);
            }
            let line = to_chars(ls[i].as_str());
            if crate::text::starts_with_chars(line.as_slice(), prefix.as_slice()) {
                let rest = crate::text::slice_chars(line.as_slice(), prefix.len(), line.len());
                proof {
                    let c = choose|c: int|
                        0 <= c < lv.len() && starts_with(#[trigger] lv[c], "# PROJECT ROOT = "@) && forall|k: int|
                            0 <= k < c ==> !starts_with(#[trigger] lv[k], "# PROJECT ROOT = "@);
                    if c < i {
                    } else if c > i {
                        assert(!starts_with(lv[i as int], "# PROJECT ROOT = "@));
                    }
                    assert(rest@ =~= lv[i as int].skip("# PROJECT ROOT = "@.len() as int));
                }
                return from_chars(rest.as_slice());
            }
            i += 1;
        }
        String::new()
    }

    /// The first `n` lines of `content`, joined by newlines.
    pub fn first_lines(&self, content: &str, n: usize) -> (r: String)
        ensures
            r@ == join(lines(content@).take(if n < lines(content@).len() {
                n as int
            } else {
                lines(content@).len() as int
            }), "\n"@),
    {
        let mut ls = crate::text::split_lines(content);
        let ghost full = ls.deep_view();
        ls.truncate(n);
        proof {
            assert(ls.deep_view() =~= full.take(if n < full.len() {
                n as int
            } else {
                full.len() as int
            }));
            reveal_strlit("\n");
            assert(crate::text::nl() =~= "\n"@);
            assert(ls@.map_values(|s: String| s@) =~= ls.deep_view());
        }
        crate::text::join_lines(ls.as_slice())
    }

    /// The text on the task to resume: the loaded context (project root and
    /// its first ten lines), or why it could not be loaded.
    pub fn memory_text(&self, task_id: &str, loaded: Option<Result<&str, &str>>) -> (r: String)
        ensures
            task_id@.len() == 0 ==> r@ == "No task to resume"@,
            task_id@.len() > 0 ==> r@ == match loaded {
                None => "Task "@ + task_id@ + " not found"@,
                Some(Err(e)) => "Failed to load task "@ + task_id@ + ": "@ + e@,
                Some(Ok(c)) => "Resuming task: "@ + task_id@ + "\n\nTask context loaded. Project root: "@
                    + Self::project_root_of(c@) + "\n\n"@ + join(lines(c@).take(if 10 < lines(c@).len() {
                    10
                } else {
                    lines(c@).len() as int
                }), "\n"@),
            },
    {
        if task_id.is_empty() {
            return owned("No task to resume");
        }
        let mut v: Vec<char> = Vec::new();
        match loaded {
            None => {
                push_str(&mut v, "Task ");
                push_str(&mut v, task_id);
                push_str(&mut v, " not found");
            },
            Some(Err(e)) => {
                push_str(&mut v, "Failed to load task ");
                push_str(&mut v, task_id);
                push_str(&mut v, ": ");
                push_str(&mut v, e);
            },
            Some(Ok(c)) => {
                push_str(&mut v, "Resuming task: ");
                push_str(&mut v, task_id);
                push_str(&mut v, "\n\nTask context loaded. Project root: ");
                let root = self.project_root(c);
                push_str(&mut v, root.as_str());
                push_str(&mut v, "\n\n");
                let head = self.first_lines(c, 10);
                push_str(&mut v, head.as_str());
            },
        }
        from_chars(v.as_slice())
    }

    /// The section on one file read at start: its content, the error that
    /// stopped the read, or that it does not exist.
    pub fn initial_file_section(&self, path: &str, read: Option<Result<&str, &str>>) -> (r: String)
        ensures
            r@ == match read {
                Some(Ok(c)) => "\n## "@ + path@ + "\n```\n"@ + c@ + "\n```\n"@,
                Some(Err(e)) => "\n## "@ + path@ + "\nError reading file: "@ + e@ + "\n"@,
                None => "\n## "@ + path@ + "\nFile does not exist\n"@,
            },
    {
        let mut v: Vec<char> = Vec::new();
        push_str(&mut v, "\n## ");
        push_str(&mut v, path);
        match read {
            Some(Ok(c)) => {
                push_str(&mut v, "\n```\n");
                push_str(&mut v, c);
                push_str(&mut v, "\n```\n");
            },
            Some(Err(e)) => {
                push_str(&mut v, "\nError reading file: ");
                push_str(&mut v, e);
                push_str(&mut v, "\n");
            },
            None => {
                push_str(&mut v, "\nFile does not exist\n");
            },
        }
        from_chars(v.as_slice())
    }

    /// The section listing recently changed files (empty when there are
    /// none).
    pub fn recent_files_section(&self, paths: &Vec<String>) -> (r: String)
        ensures
            paths@.len() == 0 ==> r@.len() == 0,
            paths@.len() > 0 ==> r@ == "\n# Recent files\n"@ + join(
                paths@.map_values(|p: String| "- "@ + p@),
                "\n"@,
            ),
    {
        if paths.len() == 0 {
            return String::new();
        }
        let mut items: Vec<String> = Vec::new();
        let mut i: usize = 0;
        while i < paths.len()
            invariant
                i <= paths.len(),
                items.deep_view() =~= paths@.map_values(|p: String| "- "@ + p@).take(i as int),
            decreases paths.len() - i,
        {
            let mut v: Vec<char> = Vec::new();
            push_str(&mut v, "- ");
            push_str(&mut v, paths[i].as_str());
            let item = from_chars(v.as_slice());
            let ghost before = items.deep_view();
            items.push(item);
            proof {
                assert(items.deep_view() =~= before.push(item@));
            }
            i += 1;
        }
        let joined = crate::text::join_lines(items.as_slice());
        proof {
            assert(items.deep_view() =~= paths@.map_values(|p: String| "- "@ + p@));
            assert(items@.map_values(|s: String| s@) =~= items.deep_view());
            reveal_strlit("\n");
            assert(crate::text::nl() =~= "\n"@);
        }
        let mut v: Vec<char> = Vec::new();
        push_str(&mut v, "\n# Recent files\n");
        push_str(&mut v, joined.as_str());
        from_chars(v.as_slice())
    }

    /// The whole answer of a successful start.
    pub fn initialized_text(
        &self,
        mode_name: &str,
        repo_context: &str,
        recent_files: &str,
        initial_files: &str,
        mode_info: &str,
        memory: &str,
        system_info: &str,
    ) -> (r: String)
        ensures
            r@ == "Initialized with mode: "@ + mode_name@ + "\n"@ + repo_context@ + "\n"@ + recent_files@
                + initial_files@ + mode_info@ + memory@ + instructions_text() + "\n"@ + system_info@,
    {
        let mut v: Vec<char> = Vec::new();
        push_str(&mut v, "Initialized with mode: ");
        push_str(&mut v, mode_name);
        push_str(&mut v, "\n");
        push_str(&mut v, repo_context);
        push_str(&mut v, "\n");
        push_str(&mut v, recent_files);
        push_str(&mut v, initial_files);
        push_str(&mut v, mode_info);
        push_str(&mut v, memory);
        push_str(
            &mut v,
            "\n\n---\n\nAdditional instructions:\n    Always run `pwd` if you get any file or directory not found error to make sure you're not lost, or to get absolute cwd.\n\n    Always write production ready, syntactically correct code.\n",
        );
        push_str(&mut v, "\n");
        push_str(&mut v, system_info);
        from_chars(v.as_slice())
    }
}

/// The instructions that close every start.
pub open spec fn instructions_text() -> Seq<char> {
    "\n\n---\n\nAdditional instructions:\n    Always run `pwd` if you get any file or directory not found error to make sure you're not lost, or to get absolute cwd.\n\n    Always write production ready, syntactically correct code.\n"@
}

/// A place tried as the workspace when the asked one could not be created.
#[derive(Debug, Clone)]
pub enum WorkspaceCandidate {
    /// A new directory `dir` under `base`, tried where `base` exists and
    /// can be written to; `alternative` for the one under `TMPDIR`.
    Temporary { base: String, dir: String, alternative: bool },
    /// The current directory (else the home directory, else "."), where it
    /// exists.
    Current,
}

/// The temporary workspace under `base` for the id `unique`.
pub open spec fn temp_workspace(base: Seq<char>, unique: Seq<char>) -> Seq<char> {
    joined_path(base, "winx-workspace-"@ + unique)
}

/// Whether a failure to create the workspace makes it look elsewhere:
/// permission denied, a read-only file system, or an uncategorised kind.
pub open spec fn workspace_falls_back(kind: FsErrorKind) -> bool {
    kind is PermissionDenied || kind is ReadOnlyFilesystem || kind is Other
}

impl Initialize {
    /// The first place to try once creating the asked workspace failed with
    /// `kind`: a new directory under /tmp, or nowhere where the failure is
    /// not one that makes it look elsewhere.
    pub fn first_workspace_candidate(&self, kind: FsErrorKind, unique: &str) -> (r: Option<WorkspaceCandidate>)
        ensures
            workspace_falls_back(kind) ==> (r matches Some(WorkspaceCandidate::Temporary { base, dir, alternative })
                && base@ == "/tmp"@ && dir@ == temp_workspace("/tmp"@, unique@) && !alternative),
            !workspace_falls_back(kind) ==> r is None,
    {
        match kind {
            FsErrorKind::Different => None,
            _ => Some(WorkspaceCandidate::Temporary {
                base: owned("/tmp"),
                dir: temp_dir_in("/tmp", unique),
                alternative: false,
            }),
        }
    }

    /// The next place to try once `failed` could not be used.
    /// `base_usable` says whether its base existed and could be written to:
    /// only when /tmp could but the directory in it could not be made is the
    /// one under `tmp_env` (the `TMPDIR` setting) tried; otherwise, and after
    /// that one, the current directory; after it, nothing.
    pub fn next_workspace_candidate(
        &self,
        failed: &WorkspaceCandidate,
        base_usable: bool,
        tmp_env: Option<&str>,
        unique: &str,
    ) -> (r: Option<WorkspaceCandidate>)
        ensures
            match *failed {
                WorkspaceCandidate::Temporary { alternative: false, .. } => match tmp_env {
                    Some(t) if base_usable => r matches Some(WorkspaceCandidate::Temporary { base, dir, alternative })
                        && base@ == t@ && dir@ == temp_workspace(t@, unique@) && alternative,
                    _ => r matches Some(WorkspaceCandidate::Current),
                },
                WorkspaceCandidate::Temporary { alternative: true, .. } => r matches Some(WorkspaceCandidate::Current),
                WorkspaceCandidate::Current => r is None,
            },
    {
        match failed {
            WorkspaceCandidate::Temporary { alternative, .. } => {
                if !*alternative && base_usable {
                    match tmp_env {
                        Some(t) => {
                            return Some(WorkspaceCandidate::Temporary {
                                base: owned(t),
                                dir: temp_dir_in(t, unique),
                                alternative: true,
                            });
                        },
                        None => {},
                    }
                }
                Some(WorkspaceCandidate::Current)
            },
            WorkspaceCandidate::Current => None,
        }
    }

    /// The answer once `dir`, found as `used`, stands in for the asked
    /// workspace, which failed with `error` of kind `kind_text`.
    pub fn workspace_fallback_text(
        &self,
        used: &WorkspaceCandidate,
        asked: &str,
        error: &str,
        kind_text: &str,
        dir: &str,
    ) -> (r: String)
        ensures
            r@ == "Warning: Failed to create or access directory '"@ + asked@ + "': "@ + error@ + match *used {
                WorkspaceCandidate::Temporary { alternative: false, .. } => " ("@ + kind_text@
                    + "). Using temporary workspace at '"@,
                WorkspaceCandidate::Temporary { alternative: true, .. } => ". Using alternative temporary workspace at '"@,
                WorkspaceCandidate::Current => ". Using '"@,
            } + dir@ + "' instead.\n\nPlease specify a different workspace path with write permissions."@,
    {
        let mut v: Vec<char> = Vec::new();
        push_str(&mut v, "Warning: Failed to create or access directory '");
        push_str(&mut v, asked);
        push_str(&mut v, "': ");
        push_str(&mut v, error);
        match used {
            WorkspaceCandidate::Temporary { alternative, .. } => {
                if *alternative {
                    push_str(&mut v, ". Using alternative temporary workspace at '");
                } else {
                    push_str(&mut v, " (");
                    push_str(&mut v, kind_text);
                    push_str(&mut v, "). Using temporary workspace at '");
                }
            },
            WorkspaceCandidate::Current => {
                push_str(&mut v, ". Using '");
            },
        }
        push_str(&mut v, dir);
        push_str(&mut v, "' instead.\n\nPlease specify a different workspace path with write permissions.");
        from_chars(v.as_slice())
    }
}

fn temp_dir_in(base: &str, unique: &str) -> (r: String)
    ensures
        r@ == temp_workspace(base@, unique@),
{
    let mut v: Vec<char> = Vec::new();
    push_str(&mut v, "winx-workspace-");
    push_str(&mut v, unique);
    let name = from_chars(v.as_slice());
    to_absolute_path(name.as_str(), base)
}

impl Default for Initialize {
    fn default() -> (r: Self)
        ensures
            r.mode() is Wcgw,
            r.workspace() == "."@,
            !r.initialized(),
    {
        Self::new()
    }
}


/// In wcgw mode the mode lets every action through, on any path.
pub proof fn law_wcgw_allows_everything(mode: Mode, action: Action, path: Option<Seq<char>>)
    requires
        mode is Wcgw,
    ensures
        mode_allows(mode, action, path) == Some(true),
{
}

/// Architect mode lets reading through and nothing else.
pub proof fn law_architect_only_reads(mode: Mode, action: Action, path: Option<Seq<char>>)
    requires
        mode is Architect,
    ensures
        mode_allows(mode, action, path) == Some(true) <==> (action == Action::ReadFile || action
            == Action::ReadImage),
        mode_allows(mode, action, path) != Some(false),
{
}

/// Code-writer mode always lets reading and saving the context through, and
/// refuses a write or an edit without a path.
pub proof fn law_code_writer_reads_and_needs_paths(mode: Mode, action: Action, path: Option<Seq<char>>)
    requires
        mode is CodeWriter,
    ensures
        (action == Action::ReadFile || action == Action::ReadImage || action == Action::SaveContext)
            ==> mode_allows(mode, action, path) == Some(true),
        (action == Action::WriteFile || action == Action::EditFile) && path is None ==> mode_allows(
            mode,
            action,
            path,
        ) == Some(false),
{
}

/// In code-writer mode a write or an edit of a path is let through as
/// soon as one allowed glob parses and matches the path, whether or not
/// "all" is listed; where no allowed glob matches it and "all" is not
/// listed, it is refused.
pub proof fn law_code_writer_writes_where_a_glob_matches(
    config: CodeWriterConfig,
    action: Action,
    p: Seq<char>,
    i: int,
)
    requires
        action == Action::WriteFile || action == Action::EditFile,
    ensures
        (0 <= i < config.allowed_globs@.len() && glob_match(config.allowed_globs@[i]@, p) == Some(true))
            ==> mode_allows(Mode::CodeWriter(config), action, Some(p)) == Some(true),
        (forall|j: int| 0 <= j < config.allowed_globs@.len() ==> glob_match(
            #[trigger] config.allowed_globs@[j]@,
            p,
        ) != Some(true) && config.allowed_globs@[j]@ != "all"@) ==> mode_allows(
            Mode::CodeWriter(config),
            action,
            Some(p),
        ) is None,
{
    if 0 <= i < config.allowed_globs@.len() && glob_match(config.allowed_globs@[i]@, p) == Some(true) {
        assert(some_glob_matches(config.allowed_globs@, p));
    }
}

} // verus!

