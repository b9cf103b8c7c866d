//! The shell tool: the requests it takes, and every decision and text of
//! running one. Starting the shell, sending to it, waiting and reading its
//! output happen outside the library.
use vstd::prelude::*;
use crate::error::WinxError;
use crate::text::{
    contains, from_chars, join, owned, push_chars, push_str, starts_with, str_contains,
    str_eq, str_starts_with, to_chars, trim, trim_chars,
};

verus! {

/// The shell tool. Its state (the running shell) is kept outside.
#[derive(Debug, Clone, Copy)]
pub struct BashCommand {}

/// Run a command.
#[derive(Debug, Clone)]
pub struct CommandRequest {
    /// Command to execute
    pub command: String,
}

/// Ask whether the running command is still running.
#[derive(Debug, Clone)]
pub struct StatusCheckRequest {
    /// Check status of running command
    pub status_check: bool,
}

/// Type text into the running process.
#[derive(Debug, Clone)]
pub struct SendTextRequest {
    /// Text to send
    pub send_text: String,
}

/// Press special keys.
#[derive(Debug, Clone)]
pub struct SendSpecialsRequest {
    /// Special keys to send
    pub send_specials: Vec<String>,
}

/// Act on a screen session.
#[derive(Debug, Clone)]
pub struct ScreenActionRequest {
    /// Screen action to perform (attach, detach, content, list)
    pub screen_action: String,
    /// Optional screen session name
    pub session_name: Option<String>,
}

/// One request to the shell tool.
#[derive(Debug, Clone)]
pub enum ActionJson {
    Command(CommandRequest),
    StatusCheck(StatusCheckRequest),
    SendText(SendTextRequest),
    SendSpecials(SendSpecialsRequest),
    SendAscii { send_ascii: Vec<i32> },
    ScreenAction(ScreenActionRequest),
}

/// The state of the process in the shell.
#[derive(Debug, Clone, Copy, PartialEq, Eq, Structural)]
pub enum ProcessStatus {
    Running,
    Exited(i32),
    NotRunning,
}

/// What pressing a special key does.
#[derive(Debug, Clone, PartialEq, Eq)]
pub enum KeyAction {
    /// Interrupt the process.
    Interrupt,
    /// Send these characters.
    Send(String),
}

/// The screen actions.
#[derive(Debug, Clone, Copy, PartialEq, Eq, Structural)]
pub enum ScreenCommand {
    Attach,
    Detach,
    Content,
    List,
    Unknown,
}

// ---------------------------------------------------------------------------
// Text helpers
// ---------------------------------------------------------------------------

/// The first position at which `p` occurs in `s`.
#[verifier::opaque]
pub open spec fn first_occurrence(s: Seq<char>, p: Seq<char>) -> Option<int> {
    if exists|i: int| 0 <= i && i + p.len() <= s.len() && #[trigger] s.subrange(i, i + p.len()) == p {
        Some(choose|i: int|
            0 <= i && i + p.len() <= s.len() && #[trigger] s.subrange(i, i + p.len()) == p && forall|k: int|
                0 <= k < i ==> #[trigger] s.subrange(k, k + p.len()) != p)
    } else {
        None
    }
}

/// `s` without its leading `c`s (`trim_start_matches(c)`).
pub open spec fn strip_start(s: Seq<char>, c: char) -> Seq<char>
    decreases s.len(),
{
    if s.len() > 0 && s[0] == c {
        strip_start(s.drop_first(), c)
    } else {
        s
    }
}

/// `s` without its trailing `c`s (`trim_end_matches(c)`).
pub open spec fn strip_end(s: Seq<char>, c: char) -> Seq<char>
    decreases s.len(),
{
    if s.len() > 0 && s.last() == c {
        strip_end(s.drop_last(), c)
    } else {
        s
    }
}

/// `s` without its leading copies of `p` (`trim_start_matches(p)`).
pub open spec fn strip_prefix_repeated(s: Seq<char>, p: Seq<char>) -> Seq<char>
    decreases s.len(),
{
    if p.len() > 0 && starts_with(s, p) {
        strip_prefix_repeated(s.skip(p.len() as int), p)
    } else {
        s
    }
}

pub(crate) fn find_first(s: &[char], p: &[char]) -> (r: Option<usize>)
    requires
        p@.len() >= 1,
    ensures
        r matches Some(i) ==> Some(i as int) == first_occurrence(s@, p@) && i + p@.len() <= s@.len(),
        r is None ==> first_occurrence(s@, p@) is None,
{
    reveal(first_occurrence);
    if p.len() > s.len() {
        proof {
            assert(!exists|i: int| 0 <= i && i + p@.len() <= s@.len() && #[trigger] s@.subrange(i, i + p@.len()) == p@);
        }
        return None;
    }
    let last = s.len() - p.len();
    let mut i: usize = 0;
    while i <= last
        invariant
            p.len() <= s.len(),
            p@.len() >= 1,
            last == s.len() - p.len(),
            last < usize::MAX,
            i <= last + 1,
            forall|k: int| 0 <= k < i ==> #[trigger] s@.subrange(k, k + p@.len()) != p@,
        decreases last + 1 - i,
    {
        if crate::text::occurs_at_exec(s, p, i) {
            proof {
                reveal(first_occurrence);
                assert(s@.subrange(i as int, i + p@.len()) =~= p@);
                let c = choose|c: int|
                    0 <= c && c + p@.len() <= s@.len() && #[trigger] s@.subrange(c, c + p@.len()) == p@
                        && forall|k: int| 0 <= k < c ==> #[trigger] s@.subrange(k, k + p@.len()) != p@;
                if c < i {
                } else if c > i {
                    assert(s@.subrange(i as int, i + p@.len()) != p@);
                }
            }
            return Some(i);
        }
        proof {
            assert(s@.subrange(i as int, i + p@.len()) != p@) by {
                if s@.subrange(i as int, i + p@.len()) == p@ {
                    assert(crate::text::occurs_at(s@, p@, i as int));
                }
            }
        }
        i += 1;
    }
    proof {
        assert forall|k: int| 0 <= k && k + p@.len() <= s@.len() implies #[trigger] s@.subrange(k, k + p@.len()) != p@ by {
            assert(k < i);
        }
    }
    None
}

fn strip_start_chars(s: &[char], c: char) -> (r: Vec<char>)
    ensures
        r@ == strip_start(s@, c),
{
    let mut i: usize = 0;
    proof {
        assert(s@.skip(0) =~= s@);
    }
    while i < s.len() && s[i] == c
        invariant
            i <= s.len(),
            strip_start(s@, c) == strip_start(s@.skip(i as int), c),
        decreases s.len() - i,
    {
        proof {
            assert(s@.skip(i as int).drop_first() =~= s@.skip(i + 1));
        }
        i += 1;
    }
    crate::text::slice_chars(s, i, s.len())
}

fn strip_end_chars(s: &[char], c: char) -> (r: Vec<char>)
    ensures
        r@ == strip_end(s@, c),
{
    let mut n: usize = s.len();
    proof {
        assert(s@.take(n as int) =~= s@);
    }
    while n > 0 && s[n - 1] == c
        invariant
            n <= s.len(),
            strip_end(s@, c) == strip_end(s@.take(n as int), c),
        decreases n,
    {
        proof {
            assert(s@.take(n as int).drop_last() =~= s@.take(n - 1));
        }
        n -= 1;
    }
    crate::text::slice_chars(s, 0, n)
}

// ---------------------------------------------------------------------------
// Commands that need a terminal
// ---------------------------------------------------------------------------

/// Interactive programs.
pub open spec fn interactive_commands() -> Seq<Seq<char>> {
    seq![
        "vim"@,
        "vi"@,
        "nano"@,
        "emacs"@,
        "less"@,
        "more"@,
        "top"@,
        "htop"@,
        "screen -"@,
        "tmux"@,
        "lynx"@,
        "mc"@,
        "ssh"@,
        "telnet"@,
    ]
}

/// `command` names `cmd` at its start, between spaces, or after `;` or `|`.
pub open spec fn names_program(command: Seq<char>, cmd: Seq<char>) -> bool {
    contains(command, " "@ + cmd + " "@) || starts_with(command, cmd) || contains(command, "; "@ + cmd)
        || contains(command, "| "@ + cmd)
}

/// `a` and `b` as one text.
fn concat2(a: &str, b: &str) -> (r: String)
    ensures
        r@ == a@ + b@,
{
    let mut v: Vec<char> = Vec::new();
    push_str(&mut v, a);
    push_str(&mut v, b);
    from_chars(v.as_slice())
}

/// Appends `a`, `b` and `c` into one text.
fn concat3(a: &str, b: &str, c: &str) -> (r: String)
    ensures
        r@ == a@ + b@ + c@,
{
    let mut v: Vec<char> = Vec::new();
    push_str(&mut v, a);
    push_str(&mut v, b);
    push_str(&mut v, c);
    from_chars(v.as_slice())
}

impl BashCommand {
    pub fn new() -> (r: Self) {
        BashCommand {}
    }

    /// Check if a command requires terminal access: it names one of the
    /// interactive programs.
    pub fn command_requires_terminal(&self, command: &str) -> (b: bool)
        ensures
            b == exists|i: int|
                0 <= i < interactive_commands().len() && names_program(command@, #[trigger] interactive_commands()[i]),
    {
        let list: Vec<&'static str> = vec![
            "vim", "vi", "nano", "emacs", "less", "more", "top", "htop", "screen -", "tmux", "lynx", "mc", "ssh",
            "telnet",
        ];
        proof {
            assert(list@.map_values(|e: &str| e@) =~= interactive_commands());
        }
        let mut i: usize = 0;
        while i < list.len()
            invariant
                i <= list.len(),
                list@.map_values(|e: &str| e@) == interactive_commands(),
                forall|j: int| 0 <= j < i ==> !names_program(command@, #[trigger] interactive_commands()[j]),
            decreases list.len() - i,
        {
            let cmd = list[i];
            proof {
                assert(cmd@ == interactive_commands()[i as int]);
            }
            let between = concat3(" ", cmd, " ");
            let after_semi = concat2("; ", cmd);
            let after_pipe = concat2("| ", cmd);
            if str_contains(command, between.as_str()) || str_starts_with(command, cmd) || str_contains(
                command,
                after_semi.as_str(),
            ) || str_contains(command, after_pipe.as_str()) {
                return true;
            }
            i += 1;
        }
        false
    }

    /// The command text of a request written loosely as JSON: what follows
    /// the first `:` after the first "command", up to the next `,` (or else
    /// `}`), trimmed and stripped of surrounding quotes; `None` when there
    /// is no such `:`.
    pub open spec fn loose_command(json: Seq<char>) -> Option<Seq<char>> {
        match first_occurrence(json, "command"@) {
            None => None,
            Some(a) => match first_occurrence(json.skip(a), ":"@) {
                None => None,
                Some(b) => {
                    let raw = loose_value(json.skip(a + b + 1));
                    Some(strip_end(strip_end(strip_start(strip_start(raw, '"'), '\''), '"'), '\''))
                },
            },
        }
    }

    /// The script that runs `cmd` from the file `script`.
    pub open spec fn script_command(cmd: Seq<char>, script: Seq<char>) -> Seq<char> {
        "cat > "@ + script + " << 'WINX_SCRIPT_EOF'\n"@ + cmd + "\nWINX_SCRIPT_EOF\nchmod +x "@ + script
            + "\n"@ + script
    }

    /// Reads a command out of loosely written JSON, as
    /// `handle_complex_command_as` does with a fresh random script id.
    pub fn handle_complex_command(&self, command_json: &str) -> (r: Result<ActionJson, WinxError>)
        ensures
            exists|id: Seq<char>|
                id.len() == 36 && match Self::loose_command(command_json@) {
                    None => r matches Err(WinxError::ParseError { message }) && message@
                        == "Could not parse complex command: "@ + command_json@,
                    Some(c) => r matches Ok(ActionJson::Command(req)) && req.command@ == if contains(c, ">"@)
                        || contains(c, "'"@) {
                        Self::script_command(c, "/tmp/winx-cmd-"@ + id + ".sh"@)
                    } else {
                        c
                    },
                },
    {
        let id = crate::diff::checkpoint::new_uuid();
        self.handle_complex_command_as(command_json, id.as_str())
    }

    /// Reads a command out of loosely written JSON. A command with a
    /// redirection or a single quote is written into the script file
    /// `/tmp/winx-cmd-{script_id}.sh` and run from there.
    pub fn handle_complex_command_as(&self, command_json: &str, script_id: &str) -> (r: Result<ActionJson, WinxError>)
        ensures
            match Self::loose_command(command_json@) {
                None => r matches Err(WinxError::ParseError { message }) && message@
                    == "Could not parse complex command: "@ + command_json@,
                Some(c) => r matches Ok(ActionJson::Command(req)) && req.command@ == if contains(c, ">"@)
                    || contains(c, "'"@) {
                    Self::script_command(c, "/tmp/winx-cmd-"@ + script_id@ + ".sh"@)
                } else {
                    c
                },
            },
    {
        let cleaned = match loose_command_exec(command_json) {
            Some(c) => c,
            None => {
                let mut v: Vec<char> = Vec::new();
                push_str(&mut v, "Could not parse complex command: ");
                push_str(&mut v, command_json);
                return Err(WinxError::ParseError { message: from_chars(v.as_slice()) });
            },
        };
        let gt = to_chars(">");
        let quote = to_chars("'");
        if crate::text::contains_chars(cleaned.as_slice(), gt.as_slice()) || crate::text::contains_chars(
            cleaned.as_slice(),
            quote.as_slice(),
        ) {
            let mut script: Vec<char> = Vec::new();
            push_str(&mut script, "/tmp/winx-cmd-");
            push_str(&mut script, script_id);
            push_str(&mut script, ".sh");
            let mut v: Vec<char> = Vec::new();
            push_str(&mut v, "cat > ");
            push_chars(&mut v, script.as_slice());
            push_str(&mut v, " << 'WINX_SCRIPT_EOF'\n");
            push_chars(&mut v, cleaned.as_slice());
            push_str(&mut v, "\nWINX_SCRIPT_EOF\nchmod +x ");
            push_chars(&mut v, script.as_slice());
            push_str(&mut v, "\n");
            push_chars(&mut v, script.as_slice());
            return Ok(ActionJson::Command(CommandRequest { command: from_chars(v.as_slice()) }));
        }
        Ok(ActionJson::Command(CommandRequest { command: from_chars(cleaned.as_slice()) }))
    }

    /// Rust tooling gets a longer wait: the command names cargo or clippy.
    pub fn uses_rust_tooling(&self, command: &str) -> (b: bool)
        ensures
            b == (contains(command@, "cargo"@) || contains(command@, "clippy"@)),
    {
        str_contains(command, "cargo") || str_contains(command, "clippy")
    }

    /// Commands that are run again directly when they printed nothing: those
    /// naming ls, find, cat, cargo or clippy.
    pub fn is_common_command(&self, command: &str) -> (b: bool)
        ensures
            b == (contains(command@, "ls"@) || contains(command@, "find"@) || contains(command@, "cat"@)
                || contains(command@, "cargo"@) || contains(command@, "clippy"@)),
    {
        str_contains(command, "ls") || str_contains(command, "find") || str_contains(command, "cat")
            || str_contains(command, "cargo") || str_contains(command, "clippy")
    }

    /// The warning put before the output of a command that may need a
    /// terminal.
    pub fn terminal_warning(&self, command: &str) -> (r: String)
        ensures
            r@ == "Warning: Command '"@ + command@
                + "' may require an interactive terminal and might not work correctly.\n\n"@,
    {
        concat3(
            "Warning: Command '",
            command,
            "' may require an interactive terminal and might not work correctly.\n\n",
        )
    }

    /// The usual answer: standard output, standard error, and the status.
    pub fn output_text(&self, stdout: &str, stderr: &str, status_info: &str) -> (r: String)
        ensures
            r@ == stdout@ + "\n"@ + stderr@ + "\n\n"@ + status_info@,
    {
        let mut v: Vec<char> = Vec::new();
        push_str(&mut v, stdout);
        push_str(&mut v, "\n");
        push_str(&mut v, stderr);
        push_str(&mut v, "\n\n");
        push_str(&mut v, status_info);
        from_chars(v.as_slice())
    }

    /// The status line of a status check.
    pub open spec fn status_text(status: ProcessStatus) -> Seq<char> {
        match status {
            ProcessStatus::Running => "status = still running"@,
            ProcessStatus::Exited(code) => "status = process exited with code "@ + signed_decimal(code as int),
            ProcessStatus::NotRunning => "No running command to check status of"@,
        }
    }

    /// The answer to a status check: any output first, then the status and
    /// the working directory.
    pub fn status_check_text(&self, status: ProcessStatus, stdout: &str, stderr: &str, cwd: &str) -> (r: String)
        ensures
            r@ == if stdout@.len() > 0 || stderr@.len() > 0 {
                stdout@ + "\n"@ + stderr@ + "\n\n"@ + Self::status_text(status) + "\ncwd = "@ + cwd@
            } else {
                Self::status_text(status) + "\ncwd = "@ + cwd@
            },
    {
        let mut v: Vec<char> = Vec::new();
        if !stdout.is_empty() || !stderr.is_empty() {
            push_str(&mut v, stdout);
            push_str(&mut v, "\n");
            push_str(&mut v, stderr);
            push_str(&mut v, "\n\n");
        }
        match status {
            ProcessStatus::Running => push_str(&mut v, "status = still running"),
            ProcessStatus::Exited(code) => {
                push_str(&mut v, "status = process exited with code ");
                push_signed(&mut v, code);
            },
            ProcessStatus::NotRunning => push_str(&mut v, "No running command to check status of"),
        }
        push_str(&mut v, "\ncwd = ");
        push_str(&mut v, cwd);
        from_chars(v.as_slice())
    }

    /// What pressing the named special key does, and how the answer names
    /// it; other names are refused.
    pub fn special_key(&self, name: &str) -> (r: Result<(KeyAction, &'static str), WinxError>)
        ensures
            match key_effect(name@) {
                Some((effect, label)) => (r matches Ok((k, l)) && l@ == label && match effect {
                    None => k == KeyAction::Interrupt,
                    Some(t) => (k matches KeyAction::Send(x) && x@ == t),
                }),
                None => (r matches Err(WinxError::InvalidArgument { message }) && message@
                    == "Unsupported special key: "@ + name@
                    + ". Supported keys: Ctrl-c, Ctrl-d, Enter, Key-up, Key-down, Key-left, Key-right"@),
            },
    {
        let send = |cs: &[char]| -> (k: KeyAction)
            ensures
                k matches KeyAction::Send(t) && t@ == cs@,
        { KeyAction::Send(from_chars(cs)) };
        if str_eq(name, "Ctrl-c") {
            Ok((KeyAction::Interrupt, "Ctrl-c"))
        } else if str_eq(name, "Enter") {
            Ok((send(&['\n']), "Enter"))
        } else if str_eq(name, "Key-up") {
            Ok((send(&['\x1b', '[', 'A']), "↑"))
        } else if str_eq(name, "Key-down") {
            Ok((send(&['\x1b', '[', 'B']), "↓"))
        } else if str_eq(name, "Key-left") {
            Ok((send(&['\x1b', '[', 'D']), "←"))
        } else if str_eq(name, "Key-right") {
            Ok((send(&['\x1b', '[', 'C']), "→"))
        } else if str_eq(name, "Ctrl-d") {
            Ok((send(&['\x04']), "Ctrl-d"))
        } else {
            let mut v: Vec<char> = Vec::new();
            push_str(&mut v, "Unsupported special key: ");
            push_str(&mut v, name);
            push_str(&mut v, ". Supported keys: Ctrl-c, Ctrl-d, Enter, Key-up, Key-down, Key-left, Key-right");
            Err(WinxError::InvalidArgument { message: from_chars(v.as_slice()) })
        }
    }

    /// The answer after special keys: the keys sent (when any), then the
    /// usual output.
    pub fn keys_output_text(&self, labels: &Vec<&str>, stdout: &str, stderr: &str, status_info: &str) -> (r: String)
        ensures
            r@ == (if labels@.len() > 0 {
                "Sent keys: "@ + join(labels@.map_values(|l: &str| l@), ", "@) + "\n\n"@
            } else {
                seq![]
            }) + stdout@ + "\n"@ + stderr@ + "\n\n"@ + status_info@,
    {
        let mut v: Vec<char> = Vec::new();
        if labels.len() > 0 {
            push_str(&mut v, "Sent keys: ");
            let ghost ls = labels@.map_values(|l: &str| l@);
            let ghost start = v@;
            let mut i: usize = 0;
            while i < labels.len()
                invariant
                    i <= labels.len(),
                    ls == labels@.map_values(|l: &str| l@),
                    v@ == start + join(ls.take(i as int), ", "@),
                decreases labels.len() - i,
            {
                proof {
                    assert(ls.take(i + 1).drop_last() =~= ls.take(i as int));
                    assert(ls.take(i + 1).last() == labels@[i as int]@);
                }
                if i > 0 {
                    push_str(&mut v, ", ");
                }
                push_str(&mut v, labels[i]);
                i += 1;
                proof {
                    if i == 1 {
                        assert(join(ls.take(1), ", "@) == ls.take(1)[0]);
                    }
                    assert(v@ =~= start + join(ls.take(i as int), ", "@));
                }
            }
            proof {
                assert(ls.take(labels.len() as int) =~= ls);
            }
            push_str(&mut v, "\n\n");
        }
        push_str(&mut v, stdout);
        push_str(&mut v, "\n");
        push_str(&mut v, stderr);
        push_str(&mut v, "\n\n");
        push_str(&mut v, status_info);
        from_chars(v.as_slice())
    }

    /// The character for a code sent with `send_ascii`: the code taken as
    /// an unsigned 32-bit number, a space when that is no character.
    pub fn ascii_char(&self, code: i32) -> (c: char)
        ensures
            valid_scalar(unsigned_of(code)) ==> c as int == unsigned_of(code),
            !valid_scalar(unsigned_of(code)) ==> c == ' ',
    {
        let u: u32 = if code >= 0 {
            code as u32
        } else {
            (code as i64 + 4294967296i64) as u32
        };
        match char_from_u32(u) {
            Some(c) => c,
            None => ' ',
        }
    }

    /// The screen action named by `action`.
    pub fn screen_command(&self, action: &str) -> (r: ScreenCommand)
        ensures
            r == if action@ == "attach"@ {
                ScreenCommand::Attach
            } else if action@ == "detach"@ {
                ScreenCommand::Detach
            } else if action@ == "content"@ {
                ScreenCommand::Content
            } else if action@ == "list"@ {
                ScreenCommand::List
            } else {
                ScreenCommand::Unknown
            },
    {
        if str_eq(action, "attach") {
            ScreenCommand::Attach
        } else if str_eq(action, "detach") {
            ScreenCommand::Detach
        } else if str_eq(action, "content") {
            ScreenCommand::Content
        } else if str_eq(action, "list") {
            ScreenCommand::List
        } else {
            ScreenCommand::Unknown
        }
    }

    /// The answer to an unknown screen action.
    pub fn unknown_screen_action_text(&self, action: &str) -> (r: String)
        ensures
            r@ == "Unknown screen action: "@ + action@ + ". Supported actions: attach, detach, content, list"@,
    {
        concat3("Unknown screen action: ", action, ". Supported actions: attach, detach, content, list")
    }

    /// The answer listing the screen sessions and the current one.
    pub fn session_list_text(&self, sessions: &Vec<String>, current: Option<&str>) -> (r: String)
        ensures
            r@ == if sessions@.len() == 0 {
                "No active WINX screen sessions"@
            } else {
                "Active WINX screen sessions:\n"@ + session_items(sessions@) + match current {
                    Some(c) => "\nCurrent session: "@ + c@ + "\n"@,
                    None => seq![],
                }
            },
    {
        if sessions.len() == 0 {
            return owned("No active WINX screen sessions");
        }
        let mut v: Vec<char> = Vec::new();
        push_str(&mut v, "Active WINX screen sessions:\n");
        let ghost start = v@;
        let mut i: usize = 0;
        while i < sessions.len()
            invariant
                i <= sessions.len(),
                v@ == start + session_items(sessions@.take(i as int)),
            decreases sessions.len() - i,
        {
            proof {
                assert(sessions@.take(i + 1).drop_last() =~= sessions@.take(i as int));
            }
            push_str(&mut v, "  - ");
            push_str(&mut v, sessions[i].as_str());
            push_str(&mut v, "\n");
            i += 1;
            proof {
                assert(v@ =~= start + session_items(sessions@.take(i as int)));
            }
        }
        proof {
            assert(sessions@.take(sessions.len() as int) =~= sessions@);
        }
        match current {
            Some(c) => {
                push_str(&mut v, "\nCurrent session: ");
                push_str(&mut v, c);
                push_str(&mut v, "\n");
            },
            None => {},
        }
        from_chars(v.as_slice())
    }

    /// The text an `echo` command prints, as far as it can be read off the
    /// command: leading "echo"s removed, trimmed, and stripped of quotes.
    pub fn echo_text(&self, command: &str) -> (r: String)
        ensures
            r@ == strip_both(strip_both(trim(strip_prefix_repeated(command@, "echo"@)), '\''), '"'),
    {
        let v = to_chars(command);
        let p = to_chars("echo");
        let mut cur: Vec<char> = v;
        while cur.len() > 0 && crate::text::starts_with_chars(cur.as_slice(), p.as_slice())
            invariant
                p@ == "echo"@,
                strip_prefix_repeated(command@, "echo"@) == strip_prefix_repeated(cur@, "echo"@),
            decreases cur.len(),
        {
            proof {
                reveal_strlit("echo");
            }
            let next = crate::text::slice_chars(cur.as_slice(), p.len(), cur.len());
            cur = next;
        }
        proof {
            reveal_strlit("echo");
        }
        let t = trim_chars(cur.as_slice());
        let a = strip_end_chars(strip_start_chars(t.as_slice(), '\'').as_slice(), '\'');
        let b = strip_end_chars(strip_start_chars(a.as_slice(), '"').as_slice(), '"');
        from_chars(b.as_slice())
    }

    /// The output of a command run again directly: standard output, then
    /// standard error on a line of its own, or `fallback` when both are
    /// empty; then the status.
    pub fn direct_output_text(&self, out: &str, err: &str, fallback: &str, status_info: &str) -> (r: String)
        ensures
            r@ == (if out@.len() == 0 && err@.len() == 0 {
                fallback@
            } else if err@.len() == 0 {
                out@
            } else if out@.len() == 0 {
                err@
            } else {
                out@ + "\n"@ + err@
            }) + "\n\n"@ + status_info@,
    {
        let mut v: Vec<char> = Vec::new();
        if !out.is_empty() {
            push_str(&mut v, out);
        }
        if !err.is_empty() {
            if v.len() > 0 {
                v.push('\n');
            }
            push_str(&mut v, err);
        }
        if v.len() == 0 {
            push_str(&mut v, fallback);
        }
        proof {
            reveal_strlit("\n");
        }
        push_str(&mut v, "\n\n");
        push_str(&mut v, status_info);
        from_chars(v.as_slice())
    }
}

impl Default for BashCommand {
    fn default() -> (r: Self) {
        BashCommand {}
    }
}

/// What the named special key does (`None`: interrupt; else the characters
/// sent) and how the answer names it; `None` for names that are no key.
pub open spec fn key_effect(name: Seq<char>) -> Option<(Option<Seq<char>>, Seq<char>)> {
    if name == "Ctrl-c"@ {
        Some((None, "Ctrl-c"@))
    } else if name == "Enter"@ {
        Some((Some(seq!['\n']), "Enter"@))
    } else if name == "Key-up"@ {
        Some((Some(seq!['\x1b', '[', 'A']), "↑"@))
    } else if name == "Key-down"@ {
        Some((Some(seq!['\x1b', '[', 'B']), "↓"@))
    } else if name == "Key-left"@ {
        Some((Some(seq!['\x1b', '[', 'D']), "←"@))
    } else if name == "Key-right"@ {
        Some((Some(seq!['\x1b', '[', 'C']), "→"@))
    } else if name == "Ctrl-d"@ {
        Some((Some(seq!['\x04']), "Ctrl-d"@))
    } else {
        None
    }
}

/// The text before the first `,` (or else `}`) of `content`, trimmed.
pub open spec fn loose_value(content: Seq<char>) -> Seq<char> {
    match first_occurrence(content, ","@) {
        Some(c) => trim(content.take(c)),
        None => match first_occurrence(content, "}"@) {
            Some(c) => trim(content.take(c)),
            None => trim(content),
        },
    }
}

fn loose_value_exec(content: &[char]) -> (r: Vec<char>)
    ensures
        r@ == loose_value(content@),
{
    proof {
        reveal_strlit(",");
        reveal_strlit("}");
    }
    let comma = to_chars(",");
    let brace = to_chars("}");
    match find_first(content, comma.as_slice()) {
        Some(c) => {
            let head = crate::text::slice_chars(content, 0, c);
            trim_chars(head.as_slice())
        },
        None => match find_first(content, brace.as_slice()) {
            Some(c) => {
                let head = crate::text::slice_chars(content, 0, c);
                trim_chars(head.as_slice())
            },
            None => trim_chars(content),
        },
    }
}

fn loose_command_exec(json: &str) -> (r: Option<Vec<char>>)
    ensures
        match r {
            Some(c) => BashCommand::loose_command(json@) == Some(c@),
            None => BashCommand::loose_command(json@) is None,
        },
{
    proof {
        reveal_strlit("command");
        reveal_strlit(":");
    }
    let s = to_chars(json);
    let key = to_chars("command");
    let colon = to_chars(":");
    let a = match find_first(s.as_slice(), key.as_slice()) {
        Some(a) => a,
        None => {
            return None;
        },
    };
    let rest = crate::text::slice_chars(s.as_slice(), a, s.len());
    proof {
        assert(rest@ =~= json@.skip(a as int));
    }
    let b = match find_first(rest.as_slice(), colon.as_slice()) {
        Some(b) => b,
        None => {
            return None;
        },
    };
    let content = crate::text::slice_chars(rest.as_slice(), b + 1, rest.len());
    proof {
        assert(content@ =~= json@.skip(a + b + 1));
    }
    let raw = loose_value_exec(content.as_slice());
    let s1 = strip_start_chars(raw.as_slice(), '"');
    let s2 = strip_start_chars(s1.as_slice(), '\'');
    let s3 = strip_end_chars(s2.as_slice(), '"');
    let cleaned = strip_end_chars(s3.as_slice(), '\'');
    Some(cleaned)
}

/// Each session on a line of its own, as a list item.
pub open spec fn session_items(s: Seq<String>) -> Seq<char>
    decreases s.len(),
{
    if s.len() == 0 {
        seq![]
    } else {
        session_items(s.drop_last()) + "  - "@ + s.last()@ + "\n"@
    }
}

/// `s` without `c` at either end (`trim_matches(c)`).
pub open spec fn strip_both(s: Seq<char>, c: char) -> Seq<char> {
    strip_end(strip_start(s, c), c)
}

/// `n` as `format!("{}", n)` prints it, with a `-` for negatives.
pub open spec fn signed_decimal(n: int) -> Seq<char> {
    if n < 0 {
        "-"@ + crate::text::decimal((-n) as nat)
    } else {
        crate::text::decimal(n as nat)
    }
}

fn push_signed(out: &mut Vec<char>, n: i32)
    ensures
        final(out)@ == old(out)@ + signed_decimal(n as int),
{
    if n < 0 {
        push_str(out, "-");
        let m: u64 = (-(n as i64)) as u64;
        crate::text::push_decimal(out, m);
    } else {
        crate::text::push_decimal(out, n as u64);
    }
}

/// The code taken as an unsigned 32-bit number.
pub open spec fn unsigned_of(code: i32) -> int {
    if code >= 0 {
        code as int
    } else {
        code as int + 0x1_0000_0000
    }
}

/// A Unicode scalar value: a code point that is no surrogate.
pub open spec fn valid_scalar(u: int) -> bool {
    (0 <= u <= 0xD7FF) || (0xE000 <= u <= 0x10FFFF)
}

/// `char::from_u32`: a character exactly for the Unicode scalar values, and
/// then the one with that code.
#[verifier::external_body]
fn char_from_u32(u: u32) -> (r: Option<char>)
    ensures
        r is Some <==> valid_scalar(u as int),
        r matches Some(c) ==> c as int == u as int,
{
    char::from_u32(u)
}


// ---------------------------------------------------------------------------
// Carrying out a request, step by step
// ---------------------------------------------------------------------------

/// One thing to do for a request to the shell tool.
#[derive(Debug)]
pub enum BashStep {
    /// Start `command` in the shell; then report `Done`.
    Execute { command: String },
    /// Wait `millis` milliseconds; then report `Done`.
    Sleep { millis: u64 },
    /// Ask the status of the shell's process, waiting up to `wait_millis`;
    /// then report `Status`.
    CheckStatus { wait_millis: u64 },
    /// Read what the process printed and the status line; then report
    /// `Output`.
    ReadOutput,
    /// Ask the status (waiting up to `wait_millis`), flush the output, and
    /// read it and the working directory; then report `Report`.
    StatusReport { wait_millis: u64 },
    /// Send these keys to the process, in order; then report `Done`.
    SendKeys { keys: Vec<KeyAction> },
    /// Run `command` once more with `bash -c` in `dir`, capturing what it
    /// prints; then report `Direct`.
    RunDirect { command: String, dir: String },
    /// Carry out a screen action (the answer is made from the screen
    /// helpers); the request ends there.
    Screen { command: ScreenCommand, session_name: Option<String> },
    /// The answer; the request ends.
    Answer(String),
    /// The request is refused; it ends.
    Fail(WinxError),
}

/// What came of a step.
#[derive(Debug)]
pub enum BashEvent {
    Done,
    Status(ProcessStatus),
    Output { stdout: String, stderr: String, status_info: String },
    Report { status: ProcessStatus, stdout: String, stderr: String, cwd: String },
    /// What the direct run printed, or why it could not run.
    Direct(Result<(String, String), String>),
}

/// Where a request stands between steps.
#[derive(Debug)]
pub enum BashPhase {
    /// Nothing more to do.
    Finished,
    /// A command was started; its wait comes next.
    Started { command: String, timeout: u64 },
    /// Its wait is over; the status check comes next.
    Slept { command: String, timeout: u64 },
    /// The status was asked.
    Checked { command: String, timeout: u64 },
    /// A longer wait for a running process is over.
    Waited { command: String },
    /// The output was asked.
    Collecting { command: String },
    /// No output came; the status was asked again.
    Idle { command: String, status_info: String },
    /// `pwd` was started.
    PwdStarted { command: String, status_info: String },
    /// Its wait is over.
    PwdSlept { command: String, status_info: String },
    /// Its output was asked.
    PwdReading { command: String, status_info: String },
    /// The command was run directly in `dir`; `common` for the commands that
    /// are run again as a matter of course.
    Direct { common: bool, status_info: String, dir: String },
    /// A command that may need a terminal was started.
    TerminalStarted { command: String, timeout: u64 },
    /// Its wait is over.
    TerminalSlept { command: String },
    /// Its output was asked.
    TerminalReading { command: String },
    /// A status report was asked.
    Reporting,
    /// Keys were sent; `labels` names special keys for the answer.
    KeysSent { labels: Option<Vec<&'static str>>, timeout: u64 },
    /// The wait after them is over.
    KeysWaited { labels: Option<Vec<&'static str>> },
    /// Their output was asked.
    KeysReading { labels: Option<Vec<&'static str>> },
    /// Keys before an unsupported one were sent; the request fails with
    /// `error`.
    Failing { error: WinxError },
}

/// The wait for a command: 30 seconds for Rust tooling, else `timeout`.
pub open spec fn command_wait(command: Seq<char>, timeout: u64) -> u64 {
    if contains(command, "cargo"@) || contains(command, "clippy"@) {
        30000
    } else {
        timeout
    }
}

/// Twice `t`, at most `u64::MAX`.
pub open spec fn doubled(t: u64) -> u64 {
    if t <= u64::MAX / 2 {
        (2 * t) as u64
    } else {
        u64::MAX
    }
}

/// The answer for keys sent: the special keys' labels, if any were named,
/// then the usual output.
pub open spec fn keys_answer(labels: Option<Vec<&'static str>>, stdout: Seq<char>, stderr: Seq<char>, info: Seq<char>) -> Seq<char> {
    match labels {
        Some(ls) => (if ls@.len() > 0 {
            "Sent keys: "@ + join(ls@.map_values(|l: &str| l@), ", "@) + "\n\n"@
        } else {
            seq![]
        }) + stdout + "\n"@ + stderr + "\n\n"@ + info,
        None => stdout + "\n"@ + stderr + "\n\n"@ + info,
    }
}

/// The answer of a direct run.
pub open spec fn direct_answer(common: bool, info: Seq<char>, dir: Seq<char>, r: Result<(String, String), String>) -> Seq<char> {
    match r {
        Ok((out, err)) => (if out@.len() == 0 && err@.len() == 0 {
            if common {
                "Command executed successfully but produced no output. Current directory: "@ + dir
            } else {
                "Command executed successfully."@
            }
        } else if err@.len() == 0 {
            out@
        } else if out@.len() == 0 {
            err@
        } else {
            out@ + "\n"@ + err@
        }) + "\n\n"@ + info,
        Err(e) => if common {
            "Command execution attempt failed: "@ + e@ + ". Current directory: "@ + dir + "\n\n"@ + info
        } else {
            "Command execution failed: "@ + e@ + "\n\n"@ + info
        },
    }
}

/// Whether `p` is waiting for an event of the kind of `e`.
pub open spec fn awaits(p: BashPhase, e: BashEvent) -> bool {
    match p {
        BashPhase::Finished => false,
        BashPhase::Checked { .. } | BashPhase::Idle { .. } => e is Status,
        BashPhase::Collecting { .. } | BashPhase::PwdReading { .. } | BashPhase::TerminalReading { .. }
        | BashPhase::KeysReading { .. } => e is Output,
        BashPhase::Reporting => e is Report,
        BashPhase::Direct { .. } => e is Direct,
        _ => e is Done,
    }
}

/// `s` is the answer `t`, and the request ends.
pub open spec fn answers(q: BashPhase, s: BashStep, t: Seq<char>) -> bool {
    &&& q is Finished
    &&& s matches BashStep::Answer(a)
    &&& a@ == t
}

/// `s` waits `ms` milliseconds.
pub open spec fn sleeps(s: BashStep, ms: u64) -> bool {
    &&& s matches BashStep::Sleep { millis }
    &&& millis == ms
}

/// `s` asks the status, waiting up to `ms` milliseconds.
pub open spec fn checks(s: BashStep, ms: u64) -> bool {
    &&& s matches BashStep::CheckStatus { wait_millis }
    &&& wait_millis == ms
}

/// The step and phase after event `e` in phase `p`.
pub open spec fn bash_transition(p: BashPhase, e: BashEvent, q: BashPhase, s: BashStep) -> bool {
    match p {
        BashPhase::Started { command, timeout } => {
            &&& q matches BashPhase::Slept { command: c, timeout: t }
            &&& c@ == command@
            &&& t == timeout
            &&& sleeps(s, command_wait(command@, timeout))
        },
        BashPhase::Slept { command, timeout } => {
            &&& q matches BashPhase::Checked { command: c, timeout: t }
            &&& c@ == command@
            &&& t == timeout
            &&& checks(s, 500)
        },
        BashPhase::Checked { command, timeout } => if e == BashEvent::Status(ProcessStatus::Running) {
            &&& q matches BashPhase::Waited { command: c }
            &&& c@ == command@
            &&& sleeps(s, doubled(timeout))
        } else {
            &&& q matches BashPhase::Collecting { command: c }
            &&& c@ == command@
            &&& s is ReadOutput
        },
        BashPhase::Waited { command } => {
            &&& q matches BashPhase::Collecting { command: c }
            &&& c@ == command@
            &&& s is ReadOutput
        },
        BashPhase::Collecting { command } => match e {
            BashEvent::Output { stdout, stderr, status_info } => if trim(stdout@).len() == 0 && trim(stderr@).len()
                == 0 {
                &&& q matches BashPhase::Idle { command: c, status_info: i }
                &&& c@ == command@
                &&& i@ == status_info@
                &&& checks(s, 100)
            } else {
                answers(q, s, stdout@ + "\n"@ + stderr@ + "\n\n"@ + status_info@)
            },
            _ => false,
        },
        BashPhase::Idle { command, status_info } => if e == BashEvent::Status(ProcessStatus::Running) {
            answers(q, s, "Process is still running, output may not be available yet\n"@)
        } else {
            &&& q matches BashPhase::PwdStarted { command: c, status_info: i }
            &&& c@ == command@
            &&& i@ == status_info@
            &&& s matches BashStep::Execute { command: x }
            &&& x@ == "pwd"@
        },
        BashPhase::PwdStarted { command, status_info } => {
            &&& q matches BashPhase::PwdSlept { command: c, status_info: i }
            &&& c@ == command@
            &&& i@ == status_info@
            &&& sleeps(s, 1000)
        },
        BashPhase::PwdSlept { command, status_info } => {
            &&& q matches BashPhase::PwdReading { command: c, status_info: i }
            &&& c@ == command@
            &&& i@ == status_info@
            &&& s is ReadOutput
        },
        BashPhase::PwdReading { command, status_info } => match e {
            BashEvent::Output { stdout, .. } => {
                let common = contains(command@, "ls"@) || contains(command@, "find"@) || contains(command@, "cat"@)
                    || contains(command@, "cargo"@) || contains(command@, "clippy"@);
                if !common && contains(command@, "echo"@) {
                    answers(
                        q,
                        s,
                        strip_both(strip_both(trim(strip_prefix_repeated(command@, "echo"@)), '\''), '"') + "\n\n"@
                            + status_info@,
                    )
                } else {
                    &&& q matches BashPhase::Direct { common: cm, status_info: i, dir }
                    &&& cm == common
                    &&& i@ == status_info@
                    &&& dir@ == trim(stdout@)
                    &&& s matches BashStep::RunDirect { command: x, dir: d }
                    &&& x@ == command@
                    &&& d@ == trim(stdout@)
                }
            },
            _ => false,
        },
        BashPhase::Direct { common, status_info, dir } => match e {
            BashEvent::Direct(r) => answers(q, s, direct_answer(common, status_info@, dir@, r)),
            _ => false,
        },
        BashPhase::TerminalStarted { command, timeout } => {
            &&& q matches BashPhase::TerminalSlept { command: c }
            &&& c@ == command@
            &&& sleeps(s, command_wait(command@, timeout))
        },
        BashPhase::TerminalSlept { command } => {
            &&& q matches BashPhase::TerminalReading { command: c }
            &&& c@ == command@
            &&& s is ReadOutput
        },
        BashPhase::TerminalReading { command } => match e {
            BashEvent::Output { stdout, stderr, status_info } => answers(
                q,
                s,
                "Warning: Command '"@ + command@
                    + "' may require an interactive terminal and might not work correctly.\n\n"@ + stdout@ + "\n"@
                    + stderr@ + "\n\n"@ + status_info@,
            ),
            _ => false,
        },
        BashPhase::Reporting => match e {
            BashEvent::Report { status, stdout, stderr, cwd } => answers(
                q,
                s,
                if stdout@.len() > 0 || stderr@.len() > 0 {
                    stdout@ + "\n"@ + stderr@ + "\n\n"@ + BashCommand::status_text(status) + "\ncwd = "@ + cwd@
                } else {
                    BashCommand::status_text(status) + "\ncwd = "@ + cwd@
                },
            ),
            _ => false,
        },
        BashPhase::KeysSent { labels, timeout } => {
            &&& q matches BashPhase::KeysWaited { labels: l }
            &&& l == labels
            &&& sleeps(s, timeout)
        },
        BashPhase::KeysWaited { labels } => {
            &&& q matches BashPhase::KeysReading { labels: l }
            &&& l == labels
            &&& s is ReadOutput
        },
        BashPhase::KeysReading { labels } => match e {
            BashEvent::Output { stdout, stderr, status_info } => answers(
                q,
                s,
                keys_answer(labels, stdout@, stderr@, status_info@),
            ),
            _ => false,
        },
        BashPhase::Failing { error } => {
            &&& q is Finished
            &&& s == BashStep::Fail(error)
        },
        BashPhase::Finished => false,
    }
}

/// The character a code of `send_ascii` stands for (see `ascii_char`).
pub open spec fn code_char(code: i32) -> char {
    if valid_scalar(unsigned_of(code)) {
        unsigned_of(code) as char
    } else {
        ' '
    }
}

/// `k` sends the characters `t`.
pub open spec fn sends(k: KeyAction, t: Seq<char>) -> bool {
    &&& k matches KeyAction::Send(x)
    &&& x@ == t
}

/// The keys for a list of codes: each code's character, sent alone.
pub open spec fn code_keys(codes: Seq<i32>, keys: Seq<KeyAction>) -> bool {
    keys.len() == codes.len() && forall|i: int|
        0 <= i < codes.len() ==> sends(#[trigger] keys[i], seq![code_char(codes[i])])
}

/// The first of `names` from `i` on that is no special key (the length
/// when every one is).
pub open spec fn first_unknown_key(names: Seq<String>, i: int) -> int
    decreases names.len() - i,
{
    if i < 0 || i >= names.len() {
        names.len() as int
    } else if key_effect(names[i]@) is None {
        i
    } else {
        first_unknown_key(names, i + 1)
    }
}

/// The refusal of a name that is no special key.
pub open spec fn unknown_key_text(name: Seq<char>) -> Seq<char> {
    "Unsupported special key: "@ + name
        + ". Supported keys: Ctrl-c, Ctrl-d, Enter, Key-up, Key-down, Key-left, Key-right"@
}

/// `keys` are what pressing the named special keys does, in order.
pub open spec fn keys_for(names: Seq<String>, keys: Seq<KeyAction>) -> bool {
    keys.len() == names.len() && forall|i: int|
        0 <= i < names.len() ==> match key_effect(names[i]@) {
            Some((effect, _)) => match effect {
                None => #[trigger] keys[i] == KeyAction::Interrupt,
                Some(t) => sends(keys[i], t),
            },
            None => false,
        }
}

/// `labels` name the special keys of `names` for the answer.
pub open spec fn labels_for(names: Seq<String>, labels: Seq<&'static str>) -> bool {
    labels.len() == names.len() && forall|i: int| 0 <= i < names.len() ==> label_of(names[i], #[trigger] labels[i])
}

/// `l` is how the answer names the special key `name`.
pub open spec fn label_of(name: String, l: &str) -> bool {
    &&& key_effect(name@) matches Some((_, x))
    &&& l@ == x
}

/// Both are absent, or both hold the same text.
pub open spec fn same_text(a: Option<String>, b: Option<String>) -> bool {
    match (a, b) {
        (Some(x), Some(y)) => x@ == y@,
        (None, None) => true,
        _ => false,
    }
}

/// How a request starts: its first step and the phase after it.
pub open spec fn bash_start(a: ActionJson, timeout: u64, q: BashPhase, s: BashStep) -> bool {
    match a {
        ActionJson::Command(c) => {
            &&& s matches BashStep::Execute { command: x }
            &&& x@ == c.command@
            &&& if exists|i: int|
                0 <= i < interactive_commands().len() && names_program(c.command@, #[trigger] interactive_commands()[i]) {
                &&& q matches BashPhase::TerminalStarted { command: y, timeout: t }
                &&& y@ == c.command@
                &&& t == timeout
            } else {
                &&& q matches BashPhase::Started { command: y, timeout: t }
                &&& y@ == c.command@
                &&& t == timeout
            }
        },
        ActionJson::StatusCheck(_) => {
            &&& q is Reporting
            &&& s matches BashStep::StatusReport { wait_millis }
            &&& wait_millis == timeout
        },
        ActionJson::SendText(t) => {
            &&& q matches BashPhase::KeysSent { labels: None, timeout: w }
            &&& w == timeout
            &&& s matches BashStep::SendKeys { keys }
            &&& keys@.len() == 1
            &&& sends(keys@[0], t.send_text@)
        },
        ActionJson::SendSpecials(sp) => {
            let names = sp.send_specials@;
            let k = first_unknown_key(names, 0);
            if k >= names.len() {
                &&& q matches BashPhase::KeysSent { labels: Some(ls), timeout: w }
                &&& w == timeout
                &&& labels_for(names, ls@)
                &&& s matches BashStep::SendKeys { keys }
                &&& keys_for(names, keys@)
            } else if k == 0 {
                &&& q is Finished
                &&& s matches BashStep::Fail(WinxError::InvalidArgument { message })
                &&& message@ == unknown_key_text(names[k]@)
            } else {
                &&& q matches BashPhase::Failing { error: WinxError::InvalidArgument { message } }
                &&& message@ == unknown_key_text(names[k]@)
                &&& s matches BashStep::SendKeys { keys }
                &&& keys_for(names.take(k), keys@)
            }
        },
        ActionJson::SendAscii { send_ascii } => {
            &&& q matches BashPhase::KeysSent { labels: None, timeout: w }
            &&& w == timeout
            &&& s matches BashStep::SendKeys { keys }
            &&& code_keys(send_ascii@, keys@)
        },
        ActionJson::ScreenAction(r) => {
            &&& q is Finished
            &&& s matches BashStep::Screen { command, session_name }
            &&& command == (if r.screen_action@ == "attach"@ {
                ScreenCommand::Attach
            } else if r.screen_action@ == "detach"@ {
                ScreenCommand::Detach
            } else if r.screen_action@ == "content"@ {
                ScreenCommand::Content
            } else if r.screen_action@ == "list"@ {
                ScreenCommand::List
            } else {
                ScreenCommand::Unknown
            })
            &&& same_text(session_name, r.session_name)
        },
    }
}


fn trimmed_empty(s: &String) -> (b: bool)
    ensures
        b == (trim(s@).len() == 0),
{
    let v = to_chars(s.as_str());
    trim_chars(v.as_slice()).len() == 0
}

fn copy_labels(v: &Vec<&'static str>) -> (r: Vec<&'static str>)
    ensures
        r@ == v@,
{
    let mut r: Vec<&'static str> = Vec::new();
    let mut i: usize = 0;
    while i < v.len()
        invariant
            i <= v.len(),
            r@ == v@.take(i as int),
        decreases v.len() - i,
    {
        r.push(v[i]);
        proof {
            assert(v@.take(i + 1) =~= v@.take(i as int).push(v@[i as int]));
        }
        i += 1;
    }
    proof {
        assert(v@.take(v.len() as int) =~= v@);
    }
    r
}

impl BashCommand {
    /// Whether a request in phase `phase` waits for an event such as `event`.
    pub fn awaits_event(&self, phase: &BashPhase, event: &BashEvent) -> (b: bool)
        ensures
            b == awaits(*phase, *event),
    {
        match phase {
            BashPhase::Finished => false,
            BashPhase::Checked { .. } | BashPhase::Idle { .. } => matches!(event, BashEvent::Status(_)),
            BashPhase::Collecting { .. } | BashPhase::PwdReading { .. } | BashPhase::TerminalReading { .. }
            | BashPhase::KeysReading { .. } => matches!(event, BashEvent::Output { .. }),
            BashPhase::Reporting => matches!(event, BashEvent::Report { .. }),
            BashPhase::Direct { .. } => matches!(event, BashEvent::Direct(_)),
            _ => matches!(event, BashEvent::Done),
        }
    }

    /// The first step of a request, `timeout_millis` being the wait asked
    /// for (five seconds where none is): a command is started (noting
    /// whether it may need a terminal), a status check reports, text, special
    /// keys or character codes are sent to the process, and a screen action
    /// is carried out.
    pub fn begin_request(&self, action: &ActionJson, timeout_millis: u64) -> (r: (BashPhase, BashStep))
        ensures
            bash_start(*action, timeout_millis, r.0, r.1),
    {
        match action {
            ActionJson::Command(c) => {
                let step = BashStep::Execute { command: owned(c.command.as_str()) };
                if self.command_requires_terminal(c.command.as_str()) {
                    (BashPhase::TerminalStarted { command: owned(c.command.as_str()), timeout: timeout_millis }, step)
                } else {
                    (BashPhase::Started { command: owned(c.command.as_str()), timeout: timeout_millis }, step)
                }
            },
            ActionJson::StatusCheck(_) => (BashPhase::Reporting, BashStep::StatusReport { wait_millis: timeout_millis }),
            ActionJson::SendText(t) => {
                let mut keys: Vec<KeyAction> = Vec::new();
                keys.push(KeyAction::Send(owned(t.send_text.as_str())));
                (BashPhase::KeysSent { labels: None, timeout: timeout_millis }, BashStep::SendKeys { keys })
            },
            ActionJson::SendSpecials(sp) => {
                let ghost names = sp.send_specials@;
                let mut keys: Vec<KeyAction> = Vec::new();
                let mut labels: Vec<&'static str> = Vec::new();
                let mut i: usize = 0;
                while i < sp.send_specials.len()
                    invariant
                        i <= sp.send_specials.len(),
                        names == sp.send_specials@,
                        *action == ActionJson::SendSpecials(*sp),
                        first_unknown_key(names, 0) == first_unknown_key(names, i as int),
                        keys_for(names.take(i as int), keys@),
                        labels_for(names.take(i as int), labels@),
                    decreases sp.send_specials.len() - i,
                {
                    match self.special_key(sp.send_specials[i].as_str()) {
                        Ok((k, l)) => {
                            let ghost kb = keys@;
                            let ghost lb = labels@;
                            proof {
                                assert(names[i as int] == sp.send_specials@[i as int]);
                                assert(label_of(names[i as int], l));
                                assert(first_unknown_key(names, i as int) == first_unknown_key(names, i + 1));
                            }
                            keys.push(k);
                            labels.push(l);
                            proof {
                                let t = names.take(i + 1);
                                assert(t =~= names.take(i as int).push(names[i as int]));
                                assert forall|j: int| 0 <= j < t.len() implies match key_effect(t[j]@) {
                                    Some((effect, _)) => match effect {
                                        None => #[trigger] keys@[j] == KeyAction::Interrupt,
                                        Some(x) => sends(keys@[j], x),
                                    },
                                    None => false,
                                } by {
                                    if j < i {
                                        assert(keys@[j] == kb[j]);
                                        assert(t[j] == names.take(i as int)[j]);
                                    }
                                }
                                assert forall|j: int| 0 <= j < t.len() implies label_of(t[j], #[trigger] labels@[j]) by {
                                    if j < i {
                                        assert(labels@[j] == lb[j]);
                                        assert(t[j] == names.take(i as int)[j]);
                                    } else {
                                        assert(labels@[j] == l);
                                        assert(t[j] == names[i as int]);
                                    }
                                }
                                assert(labels@.len() == t.len());
                                assert(labels_for(t, labels@));
                            }
                        },
                        Err(e) => {
                            proof {
                                assert(names[i as int] == sp.send_specials@[i as int]);
                                assert(key_effect(names[i as int]@) is None);
                                assert(first_unknown_key(names, i as int) == i);
                                assert(i < names.len());
                                assert(e matches WinxError::InvalidArgument { message } && message@ == unknown_key_text(
                                    names[i as int]@,
                                ));
                                assert(keys_for(names.take(first_unknown_key(names, 0)), keys@));
                            }
                            if i == 0 {
                                return (BashPhase::Finished, BashStep::Fail(e));
                            }
                            return (BashPhase::Failing { error: e }, BashStep::SendKeys { keys });
                        },
                    }
                    i += 1;
                }
                proof {
                    assert(names.take(i as int) =~= names);
                }
                (BashPhase::KeysSent { labels: Some(labels), timeout: timeout_millis }, BashStep::SendKeys { keys })
            },
            ActionJson::SendAscii { send_ascii } => {
                let mut keys: Vec<KeyAction> = Vec::new();
                let mut i: usize = 0;
                while i < send_ascii.len()
                    invariant
                        i <= send_ascii.len(),
                        code_keys(send_ascii@.take(i as int), keys@),
                    decreases send_ascii.len() - i,
                {
                    let c = self.ascii_char(send_ascii[i]);
                    let one = [c];
                    let k = KeyAction::Send(from_chars(&one));
                    let ghost kb = keys@;
                    keys.push(k);
                    proof {
                        assert(one@ =~= seq![c]);
                        assert(c == code_char(send_ascii@[i as int]));
                        let t = send_ascii@.take(i + 1);
                        assert forall|j: int| 0 <= j < t.len() implies sends(#[trigger] keys@[j], seq![code_char(t[j])]) by {
                            if j < i {
                                assert(keys@[j] == kb[j]);
                                assert(t[j] == send_ascii@.take(i as int)[j]);
                            }
                        }
                    }
                    i += 1;
                }
                proof {
                    assert(send_ascii@.take(i as int) =~= send_ascii@);
                }
                (BashPhase::KeysSent { labels: None, timeout: timeout_millis }, BashStep::SendKeys { keys })
            },
            ActionJson::ScreenAction(r) => {
                let command = self.screen_command(r.screen_action.as_str());
                let session_name = match &r.session_name {
                    Some(n) => Some(owned(n.as_str())),
                    None => None,
                };
                (BashPhase::Finished, BashStep::Screen { command, session_name })
            },
        }
    }
}


fn doubled_exec(t: u64) -> (r: u64)
    ensures
        r == doubled(t),
{
    if t <= u64::MAX / 2 {
        2 * t
    } else {
        u64::MAX
    }
}

impl BashCommand {
    /// The wait for a command: 30 seconds for Rust tooling, else `timeout`.
    fn command_wait_exec(&self, command: &str, timeout: u64) -> (r: u64)
        ensures
            r == command_wait(command@, timeout),
    {
        if self.uses_rust_tooling(command) {
            30000
        } else {
            timeout
        }
    }

    /// The next step of a request in phase `phase`, given what came of the
    /// last step. A command's wait over, its status is checked (a running
    /// process is given twice the wait more); its output answers, unless
    /// there is none: then a process still running is reported as such, and
    /// else the working directory is read and the command is run again
    /// directly there (an `echo` is answered from its own text). Keys sent
    /// are followed by a wait and their output; a status check answers with
    /// the status and working directory.
    pub fn bash_step(&self, phase: BashPhase, event: BashEvent) -> (r: (BashPhase, BashStep))
        requires
            awaits(phase, event),
        ensures
            bash_transition(phase, event, r.0, r.1),
    {
        match phase {
            BashPhase::Started { command, timeout } => {
                let w = self.command_wait_exec(command.as_str(), timeout);
                (BashPhase::Slept { command, timeout }, BashStep::Sleep { millis: w })
            },
            BashPhase::Slept { command, timeout } => (
                BashPhase::Checked { command, timeout },
                BashStep::CheckStatus { wait_millis: 500 },
            ),
            BashPhase::Checked { command, timeout } => match event {
                BashEvent::Status(ProcessStatus::Running) => (
                    BashPhase::Waited { command },
                    BashStep::Sleep { millis: doubled_exec(timeout) },
                ),
                _ => (BashPhase::Collecting { command }, BashStep::ReadOutput),
            },
            BashPhase::Waited { command } => (BashPhase::Collecting { command }, BashStep::ReadOutput),
            BashPhase::Collecting { command } => match event {
                BashEvent::Output { stdout, stderr, status_info } => {
                    if trimmed_empty(&stdout) && trimmed_empty(&stderr) {
                        (BashPhase::Idle { command, status_info }, BashStep::CheckStatus { wait_millis: 100 })
                    } else {
                        let t = self.output_text(stdout.as_str(), stderr.as_str(), status_info.as_str());
                        (BashPhase::Finished, BashStep::Answer(t))
                    }
                },
                _ => (BashPhase::Finished, BashStep::ReadOutput),
            },
            BashPhase::Idle { command, status_info } => match event {
                BashEvent::Status(ProcessStatus::Running) => (
                    BashPhase::Finished,
                    BashStep::Answer(owned("Process is still running, output may not be available yet\n")),
                ),
                _ => (BashPhase::PwdStarted { command, status_info }, BashStep::Execute { command: owned("pwd") }),
            },
            BashPhase::PwdStarted { command, status_info } => (
                BashPhase::PwdSlept { command, status_info },
                BashStep::Sleep { millis: 1000 },
            ),
            BashPhase::PwdSlept { command, status_info } => (
                BashPhase::PwdReading { command, status_info },
                BashStep::ReadOutput,
            ),
            BashPhase::PwdReading { command, status_info } => match event {
                BashEvent::Output { stdout, .. } => {
                    let common = self.is_common_command(command.as_str());
                    if !common && str_contains(command.as_str(), "echo") {
                        let e = self.echo_text(command.as_str());
                        let mut v: Vec<char> = Vec::new();
                        push_str(&mut v, e.as_str());
                        push_str(&mut v, "\n\n");
                        push_str(&mut v, status_info.as_str());
                        proof {
                            assert(v@ =~= e@ + "\n\n"@ + status_info@);
                        }
                        (BashPhase::Finished, BashStep::Answer(from_chars(v.as_slice())))
                    } else {
                        let dir = crate::text::trim_str(stdout.as_str());
                        let d2 = owned(dir.as_str());
                        (
                            BashPhase::Direct { common, status_info, dir },
                            BashStep::RunDirect { command: owned(command.as_str()), dir: d2 },
                        )
                    }
                },
                _ => (BashPhase::Finished, BashStep::ReadOutput),
            },
            BashPhase::Direct { common, status_info, dir } => match event {
                BashEvent::Direct(r) => {
                    let text = match &r {
                        Ok((out, err)) => {
                            let fallback = if common {
                                let mut v: Vec<char> = Vec::new();
                                push_str(&mut v, "Command executed successfully but produced no output. Current directory: ");
                                push_str(&mut v, dir.as_str());
                                proof {
                                    assert(v@ =~= "Command executed successfully but produced no output. Current directory: "@
                                        + dir@);
                                }
                                from_chars(v.as_slice())
                            } else {
                                owned("Command executed successfully.")
                            };
                            self.direct_output_text(out.as_str(), err.as_str(), fallback.as_str(), status_info.as_str())
                        },
                        Err(e) => {
                            let mut v: Vec<char> = Vec::new();
                            if common {
                                push_str(&mut v, "Command execution attempt failed: ");
                                push_str(&mut v, e.as_str());
                                push_str(&mut v, ". Current directory: ");
                                push_str(&mut v, dir.as_str());
                            } else {
                                push_str(&mut v, "Command execution failed: ");
                                push_str(&mut v, e.as_str());
                            }
                            push_str(&mut v, "\n\n");
                            push_str(&mut v, status_info.as_str());
                            proof {
                                if common {
                                    assert(v@ =~= "Command execution attempt failed: "@ + e@ + ". Current directory: "@
                                        + dir@ + "\n\n"@ + status_info@);
                                } else {
                                    assert(v@ =~= "Command execution failed: "@ + e@ + "\n\n"@ + status_info@);
                                }
                            }
                            from_chars(v.as_slice())
                        },
                    };
                    (BashPhase::Finished, BashStep::Answer(text))
                },
                _ => (BashPhase::Finished, BashStep::ReadOutput),
            },
            BashPhase::TerminalStarted { command, timeout } => {
                let w = self.command_wait_exec(command.as_str(), timeout);
                (BashPhase::TerminalSlept { command }, BashStep::Sleep { millis: w })
            },
            BashPhase::TerminalSlept { command } => (BashPhase::TerminalReading { command }, BashStep::ReadOutput),
            BashPhase::TerminalReading { command } => match event {
                BashEvent::Output { stdout, stderr, status_info } => {
                    let w = self.terminal_warning(command.as_str());
                    let o = self.output_text(stdout.as_str(), stderr.as_str(), status_info.as_str());
                    let mut v: Vec<char> = Vec::new();
                    push_str(&mut v, w.as_str());
                    push_str(&mut v, o.as_str());
                    proof {
                        assert(v@ =~= "Warning: Command '"@ + command@
                            + "' may require an interactive terminal and might not work correctly.\n\n"@ + stdout@
                            + "\n"@ + stderr@ + "\n\n"@ + status_info@);
                    }
                    (BashPhase::Finished, BashStep::Answer(from_chars(v.as_slice())))
                },
                _ => (BashPhase::Finished, BashStep::ReadOutput),
            },
            BashPhase::Reporting => match event {
                BashEvent::Report { status, stdout, stderr, cwd } => {
                    let t = self.status_check_text(status, stdout.as_str(), stderr.as_str(), cwd.as_str());
                    (BashPhase::Finished, BashStep::Answer(t))
                },
                _ => (BashPhase::Finished, BashStep::ReadOutput),
            },
            BashPhase::KeysSent { labels, timeout } => (
                BashPhase::KeysWaited { labels },
                BashStep::Sleep { millis: timeout },
            ),
            BashPhase::KeysWaited { labels } => (BashPhase::KeysReading { labels }, BashStep::ReadOutput),
            BashPhase::KeysReading { labels } => match event {
                BashEvent::Output { stdout, stderr, status_info } => {
                    let t = match &labels {
                        Some(ls) => self.keys_output_text(ls, stdout.as_str(), stderr.as_str(), status_info.as_str()),
                        None => self.output_text(stdout.as_str(), stderr.as_str(), status_info.as_str()),
                    };
                    (BashPhase::Finished, BashStep::Answer(t))
                },
                _ => (BashPhase::Finished, BashStep::ReadOutput),
            },
            BashPhase::Failing { error } => (BashPhase::Finished, BashStep::Fail(error)),
            BashPhase::Finished => (BashPhase::Finished, BashStep::ReadOutput),
        }
    }
}

} // verus!
