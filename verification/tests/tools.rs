use winx_code_agent::file::syntax_checker::check_syntax;
use winx_code_agent::tools::bash_command::{
    ActionJson, BashCommand, BashEvent, BashPhase, BashStep, CommandRequest, KeyAction, ProcessStatus, ScreenCommand,
    SendSpecialsRequest,
};
use winx_code_agent::tools::context_save::{ContextSave, ContextSaveParams};
use winx_code_agent::tools::file_operations::{
    edit_success_text, parse_line_ranges, FileEdit, FileOperations, FsErrorKind, WriteIfEmpty,
};
use winx_code_agent::tools::initialize::{Action, CodeWriterConfig, Initialize, Mode, WorkspaceCandidate};
use winx_code_agent::tools::semantic_code::{
    insert_at_line, insert_next_to_line, kind_matches, limit_results, missing_root_text, no_symbol_text,
    relative_path, AddPlacement, AddSymbolParams, AddSymbolTool, EditSymbolTool,
};

fn strings(v: &[&str]) -> Vec<String> {
    v.iter().map(|s| s.to_string()).collect()
}

#[test]
fn line_ranges_are_read_off_the_path() {
    assert_eq!(parse_line_ranges("src/main.rs"), ("src/main.rs".to_string(), None, None));
    assert_eq!(parse_line_ranges("src/main.rs:10-20"), ("src/main.rs".to_string(), Some(10), Some(20)));
    assert_eq!(parse_line_ranges("a.txt:5-"), ("a.txt".to_string(), Some(5), None));
    assert_eq!(parse_line_ranges("a.txt:-7"), ("a.txt".to_string(), None, Some(7)));
    assert_eq!(parse_line_ranges("a.txt:x-7"), ("a.txt:x-7".to_string(), None, None));
}

#[test]
fn a_read_file_section_shows_its_lines() {
    let ops = FileOperations::new();
    let (text, range) = ops.read_file_section("a.txt", "one\ntwo\nthree\n", Some(2), Some(3), true);
    assert_eq!(text, "\na.txt:2-3\n```\n2 two\n3 three\n```");
    assert_eq!(range, (2, 3));
    let (plain, whole) = ops.read_file_section("a.txt", "one\ntwo", None, None, false);
    assert_eq!(plain, "\na.txt\n```\none\ntwo\n```");
    assert_eq!(whole, (1, 2));
}

#[test]
fn file_answers() {
    assert_eq!(edit_success_text("a.rs", &vec![]), "Success: File edited at a.rs");
    assert_eq!(
        edit_success_text("a.rs", &strings(&["w1", "w2"])),
        "Success: File edited at a.rs. Warnings: w1, w2"
    );
    let edit = FileEdit::new();
    assert!(edit.marker_mistake("<<<<<<< ORIGINAL\nx").unwrap().contains("ORIGINAL"));
    assert!(edit.marker_mistake("fine").is_none());
    let w = WriteIfEmpty::new();
    assert_eq!(w.check_and_redirect("/etc/app.conf"), Some("/tmp/app.conf".to_string()));
    assert_eq!(w.check_and_redirect("/tmp/x"), None);
    assert_eq!(w.check_and_redirect("relative/x"), None);
    assert_eq!(
        w.created_text(None, "/tmp/x", &vec![]),
        "Success: New file created at /tmp/x"
    );
}

#[test]
fn images_become_data_urls() {
    let ops = FileOperations::new();
    assert_eq!(ops.image_data_url("pic.png", b"hi"), "data:image/png;base64,aGk=");
    assert_eq!(ops.image_data_url("blob", &[0, 255]), "data:application/octet-stream;base64,AP8=");
    assert_eq!(ops.missing_file_text("x.png"), "Error: File x.png does not exist");
}

#[test]
fn modes_decide_permissions() {
    let mut s = Initialize::new();
    assert!(!s.was_initialized());
    assert_eq!(s.get_workspace_path(), ".");
    let architect = s.mode_from_name("architect", None);
    s.set_initialized(architect, "/w".to_string());
    assert!(s.was_initialized());
    assert!(matches!(s.get_current_mode(), Mode::Architect));
    assert!(s.check_permission(Action::ReadFile, Some("/w/a")).is_ok());
    let config = CodeWriterConfig { allowed_globs: strings(&["all"]), allowed_commands: strings(&["ls"]) };
    let writer = s.mode_from_name("code_writer", Some(config));
    assert!(matches!(writer, Mode::CodeWriter(_)));
    assert!(matches!(s.mode_from_name("other", None), Mode::Wcgw));
    assert_eq!(s.mode_info(&Mode::Wcgw), "\n# Mode: wcgw\nAll operations are allowed.");
}

#[test]
fn shell_decisions() {
    let b = BashCommand::new();
    assert!(b.command_requires_terminal("vim notes.txt"));
    assert!(b.command_requires_terminal("cat a | less"));
    assert!(!b.command_requires_terminal("ls -la"));
    assert!(b.uses_rust_tooling("cargo build"));
    assert!(b.is_common_command("ls"));
    assert_eq!(b.output_text("out", "err", "ok"), "out\nerr\n\nok");
    assert_eq!(
        b.status_check_text(ProcessStatus::Exited(-1), "", "", "/w"),
        "status = process exited with code -1\ncwd = /w"
    );
    assert!(matches!(b.screen_command("list"), ScreenCommand::List));
    assert!(matches!(b.screen_command("zoom"), ScreenCommand::Unknown));
    assert_eq!(b.ascii_char(65), 'A');
    assert!(b.special_key("Ctrl-z").is_err());
    assert_eq!(b.session_list_text(&vec![], None), "No active WINX screen sessions");
}

#[test]
fn complex_commands_run_from_a_script() {
    let b = BashCommand::new();
    match b.handle_complex_command_as("{\"command\": \"echo hi > out.txt\"}", "id1") {
        Ok(ActionJson::Command(c)) => assert_eq!(
            c.command,
            "cat > /tmp/winx-cmd-id1.sh << 'WINX_SCRIPT_EOF'\necho hi > out.txt\nWINX_SCRIPT_EOF\nchmod +x /tmp/winx-cmd-id1.sh\n/tmp/winx-cmd-id1.sh"
        ),
        _ => panic!("expected a command"),
    }
    match b.handle_complex_command("{\"command\": \"echo 'x'\"}") {
        Ok(ActionJson::Command(c)) => {
            assert!(c.command.starts_with("cat > /tmp/winx-cmd-"));
            assert!(c.command.contains("\necho 'x\nWINX_SCRIPT_EOF"));
        }
        _ => panic!("expected a command"),
    }
    match b.handle_complex_command("{\"command\": \"ls\"}") {
        Ok(ActionJson::Command(c)) => assert_eq!(c.command, "ls"),
        _ => panic!("expected a command"),
    }
    assert!(b.handle_complex_command("no keys here").is_err());
}

#[test]
fn saved_context_documents() {
    let c = ContextSave::new();
    assert_eq!(c.glob_pattern("/p", "src/*.rs"), "/p/src/*.rs");
    assert_eq!(c.glob_pattern("/p", "/abs/*.rs"), "/abs/*.rs");
    let params = ContextSaveParams {
        id: "t1".to_string(),
        project_root_path: "/p".to_string(),
        description: "Fix it\nsoon".to_string(),
        relevant_file_globs: strings(&["*.rs"]),
    };
    let doc = c.context_document(&params, &vec![], &vec![("a.rs".to_string(), "fn a() {}".to_string())]);
    assert_eq!(
        doc,
        "# PROJECT ROOT = /p\nFix it\nsoon\n\n# Relevant file paths\n*.rs\n\n# Relevant Files:\n\n# File: a.rs\n```\nfn a() {}\n```\n"
    );
    assert_eq!(c.summary_line("Fix it\nsoon"), "Fix it");
}

#[test]
fn semantic_edits() {
    assert_eq!(relative_path("//src/lib.rs"), "src/lib.rs");
    assert!(kind_matches("Function", &strings(&["func"])));
    assert!(!kind_matches("Struct", &strings(&["func", "method"])));
    let mut found = vec![1, 2, 3, 4];
    limit_results(&mut found, Some(2));
    assert_eq!(found, vec![1, 2]);
    limit_results(&mut found, Some(0));
    assert_eq!(found, vec![1, 2]);

    assert_eq!(insert_next_to_line("a\nb\n", 1, true, "x"), "a\nx\nb\n");
    assert_eq!(insert_next_to_line("a\nb", 0, false, "x"), "a\nx\nb\n");
    assert_eq!(insert_at_line("a\nb", 1, "x").unwrap(), "a\nx\nb\n");
    assert_eq!(insert_at_line("a\nb", 2, "x").unwrap(), "a\nb\n");
    assert_eq!(insert_at_line("a\nb", 3, "x").unwrap_err(), "Line number 3 is out of range (max: 2)");

    assert_eq!(no_symbol_text("a.rs", 3, 4), "No symbol found at a.rs:3:4");
    assert_eq!(missing_root_text("/w"), "Workspace root does not exist: /w");
    assert_eq!(EditSymbolTool::new().updated_text("f", "a.rs"), "Updated symbol 'f' in 'a.rs'");
    assert_eq!(AddSymbolTool::new().added_text("a.rs", "at"), "Added new symbol in 'a.rs' at position 'at'");
}

#[test]
fn where_added_code_goes() {
    let tool = AddSymbolTool::new();
    let params = |position: &str, line: Option<u32>, column: Option<u32>| AddSymbolParams {
        file_path: "a.rs".to_string(),
        line,
        column,
        position: position.to_string(),
        content: "fn x() {}".to_string(),
    };
    assert_eq!(
        tool.placement(&params("before", Some(1), Some(2))),
        Ok(AddPlacement::Anchor { line: 1, column: 2, before: true })
    );
    assert_eq!(
        tool.placement(&params("AFTER", Some(1), Some(2))),
        Ok(AddPlacement::Anchor { line: 1, column: 2, before: false })
    );
    assert_eq!(tool.placement(&params("at", Some(4), None)), Ok(AddPlacement::At { line: 4 }));
    assert_eq!(
        tool.placement(&params("after", Some(1), None)),
        Err("Line and column must be provided for before/after positioning".to_string())
    );
    assert_eq!(tool.placement(&params("at", None, None)), Err("Line must be provided for 'at' positioning".to_string()));
    assert_eq!(tool.placement(&params("middle", None, None)), Err("Invalid position type: middle".to_string()));
}

#[test]
fn syntax_checks_by_extension() {
    assert_eq!(
        check_syntax("lib.rs", "fn a() { (1 }"),
        vec!["Warning: Unbalanced parentheses - 2 open vs 1 closed".to_string()]
    );
    assert!(check_syntax("notes", "anything (").is_empty());
    let bad_json = check_syntax("data.json", "{\"a\": }");
    assert_eq!(bad_json.len(), 1);
    assert!(bad_json[0].starts_with("Warning: Invalid JSON structure - "));
    assert!(check_syntax("data.json", "{\"a\": 1}").is_empty());
}

#[test]
fn code_writer_globs_decide_writes() {
    let mut s = Initialize::new();
    let config = CodeWriterConfig { allowed_globs: strings(&["src/*.rs"]), allowed_commands: strings(&["ls"]) };
    let writer = s.mode_from_name("code_writer", Some(config.clone()));
    assert_eq!(
        s.mode_info(&writer),
        "\n# Mode: code_writer\nAllowed globs: [\"src/*.rs\"]\nAllowed commands: [\"ls\"]\nRestricted to specified paths and commands."
    );
    s.set_initialized(writer, "/w".to_string());
    assert!(s.check_permission(Action::ReadFile, None).is_ok());
}

#[test]
fn valid_python_gets_no_colon_warnings() {
    assert!(check_syntax("ok.py", "def f(x):\n    if x:\n        return 1\n").is_empty());
    let warnings = check_syntax("bad.py", "def f(x)\n    if x\n        return 1\n");
    assert_eq!(
        warnings,
        vec![
            "Warning: 'if' statement without colon. Python requires a colon after condition statements.".to_string(),
            "Warning: 'def' statement without colon. Python functions require a colon after parameter list.".to_string(),
        ]
    );
}

fn output(stdout: &str) -> BashEvent {
    BashEvent::Output { stdout: stdout.to_string(), stderr: String::new(), status_info: "status".to_string() }
}

#[test]
fn a_command_runs_waits_and_answers() {
    let bash = BashCommand::new();
    let (phase, step) = bash.begin_request(&ActionJson::Command(CommandRequest { command: "ls".to_string() }), 5000);
    assert!(matches!(step, BashStep::Execute { ref command } if command == "ls"));
    let (phase, step) = bash.bash_step(phase, BashEvent::Done);
    assert!(matches!(step, BashStep::Sleep { millis: 5000 }));
    let (phase, step) = bash.bash_step(phase, BashEvent::Done);
    assert!(matches!(step, BashStep::CheckStatus { wait_millis: 500 }));
    let (phase, step) = bash.bash_step(phase, BashEvent::Status(ProcessStatus::Exited(0)));
    assert!(matches!(step, BashStep::ReadOutput));
    let (phase, step) = bash.bash_step(phase, output("a.rs"));
    assert!(matches!(phase, BashPhase::Finished));
    assert!(matches!(step, BashStep::Answer(ref t) if t == "a.rs\n\n\nstatus"));
}

#[test]
fn a_silent_command_is_run_again_directly() {
    let bash = BashCommand::new();
    let (phase, _) = bash.begin_request(&ActionJson::Command(CommandRequest { command: "cargo build".to_string() }), 1000);
    let (phase, step) = bash.bash_step(phase, BashEvent::Done);
    assert!(matches!(step, BashStep::Sleep { millis: 30000 }));
    let (phase, _) = bash.bash_step(phase, BashEvent::Done);
    let (phase, step) = bash.bash_step(phase, BashEvent::Status(ProcessStatus::Running));
    assert!(matches!(step, BashStep::Sleep { millis: 2000 }));
    let (phase, _) = bash.bash_step(phase, BashEvent::Done);
    let (phase, step) = bash.bash_step(phase, output("  "));
    assert!(matches!(step, BashStep::CheckStatus { wait_millis: 100 }));
    let (phase, step) = bash.bash_step(phase, BashEvent::Status(ProcessStatus::Exited(0)));
    assert!(matches!(step, BashStep::Execute { ref command } if command == "pwd"));
    let (phase, _) = bash.bash_step(phase, BashEvent::Done);
    let (phase, _) = bash.bash_step(phase, BashEvent::Done);
    let (phase, step) = bash.bash_step(phase, output("/work\n"));
    assert!(matches!(step, BashStep::RunDirect { ref command, ref dir } if command == "cargo build" && dir == "/work"));
    let (_, step) = bash.bash_step(phase, BashEvent::Direct(Ok((String::new(), String::new()))));
    assert!(matches!(step, BashStep::Answer(ref t)
        if t == "Command executed successfully but produced no output. Current directory: /work\n\nstatus"));
}

#[test]
fn special_keys_are_sent_until_an_unknown_one() {
    let bash = BashCommand::new();
    let request = ActionJson::SendSpecials(SendSpecialsRequest {
        send_specials: vec!["Enter".to_string(), "Ctrl-c".to_string()],
    });
    let (phase, step) = bash.begin_request(&request, 100);
    match step {
        BashStep::SendKeys { keys } => assert_eq!(keys, vec![KeyAction::Send("\n".to_string()), KeyAction::Interrupt]),
        _ => panic!("keys are sent"),
    }
    let (phase, _) = bash.bash_step(phase, BashEvent::Done);
    let (_, step) = bash.bash_step(phase, BashEvent::Done);
    assert!(matches!(step, BashStep::ReadOutput));
    let bad = ActionJson::SendSpecials(SendSpecialsRequest {
        send_specials: vec!["Enter".to_string(), "Bogus".to_string()],
    });
    let (phase, step) = bash.begin_request(&bad, 100);
    assert!(matches!(step, BashStep::SendKeys { ref keys } if keys.len() == 1));
    let (_, step) = bash.bash_step(phase, BashEvent::Done);
    assert!(matches!(step, BashStep::Fail(_)));
}

#[test]
fn writes_fall_back_to_tmp_on_permission_errors() {
    let w = WriteIfEmpty::new();
    assert_eq!(w.write_fallback("/srv/app/a.txt", FsErrorKind::PermissionDenied), Some("/tmp/a.txt".to_string()));
    assert_eq!(w.write_fallback("/srv/app/a.txt", FsErrorKind::Other), Some("/tmp/a.txt".to_string()));
    assert_eq!(w.write_fallback("/srv/app/a.txt", FsErrorKind::ReadOnlyFilesystem), None);
    assert_eq!(w.write_fallback("/srv/app/a.txt", FsErrorKind::Different), None);
    assert_eq!(
        w.dir_fallback_text("/srv/app/a.txt", "denied", "/tmp/a.txt"),
        "Warning: Could not create directory '/srv/app/a.txt' due to permission error: denied. Using '/tmp/a.txt' instead.\n\nSuccess: New file created at /tmp/a.txt"
    );
    assert_eq!(
        w.write_fallback_text("/srv/a.txt", "/tmp/a.txt"),
        "Warning: Could not write to /srv/a.txt due to permission error. File created at /tmp/a.txt instead."
    );
    assert_eq!(
        w.both_failed_text("e1", "e2"),
        "Failed to write file to both original location and /tmp. Original error: e1. /tmp error: e2"
    );
    assert_eq!(
        w.tmp_dir_failed_text("e"),
        "Could not create directory even in /tmp: e. Please specify a path where you have write permissions."
    );
    assert_eq!(w.dir_failed_text("e"), "Failed to create directory: e");
    assert_eq!(w.tmp_write_failed_text("e"), "Failed to write file to /tmp path: e");
    assert_eq!(w.write_failed_text("e"), "Failed to write file: e");
}

#[test]
fn workspace_fallbacks_come_in_order() {
    let init = Initialize::new();
    assert!(init.first_workspace_candidate(FsErrorKind::Different, "u").is_none());
    let first = init.first_workspace_candidate(FsErrorKind::ReadOnlyFilesystem, "u").unwrap();
    match &first {
        WorkspaceCandidate::Temporary { base, dir, alternative } => {
            assert_eq!(base, "/tmp");
            assert_eq!(dir, "/tmp/winx-workspace-u");
            assert!(!alternative);
        }
        WorkspaceCandidate::Current => panic!("expected a temporary workspace"),
    }
    // /tmp was usable but the directory could not be made: TMPDIR next.
    let alt = init.next_workspace_candidate(&first, true, Some("/var/tmp"), "u").unwrap();
    match &alt {
        WorkspaceCandidate::Temporary { base, dir, alternative } => {
            assert_eq!(base, "/var/tmp");
            assert_eq!(dir, "/var/tmp/winx-workspace-u");
            assert!(alternative);
        }
        WorkspaceCandidate::Current => panic!("expected the alternative workspace"),
    }
    // /tmp was not usable: straight to the current directory.
    assert!(matches!(init.next_workspace_candidate(&first, false, Some("/var/tmp"), "u"), Some(WorkspaceCandidate::Current)));
    assert!(matches!(init.next_workspace_candidate(&alt, true, Some("/var/tmp"), "u"), Some(WorkspaceCandidate::Current)));
    assert!(init.next_workspace_candidate(&WorkspaceCandidate::Current, true, None, "u").is_none());
    assert_eq!(
        init.workspace_fallback_text(&first, "/ro/w", "denied", "permission denied", "/tmp/winx-workspace-u"),
        "Warning: Failed to create or access directory '/ro/w': denied (permission denied). Using temporary workspace at '/tmp/winx-workspace-u' instead.\n\nPlease specify a different workspace path with write permissions."
    );
    assert_eq!(
        init.workspace_fallback_text(&WorkspaceCandidate::Current, "/ro/w", "denied", "x", "/home/u"),
        "Warning: Failed to create or access directory '/ro/w': denied. Using '/home/u' instead.\n\nPlease specify a different workspace path with write permissions."
    );
}
