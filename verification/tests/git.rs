use winx_code_agent::diff::git::{modified_files, GitIntegration, GitOp, GitOutput, GitTask};

fn args(op: &GitOp) -> Vec<String> {
    op.args()
}

#[test]
fn commands_have_their_arguments() {
    assert_eq!(args(&GitOp::RepoCheck), vec!["rev-parse", "--is-inside-work-tree"]);
    assert_eq!(args(&GitOp::CreateBranch("dev".to_string())), vec!["checkout", "-b", "dev"]);
    assert_eq!(args(&GitOp::Stage(vec!["a.rs".to_string(), "b.rs".to_string()])), vec!["add", "a.rs", "b.rs"]);
    assert_eq!(args(&GitOp::Commit("msg".to_string())), vec!["commit", "-m", "msg"]);
    assert_eq!(args(&GitOp::Status), vec!["status", "--porcelain"]);
}

#[test]
fn requests_check_for_a_repository_first() {
    let g = GitIntegration::new("/repo");
    assert_eq!(g.repo_path(), "/repo");
    let steps = g.steps(GitTask::StageAndCommit { message: "m".to_string(), files: None });
    let kinds: Vec<String> = steps.iter().map(|s| s.args().join(" ")).collect();
    assert_eq!(
        kinds,
        vec![
            "rev-parse --is-inside-work-tree",
            "rev-parse --is-inside-work-tree",
            "add .",
            "rev-parse --is-inside-work-tree",
            "commit -m m",
        ]
    );
    assert_eq!(g.steps(GitTask::StageFiles(vec![])).len(), 1);
}

#[test]
fn outcomes_of_commands() {
    let g = GitIntegration::new("/repo");
    assert_eq!(
        g.step_result(&GitOp::RepoCheck, false, "", "").unwrap_err(),
        "Not a git repository"
    );
    assert!(matches!(
        g.step_result(&GitOp::Commit("m".to_string()), false, "", "nothing to commit, working tree clean"),
        Ok(GitOutput::Done)
    ));
    assert_eq!(
        g.step_result(&GitOp::Commit("m".to_string()), false, "", "boom").unwrap_err(),
        "Failed to create commit: boom"
    );
    assert_eq!(
        g.step_result(&GitOp::CreateBranch("b".to_string()), false, "", "exists").unwrap_err(),
        "Failed to create branch: exists"
    );
    match g.step_result(&GitOp::CurrentBranch, true, "  main\n", "") {
        Ok(GitOutput::Branch(b)) => assert_eq!(b, "main"),
        _ => panic!("expected a branch"),
    }
}

#[test]
fn porcelain_status_names_the_files() {
    let files = modified_files(" M src/lib.rs\n?? new.txt\nab\n");
    assert_eq!(files, vec!["src/lib.rs".to_string(), "new.txt".to_string()]);
}
