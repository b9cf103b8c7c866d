use winx_code_agent::file::repository::{DirEntryInfo, DirListing, FileActivity, RepositoryExplorer};

#[test]
fn test_activity_score() {
    let a = FileActivity { read_count: 2, edit_count: 1, write_count: 4 };
    assert_eq!(a.activity_score(), 2 * 2 + 3 + 4);
    assert_eq!(FileActivity::default().activity_score(), 0);
}

#[test]
fn test_active_files_ranked() {
    let mut explorer = RepositoryExplorer::new();
    explorer.track_activity("a.rs", "read");
    explorer.track_activity("b.rs", "edit");
    explorer.track_activity("c.rs", "write");
    explorer.track_activity("a.rs", "read");
    explorer.track_activity("c.rs", "unknown");
    explorer.track_activity("d.rs", "write");
    let top = explorer.get_active_files(10);
    assert_eq!(
        top,
        vec![
            ("a.rs".to_string(), 4),
            ("b.rs".to_string(), 3),
            ("c.rs".to_string(), 1),
            ("d.rs".to_string(), 1),
        ]
    );
    assert_eq!(explorer.get_active_files(2).len(), 2);
    assert!(RepositoryExplorer::default().get_active_files(3).is_empty());
}

#[test]
fn test_should_ignore() {
    let explorer = RepositoryExplorer::new();
    assert!(explorer.should_ignore(Some("node_modules"), true));
    assert!(!explorer.should_ignore(Some("node_modules"), false));
    assert!(explorer.should_ignore(Some(".hidden"), false));
    assert!(!explorer.should_ignore(Some("."), true));
    assert!(!explorer.should_ignore(Some(".."), true));
    assert!(!explorer.should_ignore(Some("src"), true));
    assert!(!explorer.should_ignore(None, true));
}

fn file(name: &str) -> DirEntryInfo {
    DirEntryInfo { name: Some(name.to_string()), is_dir: false, listing: None }
}

fn dir(name: &str, entries: Vec<DirEntryInfo>) -> DirEntryInfo {
    DirEntryInfo { name: Some(name.to_string()), is_dir: true, listing: Some(DirListing::Read(entries)) }
}

#[test]
fn workspace_tree_lists_directories_first_by_name() {
    let root = DirListing::Read(vec![
        file("main.rs"),
        dir("src", vec![file("lib.rs"), file("a.rs"), file(".hidden")]),
        dir("target", vec![file("out.bin")]),
        file(".gitignore"),
        dir("docs", vec![]),
        file("README.md"),
    ]);
    let view = RepositoryExplorer::new().explore_workspace("/work", &root);
    assert_eq!(
        view,
        "/work\n  docs/ (dir)\n  src/ (dir)\n      a.rs\n      lib.rs\n  README.md\n  main.rs\n"
    );
}

#[test]
fn workspace_tree_reports_unreadable_directories() {
    let root = DirListing::Read(vec![DirEntryInfo {
        name: Some("locked".to_string()),
        is_dir: true,
        listing: Some(DirListing::Failed("Permission denied (os error 13)".to_string())),
    }]);
    let view = RepositoryExplorer::new().explore_workspace("/w", &root);
    assert_eq!(view, "/w\n  locked/ (dir)\n    Error reading directory: Permission denied (os error 13)\n");
}

#[test]
fn workspace_tree_counts_files_left_out() {
    let mut entries = Vec::new();
    for i in 0..25 {
        entries.push(file(&format!("f{:02}.txt", i)));
    }
    let view = RepositoryExplorer::new().explore_workspace("r", &DirListing::Read(entries));
    let lines: Vec<&str> = view.lines().collect();
    assert_eq!(lines.len(), 1 + 20 + 1);
    assert_eq!(lines[1], "  f00.txt");
    assert_eq!(lines[20], "  f19.txt");
    assert_eq!(lines[21], "  ... (5 more files)");
}

#[test]
fn workspace_tree_stops_below_the_depth_limit() {
    let mut inner = dir("d6", vec![file("deep.txt")]);
    for k in (0..6).rev() {
        inner = dir(&format!("d{}", k), vec![inner]);
    }
    let view = RepositoryExplorer::new().explore_workspace("r", &DirListing::Read(vec![inner]));
    assert!(view.contains("d5/ (dir)"));
    assert!(!view.contains("d6/ (dir)"));
    assert!(!view.contains("deep.txt"));
}

#[test]
fn workspace_tree_shows_at_most_the_total_limit() {
    let mut dirs = Vec::new();
    for d in 0..12 {
        let mut files = Vec::new();
        for f in 0..20 {
            files.push(file(&format!("x{:02}", f)));
        }
        dirs.push(dir(&format!("d{:02}", d), files));
    }
    let view = RepositoryExplorer::new().explore_workspace("r", &DirListing::Read(dirs));
    let shown = view.lines().filter(|l| l.trim_start().starts_with('x')).count();
    assert_eq!(shown, 200);
    assert!(view.contains("d09/ (dir)"));
    assert!(view.contains("d10/ (dir)"));
    assert!(!view.contains("d10/ (dir)\n      x"));
}

#[test]
fn recent_files_newest_first() {
    let files = vec![
        ("a".to_string(), Some(5u128)),
        ("b".to_string(), None),
        ("c".to_string(), Some(9u128)),
        ("d".to_string(), Some(5u128)),
    ];
    let explorer = RepositoryExplorer::new();
    assert_eq!(explorer.get_recent_files(&files, 10), vec!["c", "a", "d", "b"]);
    assert_eq!(explorer.get_recent_files(&files, 2), vec!["c", "a"]);
    assert!(explorer.get_recent_files(&files, 0).is_empty());
}
