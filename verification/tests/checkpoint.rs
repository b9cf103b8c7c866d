use winx_code_agent::diff::checkpoint::{checkpoint_id_of, Checkpoint, CheckpointManager};

fn change(m: &CheckpointManager, path: &str) -> winx_code_agent::diff::checkpoint::FileChange {
    m.create_file_change(path, "before", "after")
}

#[test]
fn checkpoints_live_under_the_project() {
    let m = CheckpointManager::new("/proj");
    assert_eq!(m.checkpoint_file("abc"), "/proj/.winx/checkpoints/abc.json");
    assert!(m.list_checkpoints().is_empty());
}

#[test]
fn an_added_checkpoint_is_found_and_listed() {
    let mut m = CheckpointManager::new("/proj");
    let c = m.prepare_checkpoint("first", vec![change(&m, "src/a.rs")], 42);
    assert_eq!(c.id.len(), 36);
    assert_eq!(c.description, "first");
    let id = m.add_checkpoint(c);
    let found = m.get_checkpoint(&id).unwrap();
    assert_eq!(found.description, "first");
    assert_eq!(found.timestamp, 42);
    assert_eq!(m.list_checkpoints(), vec![(id.clone(), "first".to_string(), 42)]);
    assert!(m.get_checkpoint("other").is_none());
}

#[test]
fn fresh_checkpoints_get_different_ids() {
    let m = CheckpointManager::new("/proj");
    let a = m.prepare_checkpoint("a", vec![], 1);
    let b = m.prepare_checkpoint("b", vec![], 1);
    assert_ne!(a.id, b.id);
}

#[test]
fn a_deleted_checkpoint_is_gone() {
    let mut m = CheckpointManager::new("/proj");
    let keep = Checkpoint { id: "keep".to_string(), timestamp: 1, description: "k".to_string(), changes: vec![] };
    let drop = Checkpoint { id: "drop".to_string(), timestamp: 2, description: "d".to_string(), changes: vec![] };
    m.add_checkpoint(keep);
    m.add_checkpoint(drop);
    assert_eq!(m.delete_checkpoint("drop"), Ok(()));
    assert!(m.get_checkpoint("drop").is_none());
    assert_eq!(m.get_checkpoint("keep").unwrap().description, "k");
    assert_eq!(m.delete_checkpoint("drop"), Err("Checkpoint not found: drop".to_string()));
}

#[test]
fn adding_under_a_known_id_replaces_the_checkpoint() {
    let mut m = CheckpointManager::new("/proj");
    m.insert_checkpoint("x".to_string(), Checkpoint { id: "x".to_string(), timestamp: 1, description: "old".to_string(), changes: vec![] });
    m.insert_checkpoint("x".to_string(), Checkpoint { id: "x".to_string(), timestamp: 2, description: "new".to_string(), changes: vec![] });
    assert_eq!(m.list_checkpoints(), vec![("x".to_string(), "new".to_string(), 2)]);
}

#[test]
fn restoring_writes_the_old_contents() {
    let m = CheckpointManager::new("/proj");
    let c = m.prepare_checkpoint("c", vec![change(&m, "src/a.rs"), change(&m, "b.txt")], 0);
    let writes = m.restore_writes(&c);
    assert_eq!(
        writes,
        vec![
            ("/proj/src/a.rs".to_string(), "before".to_string()),
            ("/proj/b.txt".to_string(), "before".to_string()),
        ]
    );
}

#[test]
fn checkpoint_files_are_named_by_their_id() {
    assert_eq!(checkpoint_id_of("abc.json"), Some("abc".to_string()));
    assert_eq!(checkpoint_id_of("abc.json.json"), Some("abc".to_string()));
    assert_eq!(checkpoint_id_of("notes.txt"), None);
}
