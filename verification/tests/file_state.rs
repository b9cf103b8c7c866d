use winx_code_agent::file::operations::{count_lines, recent_enough, FileState, FileWhitelistData};

#[test]
fn test_whitelist_read_enough_and_unread_ranges() {
    let d = FileWhitelistData::new("h".to_string(), vec![(1, 5), (8, 10)], 10);
    assert_eq!(d.lines_read_count(), 8);
    assert!(!d.is_read_enough());
    assert_eq!(d.get_unread_ranges(), vec![(6, 7)]);
    let whole = FileWhitelistData::new("h".to_string(), vec![(1, 100)], 100);
    assert!(whole.is_read_enough());
    assert!(whole.get_unread_ranges().is_empty());
    // 99 of 100 lines is enough; 98 is not.
    assert!(FileWhitelistData::new("h".to_string(), vec![(1, 99)], 100).is_read_enough());
    assert!(!FileWhitelistData::new("h".to_string(), vec![(1, 98)], 100).is_read_enough());
    // An empty file counts as read.
    assert!(FileWhitelistData::new("h".to_string(), vec![], 0).is_read_enough());
    let none = FileWhitelistData::new("h".to_string(), vec![], 4);
    assert_eq!(none.get_unread_ranges(), vec![(1, 4)]);
    let overlap = FileWhitelistData::new("h".to_string(), vec![(2, 3), (3, 4)], 5);
    assert_eq!(overlap.lines_read_count(), 3);
    assert_eq!(overlap.get_unread_ranges(), vec![(1, 1), (5, 5)]);
}

#[test]
fn test_hash_and_line_count() {
    // The digest decides: the same content may be overwritten, another not.
    let mut state = FileState::new();
    state.add_to_whitelist("/h", vec![(1, 1)], b"abc");
    assert!(state.can_overwrite("/h", Some(b"abc"), true));
    assert!(!state.can_overwrite("/h", Some(b"abd"), true));
    assert_eq!(count_lines(b""), 1);
    assert_eq!(count_lines(b"a\nb\n"), 3);
}

#[test]
fn test_can_overwrite() {
    let mut state = FileState::new();
    assert!(state.can_overwrite("/new/file", None, false));
    assert!(!state.can_overwrite("/old/file", Some(b"x"), true));
    assert!(!state.was_read_recently("/f"));
    let content = b"one\ntwo";
    state.add_to_whitelist("/f", vec![(1, 2)], content);
    assert!(state.was_read_recently("/f"));
    assert!(state.can_overwrite("/f", Some(content), true));
    assert!(!state.can_overwrite("/f", Some(b"one\nTWO"), true));
    assert!(!state.can_overwrite("/f", None, true));
    let mut partial = FileState::default();
    partial.add_to_whitelist("/g", vec![(1, 1)], b"a\nb\nc");
    assert!(!partial.can_overwrite("/g", Some(b"a\nb\nc"), true));
    partial.add_to_whitelist("/g", vec![(2, 3)], b"a\nb\nc");
    assert!(partial.can_overwrite("/g", Some(b"a\nb\nc"), true));
}

#[test]
fn test_recent_enough() {
    assert!(recent_enough(0));
    assert!(recent_enough(299));
    assert!(!recent_enough(300));
}
