use winx_code_agent::diff::large_file::{apply_operations, process_large_file, EditOperation, FileOperation};

#[test]
fn test_process_large_file() {
    // The file's text: five lines, each ended by a newline.
    let text = "Line 1\nLine 2\nLine 3\nLine 4\nLine 5\n";
    let operations = vec![EditOperation::ReplaceLines {
        start_line: 1,
        end_line: 2,
        new_content: "New Line 2\nNew Line 3\n".to_string(),
    }];
    let content = process_large_file(text, &operations);
    assert_eq!(content, "Line 1\nNew Line 2\nNew Line 3\nLine 4\nLine 5\n");
}

#[test]
fn test_operations_sorted_and_appended() {
    let text = "a\nb\nc";
    let operations = vec![
        FileOperation::Edit(EditOperation::ReplaceLines { start_line: 2, end_line: 2, new_content: "C\n".to_string() }),
        FileOperation::Edit(EditOperation::ReplaceLines { start_line: 0, end_line: 0, new_content: "A\n".to_string() }),
        FileOperation::Edit(EditOperation::ReplaceLines { start_line: 7, end_line: 9, new_content: "tail\n".to_string() }),
    ];
    assert_eq!(apply_operations(text, &operations), "A\nb\nC\ntail\n");
}

#[test]
fn test_same_start_keeps_first() {
    let text = "x\ny\n";
    let operations = vec![
        EditOperation::ReplaceLines { start_line: 0, end_line: 0, new_content: "first\n".to_string() },
        EditOperation::ReplaceLines { start_line: 0, end_line: 1, new_content: "second\n".to_string() },
    ];
    assert_eq!(process_large_file(text, &operations), "first\ny\n");
    assert_eq!(process_large_file(text, &[]), "x\ny\n");
}
