use winx_code_agent::diff::operations::{
    apply_operations, apply_operations_parallel, combine_chunk_results, diff_strings, diff_strings_parallel,
    optimize_operations, DiffOp,
};

#[test]
fn test_diff_insert() {
    let old = "Hello World";
    let new = "Hello Beautiful World";
    let ops = diff_strings(old, new);

    assert_eq!(ops.len(), 1);
    assert!(matches!(ops[0], DiffOp::Insert { .. }));

    if let DiffOp::Insert { content, position } = &ops[0] {
        assert_eq!(*position, 6);
        assert_eq!(content, "Beautiful ");
    }
}

#[test]
fn test_diff_delete() {
    let old = "Hello Beautiful World";
    let new = "Hello World";
    let ops = diff_strings(old, new);

    assert_eq!(ops.len(), 1);
    assert!(matches!(ops[0], DiffOp::Delete { .. }));

    if let DiffOp::Delete { start, end } = ops[0] {
        assert_eq!(start, 6);
        assert_eq!(end, 16);
    }
}

#[test]
fn test_diff_replace() {
    let old = "Hello World";
    let new = "Hello Universe";
    let ops = diff_strings(old, new);

    assert_eq!(ops.len(), 1);
    assert!(matches!(ops[0], DiffOp::Replace { .. }));

    if let DiffOp::Replace { start, end, content } = &ops[0] {
        assert_eq!(*start, 6);
        assert_eq!(*end, 11);
        assert_eq!(content, "Universe");
    }
}

#[test]
fn test_apply_operations() {
    let source = "Hello World";
    let operations = vec![
        DiffOp::Replace { start: 6, end: 11, content: "Universe".to_string() },
        DiffOp::Insert { position: 0, content: "Greetings: ".to_string() },
    ];

    let result = apply_operations(source, &operations).unwrap();
    assert_eq!(result, "Greetings: Hello Universe");
}

#[test]
fn diff_then_apply_gives_the_new_text() {
    let old: Vec<String> = (0..200).map(|i| format!("Line {}", i)).collect();
    let new: Vec<String> = (0..200)
        .map(|i| if i % 5 == 0 { format!("Modified Line {}", i) } else { format!("Line {}", i) })
        .collect();
    let old = old.join("\n");
    let new = new.join("\n");
    let ops = diff_strings(&old, &new);
    assert_eq!(apply_operations(&old, &ops).unwrap(), new);
}

#[test]
fn identical_texts_give_no_operations() {
    assert!(diff_strings("same words here", "same words here").is_empty());
}

#[test]
fn out_of_range_operations_are_refused() {
    let insert = vec![DiffOp::Insert { position: 20, content: "x".to_string() }];
    assert_eq!(apply_operations("short", &insert).unwrap_err(), "Insert position 20 out of bounds (len: 5)");
    let delete = vec![DiffOp::Delete { start: 3, end: 9 }];
    assert_eq!(apply_operations("short", &delete).unwrap_err(), "Delete range 3:9 is invalid (len: 5)");
    let replace = vec![DiffOp::Replace { start: 4, end: 2, content: "y".to_string() }];
    assert_eq!(apply_operations("short", &replace).unwrap_err(), "Replace range 4:2 is invalid (len: 5)");
}

#[test]
fn positions_count_bytes() {
    // "é" takes two bytes: the word after it starts at byte 3.
    let ops = vec![DiffOp::Insert { position: 3, content: "!".to_string() }];
    assert_eq!(apply_operations("é x", &ops).unwrap(), "é !x");
}

#[test]
fn operations_at_the_same_position_keep_their_order() {
    let ops = vec![
        DiffOp::Insert { position: 1, content: "a".to_string() },
        DiffOp::Insert { position: 1, content: "b".to_string() },
    ];
    // Each insertion goes in front of what is at the position, so the later one ends first.
    assert_eq!(apply_operations("xy", &ops).unwrap(), "xbay");
}

#[test]
fn a_deletion_and_the_insertion_where_it_ends_become_a_replacement() {
    let mut ops = vec![
        DiffOp::Delete { start: 2, end: 4 },
        DiffOp::Insert { position: 4, content: "zz".to_string() },
        DiffOp::Delete { start: 7, end: 8 },
        DiffOp::Insert { position: 9, content: "q".to_string() },
    ];
    optimize_operations(&mut ops);
    assert_eq!(
        ops,
        vec![
            DiffOp::Replace { start: 2, end: 4, content: "zz".to_string() },
            DiffOp::Delete { start: 7, end: 8 },
            DiffOp::Insert { position: 9, content: "q".to_string() },
        ]
    );
}

#[test]
fn chunk_results_are_moved_by_their_index() {
    let chunks = vec![
        vec![DiffOp::Insert { position: 1, content: "a".to_string() }],
        vec![DiffOp::Delete { start: 2, end: 3 }, DiffOp::Insert { position: 3, content: "b".to_string() }],
    ];
    let combined = combine_chunk_results(chunks, 10);
    assert_eq!(
        combined,
        vec![
            DiffOp::Insert { position: 1, content: "a".to_string() },
            DiffOp::Replace { start: 12, end: 13, content: "b".to_string() },
        ]
    );
}

#[test]
fn operations_print_as_text() {
    assert_eq!(DiffOp::Insert { position: 3, content: "x".to_string() }.to_text(), "Insert at position 3: 'x'");
    assert_eq!(DiffOp::Delete { start: 1, end: 4 }.to_text(), "Delete from position 1 to 4");
    assert_eq!(
        DiffOp::Replace { start: 0, end: 2, content: "y".to_string() }.to_text(),
        "Replace from position 0 to 2 with 'y'"
    );
}

#[test]
fn test_diff_strings_parallel() {
    // Create larger strings to test parallel processing
    let old = (0..1000)
        .map(|i| format!("Line {}", i))
        .collect::<Vec<_>>()
        .join("\n");
    let new = (0..1000)
        .map(|i| {
            if i % 5 == 0 {
                format!("Modified Line {}", i)
            } else {
                format!("Line {}", i)
            }
        })
        .collect::<Vec<_>>()
        .join("\n");

    let ops = diff_strings_parallel(&old, &new);
    let result = apply_operations_parallel(&old, &ops).unwrap();

    assert_eq!(result, new);
}

#[test]
fn large_texts_are_diffed_by_chunks_of_lines() {
    let old = (0..400).map(|i| format!("entry number {:05} of the list", i)).collect::<Vec<_>>().join("\n");
    let new = (0..400)
        .map(|i| if i % 7 == 0 { format!("entry number {:05} of a list", i) } else { format!("entry number {:05} of the list", i) })
        .collect::<Vec<_>>()
        .join("\n");
    assert!(old.len() >= 10000 && new.len() >= 10000);
    let chunked = diff_strings_parallel(&old, &new);
    assert_eq!(chunked, diff_strings(&old, &new));
    assert_eq!(apply_operations(&old, &chunked).unwrap(), new);
}

#[test]
fn large_sources_are_patched_by_chunks_of_lines() {
    let width = 49;
    let lines: Vec<String> = (0..1200).map(|i| format!("{:0>1$}", i, width)).collect();
    let source = lines.join("\n");
    assert!(source.len() >= 50000);
    let mut ops = Vec::new();
    let mut expected = lines.clone();
    for k in (0..1200).step_by(20) {
        ops.push(DiffOp::Insert { content: "A".to_string(), position: k * (width + 1) });
        expected[k] = format!("A{}", lines[k]);
    }
    // A position past the end belongs to no chunk and is dropped.
    ops.push(DiffOp::Insert { content: "Z".to_string(), position: source.len() + 1 });
    assert!(ops.len() >= 50);
    assert_eq!(apply_operations_parallel(&source, &ops).unwrap(), expected.join("\n"));
}

#[test]
fn small_sources_are_patched_whole() {
    let ops = vec![DiffOp::Delete { start: 0, end: 6 }];
    assert_eq!(apply_operations_parallel("Hello World", &ops).unwrap(), "World");
    let bad = vec![DiffOp::Delete { start: 3, end: 99 }];
    assert_eq!(apply_operations_parallel("abc", &bad), apply_operations("abc", &bad));
    assert!(apply_operations_parallel("abc", &bad).is_err());
}
