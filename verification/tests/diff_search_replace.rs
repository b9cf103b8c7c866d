use winx_code_agent::diff::search_replace::{
    adjust_indentation, apply_search_replace, apply_search_replace_from_text, edit_applicable, find_matches,
    text_edit_applicable,
    parse_search_replace_blocks, ApplyError, SearchReplaceBlock, ToleranceLevel, ToleranceMatch,
};

#[test]
fn test_parse_search_replace_blocks() {
    let text = r#"<<<<<<< SEARCH
function hello() {
    console.log("Hello");
}
=======
function hello() {
    console.log("Hello, World!");
}
>>>>>>> REPLACE
<<<<<<< SEARCH
const x = 5;
=======
const x = 10;
>>>>>>> REPLACE"#;

    let blocks = parse_search_replace_blocks(text).unwrap();
    assert_eq!(blocks.len(), 2);
    assert_eq!(blocks[0].search_lines.len(), 3);
    assert_eq!(blocks[0].replace_lines.len(), 3);
    assert_eq!(blocks[1].search_lines.len(), 1);
    assert_eq!(blocks[1].replace_lines.len(), 1);
}

#[test]
fn test_parse_invalid_block() {
    let text = r#"<<<<<<< SEARCH
function hello() {
    console.log("Hello");
}
>>>>>>> REPLACE"#;

    let result = parse_search_replace_blocks(text);
    assert!(result.is_err());
}

#[test]
fn test_find_matches() {
    let content = vec![
        "function hello() {".to_string(),
        "    console.log(\"Hello\");".to_string(),
        "}".to_string(),
    ];
    let search = vec![
        "function hello() {".to_string(),
        "    console.log(\"Hello\");".to_string(),
        "}".to_string(),
    ];
    let matches = find_matches(&content, &search, 0);
    assert_eq!(matches.len(), 1);
    assert_eq!(matches[0].range, (0, 2));
    assert_eq!(matches[0].level, ToleranceLevel::Exact);
}

#[test]
fn test_find_matches_with_tolerance() {
    let content = vec![
        "function hello() {".to_string(),
        "        console.log(\"Hello\");".to_string(),
        "}".to_string(),
    ];
    let search = vec![
        "function hello() {".to_string(),
        "    console.log(\"Hello\");".to_string(),
        "}".to_string(),
    ];
    let matches = find_matches(&content, &search, 0);
    assert_eq!(matches.len(), 1);
    assert_eq!(matches[0].range, (0, 2));
    assert_eq!(matches[0].level, ToleranceLevel::IgnoreLeadingWhitespace);
}

#[test]
fn test_apply_search_replace() {
    let content = "function hello() {\n    console.log(\"Hello\");\n}\n\nconst x = 5;";

    let blocks = vec![
        SearchReplaceBlock {
            search_lines: vec![
                "function hello() {".to_string(),
                "    console.log(\"Hello\");".to_string(),
                "}".to_string(),
            ],
            replace_lines: vec![
                "function hello() {".to_string(),
                "    console.log(\"Hello, World!\");".to_string(),
                "}".to_string(),
            ],
        },
        SearchReplaceBlock {
            search_lines: vec!["const x = 5;".to_string()],
            replace_lines: vec!["const x = 10;".to_string()],
        },
    ];

    let result = apply_search_replace(content, &blocks).unwrap();
    assert!(result.changes_made);
    assert_eq!(
        result.content,
        "function hello() {\n    console.log(\"Hello, World!\");\n}\n\nconst x = 10;"
    );
}

#[test]
fn test_adjust_indentation() {
    let original = vec![
        "    function hello() {".to_string(),
        "        console.log(\"Hello\");".to_string(),
        "    }".to_string(),
    ];
    let search = vec![
        "function hello() {".to_string(),
        "    console.log(\"Hello\");".to_string(),
        "}".to_string(),
    ];
    let replace = vec![
        "function hello() {".to_string(),
        "    console.log(\"Hello, World!\");".to_string(),
        "}".to_string(),
    ];

    let adjusted = adjust_indentation(&original, &search, &replace);
    assert_eq!(
        adjusted,
        vec![
            "    function hello() {".to_string(),
            "        console.log(\"Hello, World!\");".to_string(),
            "    }".to_string(),
        ]
    );
}

#[test]
fn prefix_format_is_parsed_when_markers_are_absent() {
    let text = "search:\nold line\nreplace:\nnew line\n";
    let blocks = parse_search_replace_blocks(text).unwrap();
    assert_eq!(blocks.len(), 1);
    assert_eq!(blocks[0].search_lines, vec!["old line".to_string()]);
    assert_eq!(blocks[0].replace_lines, vec!["new line".to_string()]);
}

#[test]
fn parse_error_reports_both_formats_failing() {
    let err = parse_search_replace_blocks("nothing here").unwrap_err();
    assert_eq!(
        err.message,
        "No valid search/replace blocks found in either standard or alternative format"
    );
    assert_eq!(err.line_number, None);
    assert_eq!(
        err.to_text(),
        "Syntax error: No valid search/replace blocks found in either standard or alternative format"
    );
}

#[test]
fn leading_whitespace_match_warns_and_reindents() {
    let content = "fn main() {\n        let x = 1;\n}";
    let text = "<<<<<<< SEARCH\n    let x = 1;\n=======\n    let x = 2;\n>>>>>>> REPLACE";
    let result = apply_search_replace_from_text(content, text).unwrap();
    assert_eq!(result.content, "fn main() {\n        let x = 2;\n}");
    assert_eq!(
        result.warnings,
        vec!["Warning: Ignoring indentation for block at lines 2-2".to_string()]
    );
}

#[test]
fn multiple_matches_use_the_first_and_warn() {
    let content = "a\nb\na";
    let blocks = vec![SearchReplaceBlock {
        search_lines: vec!["a".to_string()],
        replace_lines: vec!["z".to_string()],
    }];
    let result = apply_search_replace(content, &blocks).unwrap();
    assert_eq!(result.content, "z\nb\na");
    assert_eq!(
        result.warnings,
        vec!["Warning: Search block #1 matches multiple parts of the file. Using the first match.".to_string()]
    );
}

#[test]
fn missing_block_is_reported_by_number() {
    let blocks = vec![
        SearchReplaceBlock {
            search_lines: vec!["a".to_string()],
            replace_lines: vec!["b".to_string()],
        },
        SearchReplaceBlock {
            search_lines: vec!["nope".to_string()],
            replace_lines: vec!["x".to_string()],
        },
    ];
    match apply_search_replace("a", &blocks) {
        Err(ApplyError::NoMatch { block_number, search_lines }) => {
            assert_eq!(block_number, 2);
            assert_eq!(search_lines, vec!["nope".to_string()]);
        }
        other => panic!("unexpected: {:?}", other),
    }
}

#[test]
fn tolerance_processors_normalise_lines() {
    assert_eq!(ToleranceLevel::Exact.processor("  a b  "), "  a b  ");
    assert_eq!(ToleranceLevel::IgnoreTrailingWhitespace.processor("  a b  "), "  a b");
    assert_eq!(ToleranceLevel::IgnoreLeadingWhitespace.processor("  a b  "), "a b  ");
    assert_eq!(ToleranceLevel::IgnoreAllWhitespace.processor("  a b  "), "ab");
    assert_eq!(ToleranceLevel::IgnoreLeadingWhitespace.message(), "Ignoring indentation");
    assert!(!ToleranceLevel::Exact.should_warn());
    assert_eq!(ToleranceLevel::IgnoreAllWhitespace.score(), 10);
    let m = ToleranceMatch::new(ToleranceLevel::Exact, (0, 1));
    assert_eq!(m.warning_message(), None);
}

#[test]
fn block_renders_in_marker_format() {
    let b = SearchReplaceBlock {
        search_lines: vec!["x".to_string()],
        replace_lines: vec!["y".to_string()],
    };
    assert_eq!(b.render(), "<<<<<<< SEARCH\nx\n=======\ny\n>>>>>>> REPLACE\n");
}

#[test]
fn ordinary_edits_can_be_asked_for() {
    let blocks = vec![SearchReplaceBlock {
        search_lines: vec!["a".to_string()],
        replace_lines: vec!["b".to_string()],
    }];
    assert!(edit_applicable("x\na\ny", &blocks));
    assert!(text_edit_applicable("x\na\ny", "<<<<<<< SEARCH\na\n=======\nb\n>>>>>>> REPLACE"));
    assert!(text_edit_applicable("x", "no blocks here"));
}
