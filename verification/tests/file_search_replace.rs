use winx_code_agent::file::search_replace::{
    apply_search_replace, apply_search_replace_with_fallback, is_search_replace_content,
    edit_defined, parse_search_replace_blocks, verify_search_block_uniqueness, SearchReplaceBlock, SearchReplaceError,
    ToleranceLevel, UniquenessCheck,
};

#[test]
fn test_parse_with_occurrence_index() {
    let input = r#"# occurrence: 1
<<<<<<< SEARCH
foo
=======
bar
>>>>>>> REPLACE"#;

    let blocks = parse_search_replace_blocks(input).unwrap();
    assert_eq!(blocks.len(), 1);
    assert_eq!(blocks[0].occurrence_index, Some(1));
    assert_eq!(blocks[0].search_lines, vec!["foo"]);
    assert_eq!(blocks[0].replace_lines, vec!["bar"]);
}

#[test]
fn test_multiple_matches_with_occurrence_index() {
    let content = "foo\nbar\nfoo\nbaz\nfoo\nqux";
    let blocks = vec![SearchReplaceBlock {
        search_lines: vec!["foo".to_string()],
        replace_lines: vec!["replaced".to_string()],
        occurrence_index: Some(1),
    }];

    let (result, _) = apply_search_replace(content, &blocks, |_| {}).unwrap();

    let expected = "foo\nbar\nreplaced\nbaz\nfoo\nqux";
    assert_eq!(result, expected);
}

#[test]
fn test_occurrence_index_out_of_bounds() {
    let content = "foo\nbar\nfoo";
    let blocks = vec![SearchReplaceBlock {
        search_lines: vec!["foo".to_string()],
        replace_lines: vec!["replaced".to_string()],
        occurrence_index: Some(5),
    }];

    let result = apply_search_replace(content, &blocks, |_| {});
    assert!(result.is_err());

    if let Err(err) = result {
        let error_msg = err.to_text().unwrap();
        assert!(error_msg.contains("Requested occurrence index 5 but only found 2 matches"));
    }
}

#[test]
fn test_parse_without_occurrence_index() {
    let input = r#"<<<<<<< SEARCH
foo
=======
bar
>>>>>>> REPLACE"#;

    let blocks = parse_search_replace_blocks(input).unwrap();
    assert_eq!(blocks.len(), 1);
    assert_eq!(blocks[0].occurrence_index, None);
    assert_eq!(blocks[0].search_lines, vec!["foo"]);
    assert_eq!(blocks[0].replace_lines, vec!["bar"]);
}

#[test]
fn simple_format_pairs_markers() {
    let input = "<<<\nold\n>>>\n<<<\nnew\n>>>";
    let blocks = parse_search_replace_blocks(input).unwrap();
    assert_eq!(blocks.len(), 1);
    assert_eq!(blocks[0].search_lines, vec!["old"]);
    assert_eq!(blocks[0].replace_lines, vec!["new"]);
    assert_eq!(blocks[0].occurrence_index, None);
}

#[test]
fn markdown_format_pairs_fences() {
    let input = "```\nold\n```\n\n```\nnew\n```";
    let blocks = parse_search_replace_blocks(input).unwrap();
    assert_eq!(blocks.len(), 1);
    assert_eq!(blocks[0].search_lines, vec!["old"]);
    assert_eq!(blocks[0].replace_lines, vec!["new"]);
}

#[test]
fn original_marker_mistake_is_named() {
    let err = parse_search_replace_blocks("<<<<<<< ORIGINAL\nx\n>>>>>>> UPDATED").unwrap_err();
    match err {
        SearchReplaceError::SyntaxError(m) => {
            assert!(m.starts_with(
                "Syntax error: Found '<<<<<<< ORIGINAL' which is incorrect. Use '<<<<<<< SEARCH' instead.\n\nPlease use one of these formats:"
            ));
        }
        other => panic!("unexpected: {:?}", other),
    }
}

#[test]
fn generic_syntax_error() {
    let err = parse_search_replace_blocks("just text").unwrap_err();
    match err {
        SearchReplaceError::SyntaxError(m) => {
            assert!(m.starts_with("No valid search replace blocks found."));
        }
        other => panic!("unexpected: {:?}", other),
    }
}

#[test]
fn a_block_without_index_replaces_every_occurrence() {
    let content = "foo\nbar\nfoo";
    let blocks = vec![SearchReplaceBlock {
        search_lines: vec!["foo".to_string()],
        replace_lines: vec!["replaced".to_string()],
        occurrence_index: None,
    }];
    let (result, warnings) = apply_search_replace(content, &blocks, |_| {}).unwrap();
    assert_eq!(result, "replaced\nbar\nreplaced");
    assert!(warnings.is_empty());
    let indented = "  foo\nbar\nfoo";
    let (result, _) = apply_search_replace(indented, &blocks, |_| {}).unwrap();
    assert_eq!(result, "  foo\nbar\nreplaced");
}

#[test]
fn missing_block_reports_content_and_search() {
    let blocks = vec![SearchReplaceBlock {
        search_lines: vec!["nope".to_string()],
        replace_lines: vec!["x".to_string()],
        occurrence_index: None,
    }];
    let err = apply_search_replace("a\nb", &blocks, |_| {}).unwrap_err();
    match err {
        SearchReplaceError::BlockNotFound { content_lines, search_lines } => {
            assert_eq!(content_lines, vec!["a", "b"]);
            assert_eq!(search_lines, vec!["nope"]);
        }
        other => panic!("unexpected: {:?}", other),
    }
}

#[test]
fn indentation_follows_the_matched_lines() {
    let content = "fn f() {\n        let a = 1;\n}";
    let blocks = vec![SearchReplaceBlock {
        search_lines: vec!["    let a = 1;".to_string()],
        replace_lines: vec!["    let a = 2;".to_string(), "    let b = 3;".to_string()],
        occurrence_index: None,
    }];
    let (result, warnings) = apply_search_replace(content, &blocks, |_| {}).unwrap();
    assert_eq!(result, "fn f() {\n        let a = 2;\n        let b = 3;\n}");
    assert_eq!(
        warnings,
        vec!["Warning: matching without considering indentation (leading spaces).".to_string()]
    );
}

#[test]
fn fallback_returns_the_same_error() {
    let blocks = vec![
        SearchReplaceBlock {
            search_lines: vec!["a".to_string()],
            replace_lines: vec!["b".to_string()],
            occurrence_index: None,
        },
        SearchReplaceBlock {
            search_lines: vec!["zzz".to_string()],
            replace_lines: vec!["y".to_string()],
            occurrence_index: None,
        },
    ];
    let err = apply_search_replace_with_fallback("a\nc", &blocks, |_: &str| {}).unwrap_err();
    assert!(matches!(err, SearchReplaceError::BlockNotFound { .. }));
    let ok = apply_search_replace_with_fallback("a\nc", &blocks[..1], |_: &str| {}).unwrap();
    assert_eq!(ok.0, "b\nc");
}

#[test]
fn detects_edit_blocks() {
    assert!(is_search_replace_content("<<<<<<< SEARCH\nx\n=======\ny\n>>>>>>> REPLACE", 100));
    assert!(!is_search_replace_content("fn main() {}\n", 100));
    assert!(is_search_replace_content("a\nb\nc\nd\ne\nf\ng\nh\ni\nj\nk\n=======\n", 10));
    assert!(!is_search_replace_content("a\nb\nc\nd\ne\nf\ng\nh\ni\nj\nk\n=======\n", 60));
}

#[test]
fn tolerance_level_helpers() {
    assert_eq!(ToleranceLevel::IgnoreAllWhitespace.process_line(" a  b "), "ab");
    assert_eq!(ToleranceLevel::IgnoreLeadingWhitespace.severity(), "WARNING");
    assert_eq!(ToleranceLevel::Exact.severity(), "SILENT");
    assert_eq!(ToleranceLevel::IgnoreTrailingWhitespace.score_multiplier(), 3);
    assert_eq!(ToleranceLevel::Exact.warning_message(), None);
    assert_eq!(ToleranceLevel::default_level(), ToleranceLevel::Exact);
}

#[test]
fn a_block_found_once_is_unique() {
    let content = "fn a() {}\nfn b() {\n    x();\n}\n";
    match verify_search_block_uniqueness(content, "fn b() {\n    x();") {
        UniquenessCheck::Unique(m) => {
            assert_eq!((m.range_start, m.range_end), (1, 3));
            assert_eq!(m.tolerance.level, ToleranceLevel::Exact);
        }
        _ => panic!("expected a unique match"),
    }
}

#[test]
fn a_repeated_block_reports_its_places() {
    let content = "x = 1\ny = 2\nx = 1\nz = 3\nx = 1\n";
    match verify_search_block_uniqueness(content, "x = 1") {
        UniquenessCheck::MultipleMatches { count, sample_matches, block_content } => {
            assert_eq!(count, 3);
            assert_eq!(sample_matches, vec![(0, 1), (2, 3), (4, 5)]);
            assert!(block_content.starts_with("x = 1\n\nSUGGESTION: This search block is very short"));
        }
        _ => panic!("expected several matches"),
    }
}

#[test]
fn a_missing_or_empty_block_is_not_found() {
    assert!(matches!(verify_search_block_uniqueness("a\nb\n", "c"), UniquenessCheck::NotFound));
    assert!(matches!(verify_search_block_uniqueness("a\nb\n", ""), UniquenessCheck::NotFound));
}

#[test]
fn edits_that_can_be_asked_for() {
    let block = |s: Vec<&str>| SearchReplaceBlock {
        search_lines: s.into_iter().map(str::to_string).collect(),
        replace_lines: vec!["x".to_string()],
        occurrence_index: None,
    };
    assert!(edit_defined("a\nb", &[block(vec!["a"])]));
    assert!(!edit_defined("a\nb", &[block(vec![])]));
    assert!(edit_defined("", &[block(vec![])]));
}
