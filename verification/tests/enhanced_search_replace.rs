use winx_code_agent::diff::search_replace::SearchReplaceBlock;
use winx_code_agent::diff::search_replace_enhanced::{BlockDiagnostic, EnhancedSearchReplace};

fn lines(v: &[&str]) -> Vec<String> {
    v.iter().map(|s| s.to_string()).collect()
}

fn hello_block() -> SearchReplaceBlock {
    SearchReplaceBlock {
        search_lines: lines(&["function hello() {", "    console.log(\"Hello\");", "}"]),
        replace_lines: lines(&["function hello() {", "    console.log(\"Hello, World!\");", "}"]),
    }
}

const CONTENT: &str = "function hello() {\n    console.log(\"Hello\");\n}\n\nconst x = 5;";

#[test]
fn test_apply_search_replace_success() {
    let engine = EnhancedSearchReplace::new();
    let blocks = vec![
        hello_block(),
        SearchReplaceBlock { search_lines: lines(&["const x = 5;"]), replace_lines: lines(&["const x = 10;"]) },
    ];
    let (result, failed) = engine.apply_search_replace(CONTENT, &blocks).unwrap();
    assert!(result.standard_result.changes_made);
    assert_eq!(
        result.standard_result.content,
        "function hello() {\n    console.log(\"Hello, World!\");\n}\n\nconst x = 10;"
    );
    assert_eq!(result.diagnostics.len(), 2);
    assert!(result.diagnostics[0].success);
    assert!(result.diagnostics[1].success);
    assert!(!result.applied_individually);
    assert!(failed.is_empty());
}

#[test]
fn test_generate_report() {
    let engine = EnhancedSearchReplace::new();
    let blocks = vec![hello_block()];
    let (result, _) = engine.apply_search_replace(CONTENT, &blocks).unwrap();
    let report = engine.generate_report(&result);
    assert!(report.contains("# Search/Replace Operation Report"));
    assert!(report.contains("**Status**: Changes Applied"));
    assert!(report.contains("Block #1"));
    assert!(report.contains("**Status**: Success"));
    assert!(report.contains("- **Tolerance**: Exact match\n- **Replaced Lines**: 1-3\n"));
    assert!(report.contains("- **Applied Individually**: No (batch application succeeded)\n\n## Block Diagnostics"));
}

#[test]
fn blocks_that_match_nowhere_are_applied_one_by_one() {
    let engine = EnhancedSearchReplace::new();
    let blocks = vec![
        hello_block(),
        SearchReplaceBlock { search_lines: lines(&["const y = 5;"]), replace_lines: lines(&["const y = 10;"]) },
    ];
    let (result, failed) = engine.apply_search_replace(CONTENT, &blocks).unwrap();
    let edited = "function hello() {\n    console.log(\"Hello, World!\");\n}\n\nconst x = 5;";
    assert!(result.standard_result.changes_made);
    assert_eq!(result.standard_result.content, edited);
    assert_eq!(result.diagnostics.len(), 2);
    assert!(result.diagnostics[0].success);
    assert!(!result.diagnostics[1].success);
    assert_eq!(
        result.diagnostics[1].error.as_deref(),
        Some("Could not find a match for search block #2: [\"const y = 5;\"]")
    );
    assert!(result.applied_individually);
    assert_eq!(failed, vec![(1, edited.to_string())]);
    assert_eq!(result.diagnostics[1].get_summary(), "Block #2: Failed - Could not find a match for search block #2: [\"const y = 5;\"]");
    assert_eq!(result.diagnostics[0].get_summary(), "Block #1: Success - Exact match");
}

#[test]
fn failures_are_reported_with_both_errors() {
    let engine = EnhancedSearchReplace::new();
    let blocks = vec![SearchReplaceBlock { search_lines: lines(&["nothing"]), replace_lines: lines(&["x"]) }];
    assert_eq!(
        engine.apply_search_replace("a\nb", &blocks).unwrap_err(),
        "Failed to apply search/replace blocks. Batch error: Could not find a match for search block #1: [\"nothing\"]. Individual error: Failed to apply any search/replace blocks"
    );
    let strict = EnhancedSearchReplace::new().with_individual_fallback(false);
    assert_eq!(
        strict.apply_search_replace("a\nb", &blocks).unwrap_err(),
        "Failed to apply search/replace blocks: Could not find a match for search block #1: [\"nothing\"]"
    );
    assert!(engine.edit_defined("a\nb", &blocks));
}

#[test]
fn failure_notes_fill_the_diagnostic_and_the_report() {
    let engine = EnhancedSearchReplace::new();
    let blocks = vec![
        hello_block(),
        SearchReplaceBlock { search_lines: lines(&["const y = 5;"]), replace_lines: lines(&["const y = 10;"]) },
    ];
    let (mut result, _) = engine.apply_search_replace(CONTENT, &blocks).unwrap();
    engine.add_failure_note(&mut result, 1, "const x = 5;".to_string(), "83.3".to_string(), &lines(&["Check it."]));
    assert_eq!(result.diagnostics[1].similar_content.as_deref(), Some("const x = 5;"));
    assert_eq!(result.suggestions, lines(&["Check it."]));
    let report = engine.generate_report(&result);
    assert!(report.contains("- **Similarity**: 83.3%\n\n**Similar Content Found**:\n```\nconst x = 5;\n```\n"));
    assert!(report.contains("## Suggestions\n\n- Check it.\n\n"));
}

#[test]
fn ambiguous_matches_are_counted() {
    let engine = EnhancedSearchReplace::new();
    let blocks = vec![SearchReplaceBlock { search_lines: lines(&["a"]), replace_lines: lines(&["b"]) }];
    let (result, _) = engine.apply_search_replace("a\nc\na", &blocks).unwrap();
    let d: &BlockDiagnostic = &result.diagnostics[0];
    assert!(d.has_ambiguous_matches());
    assert_eq!(d.get_summary(), "Block #1: Success with 2 matches (used first) - Exact match");
    assert_eq!(result.standard_result.content, "b\nc\na");
    assert!(result.standard_result.warnings.iter().any(|w| w.contains("matches multiple parts")));
}

#[test]
fn blocks_from_text_are_parsed_then_applied() {
    let engine = EnhancedSearchReplace::new();
    let text = "<<<<<<< SEARCH\nconst x = 5;\n=======\nconst x = 6;\n>>>>>>> REPLACE";
    assert!(engine.text_edit_defined(CONTENT, text));
    let (result, _) = engine.apply_from_text(CONTENT, text).unwrap();
    assert_eq!(
        result.standard_result.content,
        "function hello() {\n    console.log(\"Hello\");\n}\n\nconst x = 6;"
    );
    assert_eq!(
        engine.apply_from_text(CONTENT, "no blocks at all").unwrap_err(),
        "Failed to parse search/replace blocks: No valid blocks found. Use either <<<<<<< SEARCH/=======/>>>>>>> REPLACE format or search:/replace: prefix format."
    );
}
