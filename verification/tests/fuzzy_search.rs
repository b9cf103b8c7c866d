use winx_code_agent::diff::fuzzy_search::{
    apply_indentation_pattern, find_exact, find_original_position, find_original_position_checked,
    get_indentation,
    indentation_pattern_applies, normalize_indentation, normalize_whitespace, smart_replace_applies,
    smart_search_replace, truncate, ApproximateMatch, MatchType,
};

#[test]
fn test_apply_indentation_pattern() {
    let source = "    function hello() {\n        console.log('Hello');\n    }";
    let target = "function world() {\n    console.log('World');\n}";

    let result = apply_indentation_pattern(source, target);

    assert_eq!(
        result,
        "    function world() {\n        console.log('World');\n    }"
    );
}

#[test]
fn test_apply_indentation_pattern_edges() {
    // No source lines: the target comes back unchanged.
    assert_eq!(apply_indentation_pattern("", "a\n  b\n"), "a\n  b\n");
    // Blank target lines stay as they are; shallower lines lose bytes of
    // the base indentation.
    let source = "        x\n    y";
    let target = "p\n   \nq";
    assert_eq!(apply_indentation_pattern(source, target), "        p\n   \n        q");
    let source = "        a\n    b";
    let target = "c\nd";
    assert_eq!(apply_indentation_pattern(source, target), "        c\n    d");
}

#[test]
fn test_normalizations() {
    assert_eq!(normalize_whitespace("a  b\t\n c "), "a b c ");
    assert_eq!(normalize_whitespace(""), "");
    assert_eq!(normalize_indentation("  a\n\tb\n c\n"), "a\nb\nc");
    assert_eq!(get_indentation(" \t x "), " \t ");
    assert_eq!(get_indentation("x"), "");
}

#[test]
fn test_find_original_position() {
    let original = "a  b c";
    let normalized = normalize_whitespace(original);
    assert_eq!(normalized, "a b c");
    assert_eq!(find_original_position(original, &normalized, 0), 0);
    assert_eq!(find_original_position(original, &normalized, 3), 4);
    assert_eq!(find_original_position(original, &normalized, 5), 6);
}

#[test]
fn test_truncate_and_descriptions() {
    assert_eq!(truncate("short", 50), "short");
    assert_eq!(truncate("abcdefghij", 8), "abcde...");
    assert_eq!(MatchType::Exact.description(), "Exact match");
    assert_eq!(MatchType::Structure.description(), "Match with structural similarity");
}

#[test]
fn smart_replace_of_an_exact_occurrence() {
    let content = "function hello() {\n    console.log('Hello');\n}";
    let search = "console.log('Hello');";
    let replace = "console.log('Hello, World!');";
    assert!(smart_replace_applies(content, search, replace, true, &None));
    let (result, warnings) = smart_search_replace(content, search, replace, true, None).unwrap();
    assert!(warnings.is_empty());
    assert_eq!(result, "function hello() {\n    console.log('Hello, World!');\n}");
    // The first occurrence is the one replaced, the approximate match is not used.
    let other = Some(ApproximateMatch {
        start: 0,
        end: 1,
        match_type: MatchType::Structure,
        confidence: "60.0".to_string(),
    });
    let (result, warnings) = smart_search_replace("x y x", "x", "z", false, other).unwrap();
    assert!(warnings.is_empty());
    assert_eq!(result, "z y x");
}

#[test]
fn smart_replace_reindents_after_the_matched_text() {
    let content = "fn f() {\n    if a {\n        b();\n    }\n}";
    let search = "if a {\n        b();\n    }";
    let replace = "if c {\n    d();\n}";
    let (result, _) = smart_search_replace(content, search, replace, true, None).unwrap();
    assert_eq!(result, "fn f() {\n    if c {\n        d();\n    }\n}");
}

#[test]
fn smart_replace_without_any_match_fails() {
    let err = smart_search_replace("abc", "xyz", "q", false, None).unwrap_err();
    assert_eq!(err, "Could not find a suitable match for the search pattern");
}

#[test]
fn smart_replace_of_an_approximate_match_warns() {
    let m = ApproximateMatch {
        start: 0,
        end: 4,
        match_type: MatchType::Whitespace,
        confidence: "90.0".to_string(),
    };
    let (result, warnings) = smart_search_replace("a  b\nc", "a b", "X", false, Some(m)).unwrap();
    assert_eq!(result, "X\nc");
    assert_eq!(warnings, vec!["Using Match with whitespace differences (90.0% confidence)".to_string()]);
}

#[test]
fn smart_replace_needs_character_boundaries() {
    let inside = Some(ApproximateMatch {
        start: 1,
        end: 2,
        match_type: MatchType::WordChanges,
        confidence: "75.5".to_string(),
    });
    assert!(!smart_replace_applies("\u{e9}", "z", "q", false, &inside));
    let backwards = Some(ApproximateMatch {
        start: 1,
        end: 0,
        match_type: MatchType::WordChanges,
        confidence: "75.5".to_string(),
    });
    assert!(!smart_replace_applies("ab", "z", "q", false, &backwards));
    assert!(indentation_pattern_applies("    a", "x\n  y"));
}

#[test]
fn exact_matches_are_found_in_bytes() {
    assert_eq!(find_exact("h\u{e9}llo w\u{f6}rld", "w\u{f6}rld"), Some((7, 13)));
    assert_eq!(find_exact("abcabc", "bc"), Some((1, 3)));
    assert_eq!(find_exact("abc", ""), Some((0, 0)));
    assert_eq!(find_exact("abc", "x"), None);
}

#[test]
fn original_positions_past_the_normalized_text_are_refused() {
    assert_eq!(find_original_position_checked("a  b c", "a b c", 3), Some(4));
    assert_eq!(find_original_position_checked("a  b", "x", 5), None);
}
