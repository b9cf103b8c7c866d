use winx_code_agent::lsp::symbol::{
    create_position, create_range, format_symbol_info, Symbol, SymbolLocation, SymbolPosition, SymbolRange,
};
use winx_code_agent::lsp::types::SymbolKind;
use winx_code_agent::lsp::utils::{extract_range, insert_at_position, replace_range};

fn symbol(name: &str, kind: SymbolKind, line: u32, children: Vec<Symbol>) -> Symbol {
    Symbol {
        name: name.to_string(),
        kind,
        location: SymbolLocation {
            relative_path: "src/lib.rs".to_string(),
            line,
            column: 4,
            range: create_range(line, 0, line + 1, 1),
        },
        children,
        body: None,
    }
}

#[test]
fn ranges_of_text_are_taken() {
    let text = "fn a() {\n    body();\n}\nfn b() {}";
    assert_eq!(extract_range(text, &create_range(1, 4, 1, 10)), "body()");
    assert_eq!(extract_range(text, &create_range(0, 3, 2, 1)), "a() {\n    body();\n}");
    assert_eq!(extract_range(text, &create_range(1, 40, 1, 50)), "");
    assert_eq!(extract_range(text, &create_range(9, 0, 9, 3)), "");
}

#[test]
fn ranges_of_text_are_replaced() {
    let text = "fn a() {\n    old();\n}\nfn b() {}";
    assert_eq!(
        replace_range(text, &create_range(1, 4, 1, 9), "new()"),
        "fn a() {\n    new();\n}\nfn b() {}"
    );
    assert_eq!(replace_range("one\ntwo", &create_range(0, 0, 0, 3), "1"), "1\ntwo");
}

#[test]
fn text_is_inserted_with_padding() {
    assert_eq!(insert_at_position("ab\ncd", &create_position(1, 1), "X"), "ab\ncXd");
    assert_eq!(insert_at_position("ab", &create_position(2, 3), "X"), "ab\n\n   X");
    assert_eq!(insert_at_position("ab", &create_position(0, 4), "X"), "ab  X");
    assert_eq!(create_position(3, 4), SymbolPosition { line: 3, column: 4 });
    assert_eq!(create_range(1, 2, 3, 4).end, SymbolPosition { line: 3, column: 4 });
    let _: SymbolRange = create_range(0, 0, 0, 0);
}

#[test]
fn symbols_are_found_before_their_children() {
    let tree = vec![
        symbol("Parser", SymbolKind::Struct, 0, vec![symbol("parse", SymbolKind::Method, 2, vec![])]),
        symbol("parse_all", SymbolKind::Function, 10, vec![]),
    ];
    let exact: Vec<&str> = Symbol::find_by_name(&tree, "parse", false).iter().map(|s| s.name.as_str()).collect();
    assert_eq!(exact, vec!["parse"]);
    let sub: Vec<&str> = Symbol::find_by_name(&tree, "arse", true).iter().map(|s| s.name.as_str()).collect();
    assert_eq!(sub, vec!["Parser", "parse", "parse_all"]);
    let methods: Vec<&str> = Symbol::find_by_kind(&tree, SymbolKind::Method).iter().map(|s| s.name.as_str()).collect();
    assert_eq!(methods, vec!["parse"]);
}

#[test]
fn symbols_are_listed_with_their_children() {
    let s = symbol("Parser", SymbolKind::Struct, 0, vec![symbol("parse", SymbolKind::Method, 2, vec![])]);
    assert_eq!(format_symbol_info(&s, false, 2, ""), "Struct Parser (src/lib.rs:1:5)");
    assert_eq!(
        format_symbol_info(&s, true, 2, "> "),
        "> Struct Parser (src/lib.rs:1:5)\n>   Method parse (src/lib.rs:3:5)\n"
    );
    assert_eq!(format_symbol_info(&s, true, 0, ""), "Struct Parser (src/lib.rs:1:5)");
    assert_eq!(SymbolKind::Struct.code(), 23);
}

#[test]
fn a_symbol_body_is_its_lines() {
    let s = symbol("f", SymbolKind::Function, 1, vec![]);
    assert_eq!(s.get_body("a\nfn f() {\n}\nb"), "fn f() {\n}");
}
