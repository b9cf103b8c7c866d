use winx_code_agent::diff::edit::apply_simple_edit;

#[test]
fn simple_edits_replace_every_occurrence() {
    assert_eq!(apply_simple_edit("a-b-c", "-", "+"), "a+b+c");
    assert_eq!(apply_simple_edit("aaa", "aa", "b"), "ba");
    assert_eq!(apply_simple_edit("abc", "x", "y"), "abc");
    assert_eq!(apply_simple_edit("abc", "", "x"), "xaxbxcx");
    assert_eq!(apply_simple_edit("h\u{e9}llo h\u{e9}llo", "h\u{e9}", "ha"), "hallo hallo");
}
