use winx_code_agent::sql::query::{format_results_as_table, QueryResult};

fn strings(v: &[&str]) -> Vec<String> {
    v.iter().map(|s| s.to_string()).collect()
}

#[test]
fn test_format_results() {
    let result = QueryResult {
        columns: vec!["id".to_string(), "name".to_string()],
        rows: vec![
            vec!["1".to_string(), "Alice".to_string()],
            vec!["2".to_string(), "Bob".to_string()],
            vec!["3".to_string(), "Charlie".to_string()],
        ],
        row_count: 3,
    };

    let formatted = format_results_as_table(&result);
    let expected = "id | name   \n---+--------\n1  | Alice  \n2  | Bob    \n3  | Charlie\n\n3 row(s) returned";

    assert_eq!(formatted, expected);
}

#[test]
fn test_empty_results() {
    let result = QueryResult {
        columns: vec!["id".to_string(), "name".to_string()],
        rows: Vec::new(),
        row_count: 0,
    };

    let formatted = format_results_as_table(&result);
    assert_eq!(formatted, "No results found.");
}

#[test]
fn test_extra_cells_are_written_unpadded() {
    let result = QueryResult {
        columns: strings(&["a"]),
        rows: vec![strings(&["xyz", "extra"]), strings(&[])],
        row_count: 7,
    };
    let formatted = format_results_as_table(&result);
    assert_eq!(formatted, "a  \n---\nxyz | extra\n\n\n7 row(s) returned");
}

#[test]
fn test_width_counts_bytes_padding_counts_chars() {
    // "é" takes two bytes, so the column is two wide while "é" itself is
    // one character and gets one space of padding.
    let result = QueryResult {
        columns: strings(&["c"]),
        rows: vec![strings(&["é"])],
        row_count: 1,
    };
    let formatted = format_results_as_table(&result);
    assert_eq!(formatted, "c \n--\né \n\n1 row(s) returned");
}
