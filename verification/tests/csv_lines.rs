//! The table's text form: header and row lines.

use csvql::csv::{parse_header_line, load_row, render_line, trim_str, split_line};

#[test]
fn header_names_are_split_and_trimmed() {
    let fields = parse_header_line("name, age ,points", ',').unwrap();
    assert_eq!(fields, vec!["name", "age", "points"]);
}

#[test]
fn empty_header_names_are_rejected() {
    assert!(parse_header_line("name,,points", ',').is_none());
}

#[test]
fn rows_load_only_when_the_cell_count_matches() {
    let fields = vec!["a".to_string(), "b".to_string()];
    let mut rows: Vec<Vec<String>> = Vec::new();
    assert!(load_row(&fields, &mut rows, " 1 ,2", ','));
    assert!(!load_row(&fields, &mut rows, "1,2,3", ','));
    assert_eq!(rows, vec![vec!["1", "2"]]);
}

#[test]
fn lines_render_with_the_separator() {
    let cells = vec!["a".to_string(), "b".to_string(), "c".to_string()];
    assert_eq!(render_line(&cells, ","), "a,b,c");
    assert_eq!(render_line(&vec!["x".to_string()], ";"), "x");
}

#[test]
fn trimming_strips_surrounding_whitespace() {
    assert_eq!(trim_str("  a b \t"), "a b");
    assert_eq!(trim_str(""), "");
    assert_eq!(trim_str(" \t "), "");
}

#[test]
fn splitting_keeps_empty_cells() {
    assert_eq!(split_line("a,,b", ','), vec!["a", "", "b"]);
    assert_eq!(split_line("", ','), vec![""]);
}
