//! The row transforms: the sorts on data and on empty tables.

use csvql::function::{Function, Functions};

fn get_data() -> (Vec<String>, Vec<Vec<String>>) {
    let fields = vec!["name".to_string(), "age".to_string(), "points".to_string()];
    let rows = vec![
        vec!["bob".to_string(), "45".to_string(), "60".to_string()],
        vec!["ossama".to_string(), "27".to_string(), "100".to_string()],
        vec!["jack".to_string(), "20".to_string(), "90".to_string()],
    ];
    (fields, rows)
}

fn get_empty_data() -> (Vec<String>, Vec<Vec<String>>) {
    (vec![], vec![])
}

fn equal_rows(expected_rows: &Vec<Vec<&str>>, rows: &Vec<Vec<String>>) -> bool {
    if expected_rows.len() != rows.len() {
        return false;
    }
    for (expected_row, actual_row) in expected_rows.iter().zip(rows.iter()) {
        if expected_row.len() != actual_row.len() {
            return false;
        }
        for (expected_cell, actual_cell) in expected_row.iter().zip(actual_row.iter()) {
            if *expected_cell != *actual_cell {
                return false;
            }
        }
    }
    true
}

#[test]
fn sort_test() {
    let (fields, mut rows) = get_data();
    let function = Function { function_name: Functions::Sort("name".to_string()) };
    function.run(&fields, &mut rows);
    let expected_rows = vec![
        vec!["bob", "45", "60"],
        vec!["jack", "20", "90"],
        vec!["ossama", "27", "100"],
    ];
    assert!(equal_rows(&expected_rows, &rows))
}

#[test]
fn empty_sort_test() {
    let (fields, mut rows) = get_empty_data();
    let function = Function { function_name: Functions::Sort("name".to_string()) };
    function.run(&fields, &mut rows);
    let expected_rows = vec![];
    assert!(equal_rows(&expected_rows, &rows))
}

#[test]
fn reverse_sort_test() {
    let (fields, mut rows) = get_data();
    let function = Function { function_name: Functions::ReverseSort("name".to_string()) };
    function.run(&fields, &mut rows);
    let expected_rows = vec![
        vec!["ossama", "27", "100"],
        vec!["jack", "20", "90"],
        vec!["bob", "45", "60"],
    ];
    assert!(equal_rows(&expected_rows, &rows))
}

#[test]
fn n_reverse_sort_test() {
    let (fields, mut rows) = get_data();
    let function = Function { function_name: Functions::ReverseNSort("points".to_string()) };
    function.run(&fields, &mut rows);
    let expected_rows = vec![
        vec!["ossama", "27", "100"],
        vec!["jack", "20", "90"],
        vec!["bob", "45", "60"],
    ];
    assert!(equal_rows(&expected_rows, &rows))
}

#[test]
fn n_sort_test() {
    let (fields, mut rows) = get_data();
    let function = Function { function_name: Functions::NSort("points".to_string()) };
    function.run(&fields, &mut rows);
    let expected_rows = vec![
        vec!["bob", "45", "60"],
        vec!["jack", "20", "90"],
        vec!["ossama", "27", "100"],
    ];
    assert!(equal_rows(&expected_rows, &rows))
}

#[test]
fn empty_n_sort_test() {
    let (fields, mut rows) = get_empty_data();
    let function = Function { function_name: Functions::Sort("age".to_string()) };
    function.run(&fields, &mut rows);
    let expected_rows = vec![];
    assert!(equal_rows(&expected_rows, &rows))
}

#[test]
fn head_removes_leading_rows() {
    let (fields, mut rows) = get_data();
    let function = Function { function_name: Functions::Head(1) };
    function.run(&fields, &mut rows);
    let expected_rows = vec![vec!["ossama", "27", "100"], vec!["jack", "20", "90"]];
    assert!(equal_rows(&expected_rows, &rows))
}

#[test]
fn tail_keeps_last_rows() {
    let (fields, mut rows) = get_data();
    let function = Function { function_name: Functions::Tail(2) };
    function.run(&fields, &mut rows);
    let expected_rows = vec![vec!["ossama", "27", "100"], vec!["jack", "20", "90"]];
    assert!(equal_rows(&expected_rows, &rows))
}

#[test]
fn head_and_tail_clamp_at_row_count() {
    let (fields, mut rows) = get_data();
    let function = Function { function_name: Functions::Head(9) };
    function.run(&fields, &mut rows);
    assert_eq!(rows.len(), 0);
    let (fields2, mut rows2) = get_data();
    let function2 = Function { function_name: Functions::Tail(9) };
    function2.run(&fields2, &mut rows2);
    assert_eq!(rows2.len(), 3);
}

#[test]
fn nsort_puts_non_numeric_last() {
    let fields = vec!["k".to_string()];
    let mut rows = vec![
        vec!["pear".to_string()],
        vec!["10".to_string()],
        vec!["2".to_string()],
    ];
    let function = Function { function_name: Functions::NSort("k".to_string()) };
    function.run(&fields, &mut rows);
    assert_eq!(rows[0][0], "2");
    assert_eq!(rows[1][0], "10");
    assert_eq!(rows[2][0], "pear");
}

#[test]
fn nrsort_also_puts_non_numeric_last() {
    let fields = vec!["k".to_string()];
    let mut rows = vec![
        vec!["pear".to_string()],
        vec!["10".to_string()],
        vec!["2".to_string()],
    ];
    let function = Function { function_name: Functions::ReverseNSort("k".to_string()) };
    function.run(&fields, &mut rows);
    assert_eq!(rows[0][0], "10");
    assert_eq!(rows[1][0], "2");
    assert_eq!(rows[2][0], "pear");
}
