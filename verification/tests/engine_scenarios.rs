//! Whole command lines run against the example table.

use csvql::query::QueryOutput;
use csvql::query;

fn table() -> (Vec<String>, Vec<Vec<String>>) {
    let fields = vec!["name".to_string(), "age".to_string(), "points".to_string()];
    let rows = vec![
        vec!["bob".to_string(), "45".to_string(), "60".to_string()],
        vec!["ossama".to_string(), "27".to_string(), "100".to_string()],
        vec!["jack".to_string(), "20".to_string(), "90".to_string()],
    ];
    (fields, rows)
}

fn run(line: &str, fields: &mut Vec<String>, rows: &mut Vec<Vec<String>>) -> QueryOutput {
    query(line.to_string(), fields, rows)
}

fn expect_rows(out: QueryOutput) -> (Vec<String>, Vec<Vec<String>>) {
    match out {
        QueryOutput::Rows(h, r) => (h, r),
        other => panic!("expected rows, got {:?}", other),
    }
}

fn expect_value(out: QueryOutput) -> String {
    match out {
        QueryOutput::Value(s) => s,
        other => panic!("expected a value, got {:?}", other),
    }
}

#[test]
fn get_filters_rows_numerically() {
    let (mut f, mut r) = table();
    let (h, rows) = expect_rows(run("get * where $age > 30", &mut f, &mut r));
    assert_eq!(h, vec!["name", "age", "points"]);
    assert_eq!(rows, vec![vec!["bob", "45", "60"]]);
    // the table itself is untouched
    assert_eq!(r.len(), 3);
}

#[test]
fn get_projects_selected_columns() {
    let (mut f, mut r) = table();
    let (h, rows) = expect_rows(run("get name age where $points >= 90", &mut f, &mut r));
    assert_eq!(h, vec!["name", "age"]);
    assert_eq!(rows, vec![vec!["ossama", "27"], vec!["jack", "20"]]);
}

#[test]
fn get_sorts_lexicographically() {
    let (mut f, mut r) = table();
    let (_, rows) = expect_rows(run("get * sort name", &mut f, &mut r));
    assert_eq!(rows[0][0], "bob");
    assert_eq!(rows[1][0], "jack");
    assert_eq!(rows[2][0], "ossama");
}

#[test]
fn get_sorts_numerically() {
    let (mut f, mut r) = table();
    let (_, rows) = expect_rows(run("get * nsort points", &mut f, &mut r));
    assert_eq!(rows[0][2], "60");
    assert_eq!(rows[1][2], "90");
    assert_eq!(rows[2][2], "100");
}

#[test]
fn aggregations_reduce_points() {
    let (mut f, mut r) = table();
    assert_eq!(expect_value(run("sum $points", &mut f, &mut r)), "250");
    assert_eq!(expect_value(run("count $points", &mut f, &mut r)), "3");
    assert_eq!(
        expect_value(run("avg $points", &mut f, &mut r)),
        "83.333333333"
    );
}

#[test]
fn mean_takes_the_middle_value() {
    let (mut f, mut r) = table();
    assert_eq!(expect_value(run("mean $points", &mut f, &mut r)), "90");
}

#[test]
fn counter_tallies_raw_strings() {
    let mut f = vec!["team".to_string()];
    let mut r = vec![
        vec!["red".to_string()],
        vec!["blue".to_string()],
        vec!["red".to_string()],
    ];
    match run("counter $team", &mut f, &mut r) {
        QueryOutput::Counter(pairs) => {
            assert_eq!(pairs.len(), 2);
            assert_eq!(pairs[0].0, "red");
            assert_eq!(pairs[0].1, 2);
            assert_eq!(pairs[1].0, "blue");
            assert_eq!(pairs[1].1, 1);
        },
        other => panic!("expected a counter, got {:?}", other),
    }
}

#[test]
fn delete_removes_matching_rows() {
    let (mut f, mut r) = table();
    let out = run("delete where $age < 25", &mut f, &mut r);
    assert!(matches!(out, QueryOutput::Done));
    assert_eq!(r.len(), 2);
    assert_eq!(r[0][0], "bob");
    assert_eq!(r[1][0], "ossama");
}

#[test]
fn set_rewrites_filtered_rows() {
    let (mut f, mut r) = table();
    let out = run("set $age = $age + 1 where $name is \"bob\"", &mut f, &mut r);
    assert!(matches!(out, QueryOutput::Done));
    assert_eq!(r[0][1], "46");
    assert_eq!(r[1][1], "27");
    assert_eq!(r[2][1], "20");
}

#[test]
fn insert_row_defaults_missing_cells() {
    let (mut f, mut r) = table();
    let out = run("insert-row $name = \"alice\" $age = 30", &mut f, &mut r);
    assert!(matches!(out, QueryOutput::Done));
    assert_eq!(r.len(), 4);
    assert_eq!(r[3], vec!["alice", "30", ""]);
}

#[test]
fn insert_column_fills_only_matching_rows() {
    let (mut f, mut r) = table();
    let out = run("insert-column $senior = $age where $age > 30", &mut f, &mut r);
    assert!(matches!(out, QueryOutput::Done));
    assert_eq!(f, vec!["name", "age", "points", "senior"]);
    assert_eq!(r[0], vec!["bob", "45", "60", "45"]);
    assert_eq!(r[1], vec!["ossama", "27", "100", ""]);
    assert_eq!(r[2], vec!["jack", "20", "90", ""]);
}

#[test]
fn every_mutation_keeps_rows_rectangular() {
    let (mut f, mut r) = table();
    run("set $age = $age * 2", &mut f, &mut r);
    run("insert-row $name = \"zoe\"", &mut f, &mut r);
    run("insert-column $extra = \"x\"", &mut f, &mut r);
    run("delete where $age > 50", &mut f, &mut r);
    for row in &r {
        assert_eq!(row.len(), f.len());
    }
}

#[test]
fn get_is_repeatable_and_leaves_the_table() {
    let (mut f, mut r) = table();
    let before_f = f.clone();
    let before_r = r.clone();
    let first = expect_rows(run("get * where $points >= 90 sort name", &mut f, &mut r));
    let second = expect_rows(run("get * where $points >= 90 sort name", &mut f, &mut r));
    assert_eq!(first, second);
    assert_eq!(f, before_f);
    assert_eq!(r, before_r);
}

#[test]
fn between_with_reversed_bounds_is_always_false() {
    let (mut f, mut r) = table();
    let (_, rows) = expect_rows(run("get * where $age between 100 and 0", &mut f, &mut r));
    assert_eq!(rows.len(), 0);
}

#[test]
fn numeric_comparison_on_text_is_false_not_fatal() {
    let (mut f, mut r) = table();
    let (_, rows) = expect_rows(run("get * where $name > 10", &mut f, &mut r));
    assert_eq!(rows.len(), 0);
}

#[test]
fn in_operator_matches_list_elements() {
    let (mut f, mut r) = table();
    let (_, rows) = expect_rows(run(
        "get * where $name in [\"bob\",\"jack\"]",
        &mut f,
        &mut r,
    ));
    assert_eq!(rows.len(), 2);
}

#[test]
fn case_conversion_runs_through_set() {
    let (mut f, mut r) = table();
    run("set $name = $name to-upper", &mut f, &mut r);
    assert_eq!(r[0][0], "BOB");
    assert_eq!(r[1][0], "OSSAMA");
    run("set $name = $name to-lower || \"!\"", &mut f, &mut r);
    assert_eq!(r[0][0], "bob!");
}

#[test]
fn division_renders_fractions_and_by_zero_keeps_lhs() {
    let (mut f, mut r) = table();
    run("set $age = $age / 2 where $name is \"bob\"", &mut f, &mut r);
    assert_eq!(r[0][1], "22.5");
    run("set $age = $age / 0 where $name is \"bob\"", &mut f, &mut r);
    assert_eq!(r[0][1], "22.5");
}

#[test]
fn power_and_modulo_compute() {
    let (mut f, mut r) = table();
    run("set $points = $points % 7 where $name is \"bob\"", &mut f, &mut r);
    assert_eq!(r[0][2], "4");
    run("set $points = $points ^ 3 where $name is \"bob\"", &mut f, &mut r);
    assert_eq!(r[0][2], "64");
}

#[test]
fn condition_connectives_combine() {
    let (mut f, mut r) = table();
    let (_, rows) = expect_rows(run(
        "get * where $age > 30 or ( $points >= 90 and not $name is \"jack\" )",
        &mut f,
        &mut r,
    ));
    assert_eq!(rows.len(), 2);
    assert_eq!(rows[0][0], "bob");
    assert_eq!(rows[1][0], "ossama");
}

#[test]
fn malformed_lines_are_rejected_untouched() {
    let (mut f, mut r) = table();
    assert!(matches!(run("get", &mut f, &mut r), QueryOutput::SyntaxError));
    assert!(matches!(run("set", &mut f, &mut r), QueryOutput::SyntaxError));
    assert!(matches!(
        run("delete where", &mut f, &mut r),
        QueryOutput::SyntaxError
    ));
    assert!(matches!(
        run("get * where $age >", &mut f, &mut r),
        QueryOutput::SyntaxError
    ));
    assert!(matches!(run("bogus line", &mut f, &mut r), QueryOutput::NoCommand));
    assert_eq!(r.len(), 3);
    assert_eq!(f.len(), 3);
}

#[test]
fn selecting_an_unknown_field_yields_nothing() {
    let (mut f, mut r) = table();
    assert!(matches!(run("get nothere", &mut f, &mut r), QueryOutput::Done));
}

#[test]
fn head_and_tail_slice_the_working_set() {
    let (mut f, mut r) = table();
    let (_, rows) = expect_rows(run("get * sort name head 1", &mut f, &mut r));
    assert_eq!(rows.len(), 2);
    assert_eq!(rows[0][0], "jack");
    let (_, rows2) = expect_rows(run("get * sort name tail 1", &mut f, &mut r));
    assert_eq!(rows2, vec![vec!["ossama", "27", "100"]]);
}

#[test]
fn aggregation_respects_the_filter() {
    let (mut f, mut r) = table();
    assert_eq!(
        expect_value(run("sum $points where $age > 25", &mut f, &mut r)),
        "160"
    );
    assert_eq!(
        expect_value(run("count $points where $age > 100", &mut f, &mut r)),
        "0"
    );
}

#[test]
fn modification_chains_nest_to_the_right() {
    let mut f = vec!["x".to_string()];
    let mut r = vec![vec!["0".to_string()]];
    run("set $x = 1 + 2 * 3", &mut f, &mut r);
    assert_eq!(r[0][0], "7");
    run("set $x = \"a\" || \"b\" || \"c\"", &mut f, &mut r);
    assert_eq!(r[0][0], "abc");
}

#[test]
fn lists_keep_one_kind_of_element() {
    let (mut f, mut r) = table();
    let (_, rows) = expect_rows(run("get * where $age in [45,20]", &mut f, &mut r));
    assert_eq!(rows.len(), 2);
    assert!(matches!(
        run("get * where $age in [45,\"x\"]", &mut f, &mut r),
        QueryOutput::SyntaxError
    ));
}

#[test]
fn list_lexemes_rejoin_on_the_removed_space() {
    let (mut f, mut r) = table();
    // the space reappears inside the second element, which then reads as
    // neither a number nor a literal
    assert!(matches!(
        run("get * where $age in [45, 20]", &mut f, &mut r),
        QueryOutput::SyntaxError
    ));
}

#[test]
fn not_equal_needs_both_sides_numeric() {
    let (mut f, mut r) = table();
    let (_, rows) = expect_rows(run("get * where $age != 45", &mut f, &mut r));
    assert_eq!(rows.len(), 2);
    assert_eq!(rows[0][0], "ossama");
    assert_eq!(rows[1][0], "jack");
    // a cell that does not parse as a number fails the comparison
    let (_, none) = expect_rows(run("get * where $name != 10", &mut f, &mut r));
    assert_eq!(none.len(), 0);
    // against the empty literal, the cell must merely be non-empty
    let (_, all) = expect_rows(run("get * where $age != \"\"", &mut f, &mut r));
    assert_eq!(all.len(), 3);
}
