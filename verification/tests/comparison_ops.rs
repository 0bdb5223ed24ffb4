//! The comparison operators, numeric and string, on single rows.

use csvql::comparison::{Comparison, ComparisonOps};
use csvql::numeric::Number;
use csvql::value::Value;

fn num(units: u64) -> Value {
    Value::Number(Number { neg: false, mag: units })
}

fn get_test_data() -> (Vec<String>, Vec<String>) {
    let fields = vec!["name".to_string(), "age".to_string(), "points".to_string()];
    let row = vec!["bob".to_string(), "45".to_string(), "60".to_string()];
    (fields, row)
}

#[test]
fn test_equal_operator_field_to_value() {
    let (fields, row) = get_test_data();
    let comparison = Comparison {
        field_name: "age".to_string(),
        comparison_op: ComparisonOps::Equal,
        rhs: num(45_000_000_000),
    };
    assert!(comparison.evaluate(&fields, &row));
}

#[test]
fn test_equal_operator_field_to_field() {
    let (fields, row) = get_test_data();
    let comparison = Comparison {
        field_name: "age".to_string(),
        comparison_op: ComparisonOps::Equal,
        rhs: Value::FieldName("age".to_string()),
    };
    assert!(comparison.evaluate(&fields, &row));
    let comparison = Comparison {
        field_name: "age".to_string(),
        comparison_op: ComparisonOps::Equal,
        rhs: Value::FieldName("points".to_string()),
    };
    assert!(!comparison.evaluate(&fields, &row));
}

#[test]
fn test_less_than_operator_field_to_field() {
    let (fields, row) = get_test_data();
    let comparison = Comparison {
        field_name: "age".to_string(),
        comparison_op: ComparisonOps::LessThan,
        rhs: Value::FieldName("points".to_string()),
    };
    assert!(comparison.evaluate(&fields, &row));
    let comparison = Comparison {
        field_name: "points".to_string(),
        comparison_op: ComparisonOps::LessThan,
        rhs: Value::FieldName("age".to_string()),
    };
    assert!(!comparison.evaluate(&fields, &row));
}

#[test]
fn test_greater_than_operator_field_to_field() {
    let (fields, row) = get_test_data();
    let comparison = Comparison {
        field_name: "points".to_string(),
        comparison_op: ComparisonOps::GreaterThan,
        rhs: Value::FieldName("age".to_string()),
    };
    assert!(comparison.evaluate(&fields, &row));
    let comparison = Comparison {
        field_name: "age".to_string(),
        comparison_op: ComparisonOps::GreaterThan,
        rhs: Value::FieldName("points".to_string()),
    };
    assert!(!comparison.evaluate(&fields, &row));
}

#[test]
fn test_between_operator_with_fields() {
    let (fields, row) = get_test_data();
    let comparison = Comparison {
        field_name: "age".to_string(),
        comparison_op: ComparisonOps::BetweenOp(
            Value::FieldName("points".to_string()),
            num(40_000_000_000),
        ),
        rhs: Value::Absent,
    };
    assert!(!comparison.evaluate(&fields, &row));
    let comparison = Comparison {
        field_name: "points".to_string(),
        comparison_op: ComparisonOps::BetweenOp(
            Value::FieldName("age".to_string()),
            num(70_000_000_000),
        ),
        rhs: Value::Absent,
    };
    assert!(comparison.evaluate(&fields, &row));
}

#[test]
fn test_mixed_comparisons() {
    let (fields, row) = get_test_data();
    let comparison = Comparison {
        field_name: "age".to_string(),
        comparison_op: ComparisonOps::Equal,
        rhs: Value::Literal("($points - 15)".to_string()),
    };
    let _ = comparison.evaluate(&fields, &row);
}

#[test]
fn test_invalid_field_comparison() {
    let (fields, row) = get_test_data();
    let comparison = Comparison {
        field_name: "age".to_string(),
        comparison_op: ComparisonOps::Equal,
        rhs: Value::FieldName("nonexistent".to_string()),
    };
    assert!(!comparison.evaluate(&fields, &row));
}

fn get_string_data() -> (Vec<String>, Vec<String>) {
    let fields = vec![
        "name".to_string(),
        "department".to_string(),
        "email".to_string(),
    ];
    let row = vec![
        "John Doe".to_string(),
        "Engineering".to_string(),
        "john.doe@example.com".to_string(),
    ];
    (fields, row)
}

#[test]
fn test_is_operator() {
    let (fields, row) = get_string_data();
    let comparison = Comparison {
        field_name: "name".to_string(),
        comparison_op: ComparisonOps::Is,
        rhs: Value::Literal("John Doe".to_string()),
    };
    assert!(comparison.evaluate(&fields, &row));
    let comparison = Comparison {
        field_name: "name".to_string(),
        comparison_op: ComparisonOps::Is,
        rhs: Value::FieldName("name".to_string()),
    };
    assert!(comparison.evaluate(&fields, &row));
}

#[test]
fn test_is_not_operator() {
    let (fields, row) = get_string_data();
    let comparison = Comparison {
        field_name: "name".to_string(),
        comparison_op: ComparisonOps::IsNot,
        rhs: Value::Literal("Jane Doe".to_string()),
    };
    assert!(comparison.evaluate(&fields, &row));
    let comparison = Comparison {
        field_name: "name".to_string(),
        comparison_op: ComparisonOps::IsNot,
        rhs: Value::FieldName("department".to_string()),
    };
    assert!(comparison.evaluate(&fields, &row));
}

#[test]
fn test_contains_operator() {
    let (fields, row) = get_string_data();
    let comparison = Comparison {
        field_name: "email".to_string(),
        comparison_op: ComparisonOps::Contains,
        rhs: Value::Literal("example".to_string()),
    };
    assert!(comparison.evaluate(&fields, &row));
    let comparison = Comparison {
        field_name: "email".to_string(),
        comparison_op: ComparisonOps::Contains,
        rhs: Value::FieldName("name".to_string()),
    };
    assert!(!comparison.evaluate(&fields, &row));
}

#[test]
fn test_in_operator() {
    let (fields, row) = get_string_data();
    let comparison = Comparison {
        field_name: "department".to_string(),
        comparison_op: ComparisonOps::In,
        rhs: Value::List(vec![
            "HR".to_string(),
            "Engineering".to_string(),
            "Finance".to_string(),
        ]),
    };
    assert!(comparison.evaluate(&fields, &row));
    let comparison = Comparison {
        field_name: "name".to_string(),
        comparison_op: ComparisonOps::In,
        rhs: Value::List(vec![
            "Engineering".to_string(),
            "john.doe@example.com".to_string(),
        ]),
    };
    assert!(!comparison.evaluate(&fields, &row));
}

#[test]
fn test_starts_with_operator() {
    let (fields, row) = get_string_data();
    let comparison = Comparison {
        field_name: "email".to_string(),
        comparison_op: ComparisonOps::StartsWith,
        rhs: Value::Literal("john".to_string()),
    };
    assert!(comparison.evaluate(&fields, &row));
    let comparison = Comparison {
        field_name: "email".to_string(),
        comparison_op: ComparisonOps::StartsWith,
        rhs: Value::FieldName("name".to_string()),
    };
    assert!(!comparison.evaluate(&fields, &row));
}

#[test]
fn test_ends_with_operator() {
    let (fields, row) = get_string_data();
    let comparison = Comparison {
        field_name: "email".to_string(),
        comparison_op: ComparisonOps::EndsWith,
        rhs: Value::Literal("example.com".to_string()),
    };
    assert!(comparison.evaluate(&fields, &row));
    let comparison = Comparison {
        field_name: "name".to_string(),
        comparison_op: ComparisonOps::EndsWith,
        rhs: Value::FieldName("department".to_string()),
    };
    assert!(!comparison.evaluate(&fields, &row));
}

#[test]
fn test_case_sensitivity() {
    let (fields, row) = get_string_data();
    let comparison = Comparison {
        field_name: "name".to_string(),
        comparison_op: ComparisonOps::Is,
        rhs: Value::Literal("john doe".to_string()),
    };
    assert!(!comparison.evaluate(&fields, &row));
    let comparison = Comparison {
        field_name: "email".to_string(),
        comparison_op: ComparisonOps::Contains,
        rhs: Value::Literal("EXAMPLE".to_string()),
    };
    assert!(!comparison.evaluate(&fields, &row));
}
