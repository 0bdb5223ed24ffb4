//! The fixed-point numbers: parsing, rendering and arithmetic.

use csvql::numeric::{parse_number_str, Number, UNIT};

fn parse(s: &str) -> Option<Number> {
    parse_number_str(s)
}

#[test]
fn parses_integers_and_fractions() {
    assert_eq!(parse("45"), Some(Number { neg: false, mag: 45 * UNIT }));
    assert_eq!(parse("4.5"), Some(Number { neg: false, mag: 4_500_000_000 }));
    assert_eq!(parse("-3"), Some(Number { neg: true, mag: 3 * UNIT }));
    assert_eq!(parse("+2"), Some(Number { neg: false, mag: 2 * UNIT }));
    assert_eq!(parse(".5"), Some(Number { neg: false, mag: 500_000_000 }));
    assert_eq!(parse("5."), Some(Number { neg: false, mag: 5 * UNIT }));
    assert_eq!(parse("007"), Some(Number { neg: false, mag: 7 * UNIT }));
}

#[test]
fn rejects_non_numerals() {
    assert_eq!(parse(""), None);
    assert_eq!(parse("-"), None);
    assert_eq!(parse("."), None);
    assert_eq!(parse("bob"), None);
    assert_eq!(parse("4.5.6"), None);
    assert_eq!(parse("4x"), None);
    assert_eq!(parse("12345678901"), None);
}

#[test]
fn renders_canonical_decimal_text() {
    assert_eq!(parse("46").unwrap().render(), "46");
    assert_eq!(parse("4.50").unwrap().render(), "4.5");
    assert_eq!(parse("-0.25").unwrap().render(), "-0.25");
    assert_eq!(parse("0.000000001").unwrap().render(), "0.000000001");
    assert_eq!(parse("-0").unwrap().render(), "0");
}

#[test]
fn arithmetic_is_exact_to_nine_places() {
    let a = parse("0.1").unwrap();
    let b = parse("0.2").unwrap();
    assert_eq!(a.add(b).unwrap().render(), "0.3");
    let c = parse("250").unwrap();
    let d = parse("3").unwrap();
    assert_eq!(c.div(d).unwrap().render(), "83.333333333");
    let e = parse("1.5").unwrap();
    assert_eq!(e.mul(e).unwrap().render(), "2.25");
    assert_eq!(c.sub(d).unwrap().render(), "247");
    assert_eq!(c.rem(d).render(), "1");
}

#[test]
fn sums_too_large_to_represent_are_refused() {
    let big = parse("9999999999").unwrap();
    assert_eq!(big.add(big), None);
    assert_eq!(big.mul(big), None);
}
