use oxttl::{is_turtle_boolean, is_turtle_decimal, is_turtle_double, is_turtle_integer};

#[test]
fn booleans() {
    assert!(is_turtle_boolean("true"));
    assert!(is_turtle_boolean("false"));
    assert!(!is_turtle_boolean("TRUE"));
    assert!(!is_turtle_boolean("True"));
    assert!(!is_turtle_boolean("1"));
    assert!(!is_turtle_boolean(""));
    assert!(!is_turtle_boolean("true "));
    assert!(!is_turtle_boolean("falsé"));
}

#[test]
fn integers() {
    assert!(is_turtle_integer("0"));
    assert!(is_turtle_integer("42"));
    assert!(is_turtle_integer("+42"));
    assert!(is_turtle_integer("-007"));
    assert!(!is_turtle_integer(""));
    assert!(!is_turtle_integer("+"));
    assert!(!is_turtle_integer("-"));
    assert!(!is_turtle_integer("4 2"));
    assert!(!is_turtle_integer("42."));
    assert!(!is_turtle_integer("4.2"));
    assert!(!is_turtle_integer("+-4"));
    assert!(!is_turtle_integer("4e2"));
    assert!(!is_turtle_integer("٤٢"));
}

#[test]
fn decimals() {
    assert!(is_turtle_decimal("4.2"));
    assert!(is_turtle_decimal(".2"));
    assert!(is_turtle_decimal("-.2"));
    assert!(is_turtle_decimal("+0.25"));
    assert!(!is_turtle_decimal("5"));
    assert!(!is_turtle_decimal("5."));
    assert!(!is_turtle_decimal("."));
    assert!(!is_turtle_decimal(""));
    assert!(!is_turtle_decimal("4.2.1"));
    assert!(!is_turtle_decimal("4.2e1"));
    assert!(!is_turtle_decimal("4,2"));
}

#[test]
fn doubles() {
    assert!(is_turtle_double("4.2e1"));
    assert!(is_turtle_double("4.2E1"));
    assert!(is_turtle_double("4.e1"));
    assert!(is_turtle_double(".2e1"));
    assert!(is_turtle_double("4e1"));
    assert!(is_turtle_double("-4e-1"));
    assert!(is_turtle_double("+4.25E+10"));
    assert!(!is_turtle_double("4.2"));
    assert!(!is_turtle_double("42"));
    assert!(!is_turtle_double(".e1"));
    assert!(!is_turtle_double("e1"));
    assert!(!is_turtle_double("4e"));
    assert!(!is_turtle_double("4e+"));
    assert!(!is_turtle_double("4e1.5"));
    assert!(!is_turtle_double("4e1 "));
    assert!(!is_turtle_double(""));
    assert!(!is_turtle_double("INF"));
    assert!(!is_turtle_double("NaN"));
}
