use iq_cli::schema::{Arity, OptionSpec, ValueKind};
use iq_cli::value::{among, convert, parse_boolean, parse_integer, Value};

fn spec(kind: ValueKind) -> OptionSpec {
    OptionSpec {
        long: "x".to_string(),
        short: None,
        arity: Arity::Single,
        required: false,
        default: None,
        kind,
        choices: vec!["one".to_string(), "two".to_string()],
        help: String::new(),
    }
}

#[test]
fn integers_in_range() {
    assert_eq!(parse_integer("0"), Some(0));
    assert_eq!(parse_integer("3"), Some(3));
    assert_eq!(parse_integer("-3"), Some(-3));
    assert_eq!(parse_integer("007"), Some(7));
    assert_eq!(parse_integer("-0"), Some(0));
    assert_eq!(parse_integer("1234567890"), Some(1234567890));
    assert_eq!(parse_integer("9223372036854775807"), Some(i64::MAX));
    assert_eq!(parse_integer("-9223372036854775808"), Some(i64::MIN));
    assert_eq!(parse_integer("-9223372036854775807"), Some(-9223372036854775807));
}

#[test]
fn integers_out_of_range() {
    assert_eq!(parse_integer("9223372036854775808"), None);
    assert_eq!(parse_integer("-9223372036854775809"), None);
    assert_eq!(parse_integer("18446744073709551616"), None);
    assert_eq!(parse_integer("99999999999999999999999999"), None);
}

#[test]
fn texts_that_write_no_integer() {
    assert_eq!(parse_integer(""), None);
    assert_eq!(parse_integer("-"), None);
    assert_eq!(parse_integer("+3"), None);
    assert_eq!(parse_integer("3 "), None);
    assert_eq!(parse_integer("--3"), None);
    assert_eq!(parse_integer("3x"), None);
    assert_eq!(parse_integer("٣"), None);
    assert_eq!(parse_integer("99999999999999999999999999x"), None);
}

#[test]
fn booleans() {
    assert_eq!(parse_boolean("true"), Some(true));
    assert_eq!(parse_boolean("false"), Some(false));
    assert_eq!(parse_boolean("True"), None);
    assert_eq!(parse_boolean("truee"), None);
    assert_eq!(parse_boolean(""), None);
    assert_eq!(parse_boolean("1"), None);
}

#[test]
fn choices() {
    let list = vec!["one".to_string(), "two".to_string()];
    assert!(among(&list, &"two".to_string()));
    assert!(!among(&list, &"three".to_string()));
    assert!(!among(&Vec::new(), &"one".to_string()));
}

#[test]
fn conversion_by_kind() {
    let raw = "12".to_string();
    assert_eq!(convert(&spec(ValueKind::Text), &raw), Some(Value::Text("12".to_string())));
    assert_eq!(convert(&spec(ValueKind::Path), &raw), Some(Value::Path("12".to_string())));
    assert_eq!(convert(&spec(ValueKind::Integer), &raw), Some(Value::Integer(12)));
    assert_eq!(convert(&spec(ValueKind::Boolean), &raw), None);
    assert_eq!(convert(&spec(ValueKind::Choice), &raw), None);
    assert_eq!(
        convert(&spec(ValueKind::Choice), &"one".to_string()),
        Some(Value::Choice("one".to_string()))
    );
    assert_eq!(
        convert(&spec(ValueKind::Boolean), &"true".to_string()),
        Some(Value::Boolean(true))
    );
    assert_eq!(convert(&spec(ValueKind::Integer), &"x".to_string()), None);
}

#[test]
fn default_as_a_value() {
    let with = OptionSpec { default: Some("12".to_string()), ..spec(ValueKind::Integer) };
    assert_eq!(with.default_value(), Some(Value::Integer(12)));
    let wrong = OptionSpec { default: Some("x".to_string()), ..spec(ValueKind::Integer) };
    assert_eq!(wrong.default_value(), None);
    assert_eq!(spec(ValueKind::Text).default_value(), None);
}
