use iq_cli::bind::{bind, ParseError, ParsedResult};
use iq_cli::schema::{Arity, Multiplicity, OptionSpec, PositionalSpec, Schema, ValueKind};
use iq_cli::token::{scan, Token};
use iq_cli::value::Value;

fn opt(long: &str, short: Option<char>, arity: Arity, kind: ValueKind, required: bool) -> OptionSpec {
    OptionSpec {
        long: long.to_string(),
        short,
        arity,
        required,
        default: None,
        kind,
        choices: vec!["red".to_string(), "green".to_string()],
        help: String::new(),
    }
}

fn pos(name: &str, required: bool, multiplicity: Multiplicity) -> PositionalSpec {
    PositionalSpec { name: name.to_string(), required, multiplicity }
}

fn strings(items: &[&str]) -> Vec<String> {
    items.iter().map(|s| s.to_string()).collect()
}

// Options, by index: name, verbose, count, include, color, dry, out.
fn tool() -> Schema {
    let options = vec![
        opt("name", Some('n'), Arity::Single, ValueKind::Text, false),
        opt("verbose", Some('v'), Arity::Flag, ValueKind::Boolean, false),
        opt("count", Some('c'), Arity::Single, ValueKind::Integer, false),
        opt("include", Some('I'), Arity::Cumulative, ValueKind::Path, false),
        opt("color", None, Arity::Single, ValueKind::Choice, false),
        opt("dry", None, Arity::Single, ValueKind::Boolean, false),
        opt("out", Some('o'), Arity::Single, ValueKind::Text, false),
    ];
    let positionals = vec![
        pos("input", true, Multiplicity::ExactlyOne),
        pos("output", false, Multiplicity::ZeroOrOne),
    ];
    Schema::build(options, positionals).unwrap()
}

fn run(schema: &Schema, items: &[&str]) -> Result<ParsedResult, ParseError> {
    bind(schema, &scan(schema, &strings(items)))
}

#[test]
fn integer_option_yields_the_integer() {
    let r = run(&tool(), &["--count=3", "in"]).unwrap();
    assert_eq!(r.values[2], vec![Value::Integer(3)]);
    assert_ne!(r.values[2], vec![Value::Text("3".to_string())]);
}

#[test]
fn inline_and_separate_value_bind_identically() {
    let a = run(&tool(), &["--name=value", "in"]);
    let b = run(&tool(), &["--name", "value", "in"]);
    assert_eq!(a, b);
    assert_eq!(a.unwrap().values[0], vec![Value::Text("value".to_string())]);
}

#[test]
fn clusters_bind_as_the_options_written_apart() {
    let schema = tool();
    let a = run(&schema, &["-vnval", "in"]);
    let b = run(&schema, &["-v", "-n=val", "in"]);
    let c = run(&schema, &["-vn", "val", "in"]);
    let d = run(&schema, &["-v", "-n", "val", "in"]);
    assert_eq!(a, b);
    assert_eq!(c, d);
    assert_eq!(a, c);
    let r = a.unwrap();
    assert_eq!(r.values[1], vec![Value::Boolean(true)]);
    assert_eq!(r.values[0], vec![Value::Text("val".to_string())]);
}

#[test]
fn unknown_long_option_is_named() {
    assert_eq!(
        run(&tool(), &["--bogus"]),
        Err(ParseError::UnknownOption("bogus".to_string()))
    );
}

#[test]
fn unknown_short_option_is_named() {
    assert_eq!(
        run(&tool(), &["in", "-z"]),
        Err(ParseError::UnknownOption("z".to_string()))
    );
}

#[test]
fn missing_required_names_exactly_that_option() {
    let options = vec![
        opt("first", None, Arity::Single, ValueKind::Text, true),
        opt("second", None, Arity::Single, ValueKind::Text, true),
        opt("third", None, Arity::Flag, ValueKind::Boolean, true),
    ];
    let schema = Schema::build(options, Vec::new()).unwrap();
    assert_eq!(
        run(&schema, &["--first=1", "--third"]),
        Err(ParseError::MissingRequired("second".to_string()))
    );
    assert_eq!(
        run(&schema, &[]),
        Err(ParseError::MissingRequired("first".to_string()))
    );
    assert!(run(&schema, &["--third", "--second", "2", "--first", "1"]).is_ok());
}

#[test]
fn tokens_after_separator_are_kept_verbatim() {
    let schema = Schema::build(Vec::new(), Vec::new()).unwrap();
    let r = run(&schema, &["--", "--foo"]).unwrap();
    assert_eq!(r.extra, strings(&["--foo"]));
    assert!(r.positionals.is_empty());
}

#[test]
fn option_tokens_after_a_separator_token_are_written_out() {
    let schema = tool();
    let tokens = vec![
        Token::PlainValue("in".to_string()),
        Token::Separator,
        Token::LongOption("name".to_string(), None),
        Token::LongOption("name".to_string(), Some("x".to_string())),
        Token::ShortOption('v', None),
        Token::ShortOption('n', Some("y".to_string())),
        Token::Separator,
        Token::PlainValue("z".to_string()),
    ];
    let r = bind(&schema, &tokens).unwrap();
    assert_eq!(r.extra, strings(&["--name", "--name=x", "-v", "-n=y", "--", "z"]));
    assert_eq!(r.positionals, strings(&["in"]));
    assert!(r.values[0].is_empty());
}

#[test]
fn end_to_end_scenario() {
    let options = vec![
        opt("name", None, Arity::Single, ValueKind::Text, true),
        opt("verbose", Some('v'), Arity::Flag, ValueKind::Boolean, false),
    ];
    let positionals = vec![pos("file", true, Multiplicity::OneOrMore)];
    let schema = Schema::build(options, positionals).unwrap();
    let r = run(&schema, &["--name", "iq", "-v", "a.txt", "b.txt"]).unwrap();
    assert_eq!(
        r,
        ParsedResult {
            values: vec![vec![Value::Text("iq".to_string())], vec![Value::Boolean(true)]],
            positionals: strings(&["a.txt", "b.txt"]),
            extra: Vec::new(),
        }
    );
    assert_eq!(r.get(&schema, &"name".to_string()), Some(&vec![Value::Text("iq".to_string())]));
    assert_eq!(r.get(&schema, &"verbose".to_string()), Some(&vec![Value::Boolean(true)]));
    assert_eq!(r.get(&schema, &"other".to_string()), None);
}

#[test]
fn single_option_keeps_the_last_value() {
    let r = run(&tool(), &["--name=a", "-n", "b", "in", "--name", "c"]).unwrap();
    assert_eq!(r.values[0], vec![Value::Text("c".to_string())]);
}

#[test]
fn cumulative_option_keeps_every_value_in_order() {
    let r = run(&tool(), &["-Ia", "in", "--include=b", "--include", "c"]).unwrap();
    assert_eq!(
        r.values[3],
        vec![
            Value::Path("a".to_string()),
            Value::Path("b".to_string()),
            Value::Path("c".to_string()),
        ]
    );
}

#[test]
fn absent_options_hold_nothing() {
    let r = run(&tool(), &["in"]).unwrap();
    assert_eq!(r.values.len(), 7);
    assert!(r.values.iter().all(|v| v.is_empty()));
    assert_eq!(r.positionals, strings(&["in"]));
}

#[test]
fn flag_repeated_is_still_one_true() {
    let r = run(&tool(), &["-vv", "--verbose", "in"]).unwrap();
    assert_eq!(r.values[1], vec![Value::Boolean(true)]);
}

#[test]
fn flag_with_a_value_is_invalid() {
    assert_eq!(
        run(&tool(), &["--verbose=yes", "in"]),
        Err(ParseError::InvalidValue(
            "verbose".to_string(),
            "yes".to_string(),
            ValueKind::Boolean
        ))
    );
}

#[test]
fn missing_value_at_the_end() {
    assert_eq!(
        run(&tool(), &["in", "--name"]),
        Err(ParseError::MissingValue("name".to_string()))
    );
}

#[test]
fn missing_value_before_another_option() {
    assert_eq!(
        run(&tool(), &["--name", "--verbose", "in"]),
        Err(ParseError::MissingValue("name".to_string()))
    );
    assert_eq!(
        run(&tool(), &["-n", "--", "in"]),
        Err(ParseError::MissingValue("name".to_string()))
    );
}

#[test]
fn invalid_integer_names_option_text_and_kind() {
    assert_eq!(
        run(&tool(), &["--count=3x", "in"]),
        Err(ParseError::InvalidValue(
            "count".to_string(),
            "3x".to_string(),
            ValueKind::Integer
        ))
    );
}

#[test]
fn choice_and_boolean_values() {
    let r = run(&tool(), &["--color", "green", "--dry=false", "in"]).unwrap();
    assert_eq!(r.values[4], vec![Value::Choice("green".to_string())]);
    assert_eq!(r.values[5], vec![Value::Boolean(false)]);
    assert_eq!(
        run(&tool(), &["--color=blue", "in"]),
        Err(ParseError::InvalidValue(
            "color".to_string(),
            "blue".to_string(),
            ValueKind::Choice
        ))
    );
    assert_eq!(
        run(&tool(), &["--dry=TRUE", "in"]),
        Err(ParseError::InvalidValue(
            "dry".to_string(),
            "TRUE".to_string(),
            ValueKind::Boolean
        ))
    );
}

#[test]
fn first_error_wins() {
    assert_eq!(
        run(&tool(), &["--count=x", "--bogus"]),
        Err(ParseError::InvalidValue(
            "count".to_string(),
            "x".to_string(),
            ValueKind::Integer
        ))
    );
    assert_eq!(
        run(&tool(), &["--bogus", "--count=x"]),
        Err(ParseError::UnknownOption("bogus".to_string()))
    );
}

#[test]
fn too_few_positionals_names_the_unfilled_one() {
    assert_eq!(
        run(&tool(), &["-v"]),
        Err(ParseError::TooFewPositionals("input".to_string()))
    );
}

#[test]
fn too_many_positionals_names_the_surplus_value() {
    assert_eq!(
        run(&tool(), &["a", "b", "c", "d"]),
        Err(ParseError::TooManyPositionals("c".to_string()))
    );
}

#[test]
fn optional_positional_may_be_absent_or_present() {
    assert_eq!(run(&tool(), &["a"]).unwrap().positionals, strings(&["a"]));
    assert_eq!(run(&tool(), &["a", "b"]).unwrap().positionals, strings(&["a", "b"]));
}

#[test]
fn missing_required_is_checked_before_positionals() {
    let options = vec![opt("must", None, Arity::Single, ValueKind::Text, true)];
    let positionals = vec![pos("input", true, Multiplicity::ExactlyOne)];
    let schema = Schema::build(options, positionals).unwrap();
    assert_eq!(
        run(&schema, &[]),
        Err(ParseError::MissingRequired("must".to_string()))
    );
}

#[test]
fn multi_valued_positional_needs_one_value() {
    let positionals = vec![pos("file", false, Multiplicity::OneOrMore)];
    let schema = Schema::build(Vec::new(), positionals).unwrap();
    assert_eq!(
        run(&schema, &[]),
        Err(ParseError::TooFewPositionals("file".to_string()))
    );
    assert_eq!(run(&schema, &["a", "b", "c"]).unwrap().positionals, strings(&["a", "b", "c"]));
}

#[test]
fn error_messages() {
    assert_eq!(
        ParseError::UnknownOption("bogus".to_string()).message(),
        "unknown option: bogus"
    );
    assert_eq!(
        ParseError::MissingValue("name".to_string()).message(),
        "missing value for option: name"
    );
    assert_eq!(
        ParseError::InvalidValue("count".to_string(), "3x".to_string(), ValueKind::Integer)
            .message(),
        "invalid value for option count: 3x (expected integer)"
    );
    assert_eq!(
        ParseError::MissingRequired("name".to_string()).message(),
        "missing required option: name"
    );
    assert_eq!(
        ParseError::TooFewPositionals("file".to_string()).message(),
        "missing argument: file"
    );
    assert_eq!(
        ParseError::TooManyPositionals("x".to_string()).message(),
        "unexpected argument: x"
    );
}

#[test]
fn positionals_take_values_in_grammar_order() {
    let positionals = vec![
        pos("first", true, Multiplicity::ExactlyOne),
        pos("rest", false, Multiplicity::OneOrMore),
    ];
    let schema = Schema::build(Vec::new(), positionals).unwrap();
    let r = run(&schema, &["a", "b", "c"]).unwrap();
    assert_eq!(r.positional(&schema, 0), strings(&["a"]));
    assert_eq!(r.positional(&schema, 1), strings(&["b", "c"]));
    assert!(r.positional(&schema, 2).is_empty());
    let r = run(&tool(), &["a"]).unwrap();
    assert_eq!(r.positional(&tool(), 0), strings(&["a"]));
    assert!(r.positional(&tool(), 1).is_empty());
}
