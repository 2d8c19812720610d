use iq_cli::schema::{Arity, OptionSpec, PositionalSpec, Schema, ValueKind};
use iq_cli::token::{scan, Token};

fn opt(long: &str, short: Option<char>, arity: Arity, kind: ValueKind) -> OptionSpec {
    OptionSpec {
        long: long.to_string(),
        short,
        arity,
        required: false,
        default: None,
        kind,
        choices: Vec::new(),
        help: String::new(),
    }
}

fn abc() -> Schema {
    let options = vec![
        opt("alpha", Some('a'), Arity::Flag, ValueKind::Boolean),
        opt("beta", Some('b'), Arity::Flag, ValueKind::Boolean),
        opt("gamma", Some('c'), Arity::Single, ValueKind::Text),
    ];
    let positionals: Vec<PositionalSpec> = Vec::new();
    Schema::build(options, positionals).unwrap()
}

fn args(items: &[&str]) -> Vec<String> {
    items.iter().map(|s| s.to_string()).collect()
}

#[test]
fn long_option_without_value() {
    let tokens = scan(&abc(), &args(&["--alpha"]));
    assert_eq!(tokens, vec![Token::LongOption("alpha".to_string(), None)]);
}

#[test]
fn long_option_splits_at_first_equals() {
    let tokens = scan(&abc(), &args(&["--gamma=x=y"]));
    assert_eq!(
        tokens,
        vec![Token::LongOption("gamma".to_string(), Some("x=y".to_string()))]
    );
}

#[test]
fn long_option_with_empty_value() {
    let tokens = scan(&abc(), &args(&["--gamma="]));
    assert_eq!(
        tokens,
        vec![Token::LongOption("gamma".to_string(), Some(String::new()))]
    );
}

#[test]
fn plain_values_and_lone_dash() {
    let tokens = scan(&abc(), &args(&["file", "-", ""]));
    assert_eq!(
        tokens,
        vec![
            Token::PlainValue("file".to_string()),
            Token::PlainValue("-".to_string()),
            Token::PlainValue(String::new()),
        ]
    );
}

#[test]
fn separator_turns_the_rest_into_plain_values() {
    let tokens = scan(&abc(), &args(&["-a", "--", "--alpha", "-b", "--"]));
    assert_eq!(
        tokens,
        vec![
            Token::ShortOption('a', None),
            Token::Separator,
            Token::PlainValue("--alpha".to_string()),
            Token::PlainValue("-b".to_string()),
            Token::PlainValue("--".to_string()),
        ]
    );
}

#[test]
fn cluster_of_flags_then_separate_value() {
    let together = scan(&abc(), &args(&["-abc", "val"]));
    let apart = scan(&abc(), &args(&["-a", "-b", "-c", "val"]));
    assert_eq!(together, apart);
    assert_eq!(
        together,
        vec![
            Token::ShortOption('a', None),
            Token::ShortOption('b', None),
            Token::ShortOption('c', None),
            Token::PlainValue("val".to_string()),
        ]
    );
}

#[test]
fn cluster_with_value_written_against_it() {
    let together = scan(&abc(), &args(&["-abcval"]));
    let apart = scan(&abc(), &args(&["-a", "-b", "-c=val"]));
    assert_eq!(together, apart);
    assert_eq!(
        together,
        vec![
            Token::ShortOption('a', None),
            Token::ShortOption('b', None),
            Token::ShortOption('c', Some("val".to_string())),
        ]
    );
}

#[test]
fn value_option_in_the_middle_ends_the_cluster() {
    let tokens = scan(&abc(), &args(&["-acab"]));
    assert_eq!(
        tokens,
        vec![
            Token::ShortOption('a', None),
            Token::ShortOption('c', Some("ab".to_string())),
        ]
    );
}

#[test]
fn unknown_characters_in_a_cluster_stand_alone() {
    let tokens = scan(&abc(), &args(&["-xy"]));
    assert_eq!(
        tokens,
        vec![Token::ShortOption('x', None), Token::ShortOption('y', None)]
    );
}

#[test]
fn non_ascii_text_is_split_by_characters() {
    let tokens = scan(&abc(), &args(&["--gamma=é=ü", "-cñandú"]));
    assert_eq!(
        tokens,
        vec![
            Token::LongOption("gamma".to_string(), Some("é=ü".to_string())),
            Token::ShortOption('c', Some("ñandú".to_string())),
        ]
    );
}

#[test]
fn no_arguments_no_tokens() {
    let tokens = scan(&abc(), &Vec::new());
    assert!(tokens.is_empty());
}
