use iq_cli::schema::{
    Arity, Multiplicity, OptionSpec, PositionalSpec, Schema, SchemaError, ValueKind,
};

fn opt(long: &str, short: Option<char>) -> OptionSpec {
    OptionSpec {
        long: long.to_string(),
        short,
        arity: Arity::Single,
        required: false,
        default: None,
        kind: ValueKind::Text,
        choices: Vec::new(),
        help: String::new(),
    }
}

fn pos(name: &str, required: bool, multiplicity: Multiplicity) -> PositionalSpec {
    PositionalSpec { name: name.to_string(), required, multiplicity }
}

#[test]
fn well_formed_declaration_builds() {
    let options = vec![opt("name", Some('n')), opt("count", None), opt("path", None)];
    let positionals = vec![
        pos("input", true, Multiplicity::ExactlyOne),
        pos("output", false, Multiplicity::ZeroOrOne),
    ];
    let schema = Schema::build(options.clone(), positionals.clone()).unwrap();
    assert_eq!(schema.options, options);
    assert_eq!(schema.positionals, positionals);
}

#[test]
fn empty_declaration_builds() {
    assert!(Schema::build(Vec::new(), Vec::new()).is_ok());
}

#[test]
fn duplicate_long_name_is_refused() {
    let options = vec![opt("name", Some('n')), opt("count", Some('c')), opt("name", None)];
    assert_eq!(
        Schema::build(options, Vec::new()),
        Err(SchemaError::DuplicateLongName("name".to_string()))
    );
}

#[test]
fn duplicate_alias_is_refused() {
    let options = vec![opt("name", Some('n')), opt("count", None), opt("number", Some('n'))];
    assert_eq!(
        Schema::build(options, Vec::new()),
        Err(SchemaError::DuplicateShortAlias('n'))
    );
}

#[test]
fn duplicate_long_name_comes_before_duplicate_alias() {
    let options = vec![opt("a", Some('x')), opt("b", Some('x')), opt("a", None)];
    assert_eq!(
        Schema::build(options, Vec::new()),
        Err(SchemaError::DuplicateLongName("a".to_string()))
    );
}

#[test]
fn options_without_alias_do_not_clash() {
    let options = vec![opt("a", None), opt("b", None)];
    assert!(Schema::build(options, Vec::new()).is_ok());
}

#[test]
fn required_after_optional_is_refused() {
    let positionals = vec![
        pos("maybe", false, Multiplicity::ZeroOrOne),
        pos("must", true, Multiplicity::ExactlyOne),
    ];
    assert_eq!(
        Schema::build(Vec::new(), positionals),
        Err(SchemaError::InvalidPositionalOrder("must".to_string()))
    );
}

#[test]
fn anything_after_multi_valued_is_refused() {
    let positionals = vec![
        pos("files", true, Multiplicity::OneOrMore),
        pos("last", false, Multiplicity::ZeroOrOne),
    ];
    assert_eq!(
        Schema::build(Vec::new(), positionals),
        Err(SchemaError::InvalidPositionalOrder("last".to_string()))
    );
}

#[test]
fn multi_valued_last_is_accepted() {
    let positionals = vec![
        pos("first", true, Multiplicity::ExactlyOne),
        pos("files", true, Multiplicity::OneOrMore),
    ];
    assert!(Schema::build(Vec::new(), positionals).is_ok());
}

#[test]
fn find_by_name_and_alias() {
    let schema =
        Schema::build(vec![opt("name", Some('n')), opt("count", Some('c'))], Vec::new()).unwrap();
    assert_eq!(schema.find_long(&"count".to_string()), Some(1));
    assert_eq!(schema.find_long(&"bogus".to_string()), None);
    assert_eq!(schema.find_short('n'), Some(0));
    assert_eq!(schema.find_short('z'), None);
}
