//! The facade: tokenizer, binder and renderer in one call.

use vstd::prelude::*;
use vstd::string::*;
use crate::bind::{ErrorModel, ParseError, ParsedModel, ParsedResult, bind, spec_bind};
use crate::render::{render, spec_render};
use crate::schema::{OptionSpec, PositionalSpec, Schema};
use crate::token::{
    Token,
    TokenModel,
    find_long_from,
    find_short_from,
    scan,
    spec_scan,
    texts,
    token_views,
};

verus! {

/// How a call of `parse` ended.
#[derive(Clone, Debug, PartialEq, Eq)]
pub enum Outcome {
    /// The command line bound to this.
    Parsed(ParsedResult),
    /// Help was asked for: the usage text.
    HelpRequested(String),
    /// The command line did not bind: the error and the usage text.
    Failed(ParseError, String),
}

/// An outcome as the contracts see it.
pub enum OutcomeModel {
    /// The command line bound to this.
    Parsed(ParsedModel),
    /// Help was asked for: the usage text.
    HelpRequested(Seq<char>),
    /// The command line did not bind: the error and the usage text.
    Failed(ErrorModel, Seq<char>),
}

impl View for Outcome {
    type V = OutcomeModel;

    open spec fn view(&self) -> OutcomeModel {
        match *self {
            Outcome::Parsed(p) => OutcomeModel::Parsed(p@),
            Outcome::HelpRequested(text) => OutcomeModel::HelpRequested(text@),
            Outcome::Failed(e, text) => OutcomeModel::Failed(e@, text@),
        }
    }
}

/// The token asks for help: `--help` or `-h`, where the grammar gives that
/// name or alias to no option of its own.
pub open spec fn asks_help(opts: Seq<OptionSpec>, t: TokenModel) -> bool {
    match t {
        TokenModel::Long(name, _) => name == "help"@ && find_long_from(opts, name, 0) is None,
        TokenModel::Short(c, _) => c == 'h' && find_short_from(opts, c, 0) is None,
        _ => false,
    }
}

/// Some token asks for help.
pub open spec fn wants_help(opts: Seq<OptionSpec>, ts: Seq<TokenModel>) -> bool {
    exists|i: int| 0 <= i < ts.len() && asks_help(opts, #[trigger] ts[i])
}

/// What the tokens of a command line come to.
pub open spec fn outcome_of(opts: Seq<OptionSpec>, pos: Seq<PositionalSpec>, ts: Seq<TokenModel>)
    -> OutcomeModel {
    if wants_help(opts, ts) {
        OutcomeModel::HelpRequested(spec_render(opts, pos))
    } else {
        match spec_bind(opts, pos, ts) {
            Ok(p) => OutcomeModel::Parsed(p),
            Err(e) => OutcomeModel::Failed(e, spec_render(opts, pos)),
        }
    }
}

/// What a command line comes to.
pub open spec fn spec_parse(opts: Seq<OptionSpec>, pos: Seq<PositionalSpec>, args: Seq<Seq<char>>)
    -> OutcomeModel {
    outcome_of(opts, pos, spec_scan(opts, args))
}

/// The exit code that callers conventionally map an outcome to.
pub open spec fn spec_exit_code(o: OutcomeModel) -> u8 {
    match o {
        OutcomeModel::Failed(_, _) => 2,
        _ => 0,
    }
}

/// Says whether some token asks for help.
pub fn help_requested(schema: &Schema, tokens: &Vec<Token>) -> (r: bool)
    ensures
        r == wants_help(schema.options@, token_views(tokens@)),
{
    let help = String::from_str("help");
    let mut i: usize = 0;
    while i < tokens.len()
        invariant
            i <= tokens.len(),
            help@ == "help"@,
            forall|j: int| 0 <= j < i ==> !asks_help(schema.options@, #[trigger] token_views(tokens@)[j]),
        decreases tokens.len() - i,
    {
        assert(token_views(tokens@)[i as int] == tokens@[i as int]@);
        let asks = match &tokens[i] {
            Token::LongOption(name, _) => *name == help && schema.find_long(name).is_none(),
            Token::ShortOption(c, _) => *c == 'h' && schema.find_short(*c).is_none(),
            _ => false,
        };
        if asks {
            return true;
        }
        i += 1;
    }
    false
}

/// Settles what already classified tokens come to: the usage text where one
/// of them asks for help; else what they bind to, or the error and the usage
/// text.
pub fn resolve(schema: &Schema, tokens: &Vec<Token>) -> (out: Outcome)
    ensures
        out@ == outcome_of(schema.options@, schema.positionals@, token_views(tokens@)),
{
    if help_requested(schema, tokens) {
        return Outcome::HelpRequested(render(schema));
    }
    match bind(schema, tokens) {
        Ok(p) => Outcome::Parsed(p),
        Err(e) => Outcome::Failed(e, render(schema)),
    }
}

/// Parses a command line, the program's name left out, against a grammar.
/// Nothing is printed and the process is never ended: the caller gets the
/// outcome as a value.
pub fn parse(schema: &Schema, args: &Vec<String>) -> (out: Outcome)
    ensures
        out@ == spec_parse(schema.options@, schema.positionals@, texts(args@)),
{
    let tokens = scan(schema, args);
    resolve(schema, &tokens)
}

impl Outcome {
    /// The conventional exit code: 2 after a failure, 0 otherwise.
    pub fn exit_code(&self) -> (code: u8)
        ensures
            code == spec_exit_code(self@),
    {
        match self {
            Outcome::Failed(_, _) => 2,
            _ => 0,
        }
    }
}

} // verus!
