//! The binder: tokens held against the grammar, one at a time, left to right.

use vstd::prelude::*;
use vstd::string::*;
use crate::schema::{
    Arity,
    Multiplicity,
    OptionSpec,
    PositionalSpec,
    Schema,
    ValueKind,
    demands,
    kind_name,
};
use crate::text::{char_string, push_char};
use crate::token::{Token, TokenModel, find_long_from, find_short_from, texts, token_views};
use crate::value::{Value, ValueModel, convert, spec_convert};

verus! {

/// What a command line bound to: for each option of the grammar, in its
/// order, the values it was given (none where it was absent, one for a flag
/// or a single-valued option, all of them in the order met for a cumulative
/// one); the positional values; and what followed the separator.
#[derive(Clone, Debug, PartialEq, Eq)]
pub struct ParsedResult {
    /// The values of each option, by the option's index in the grammar.
    pub values: Vec<Vec<Value>>,
    /// The positional values, in order.
    pub positionals: Vec<String>,
    /// The arguments after the separator, as written.
    pub extra: Vec<String>,
}

/// Why a command line did not bind.
#[derive(Clone, Debug, PartialEq, Eq)]
pub enum ParseError {
    /// No option has this name or alias.
    UnknownOption(String),
    /// This option carries a value and none came.
    MissingValue(String),
    /// This option was given this text, which is no value of this kind.
    InvalidValue(String, String, ValueKind),
    /// This required option is absent.
    MissingRequired(String),
    /// This positional must be given a value and has none.
    TooFewPositionals(String),
    /// This value is one more than the positionals take.
    TooManyPositionals(String),
}

/// A result as the contracts see it.
pub struct ParsedModel {
    /// The values of each option.
    pub values: Seq<Seq<ValueModel>>,
    /// The positional values.
    pub positionals: Seq<Seq<char>>,
    /// The arguments after the separator.
    pub extra: Seq<Seq<char>>,
}

/// An error as the contracts see it.
pub enum ErrorModel {
    /// No option has this name or alias.
    UnknownOption(Seq<char>),
    /// This option carries a value and none came.
    MissingValue(Seq<char>),
    /// This option was given this text, which is no value of this kind.
    InvalidValue(Seq<char>, Seq<char>, ValueKind),
    /// This required option is absent.
    MissingRequired(Seq<char>),
    /// This positional must be given a value and has none.
    TooFewPositionals(Seq<char>),
    /// This value is one more than the positionals take.
    TooManyPositionals(Seq<char>),
}

/// Where the binder stands between two tokens.
pub struct BindState {
    /// What has been bound so far.
    pub parsed: ParsedModel,
    /// The option that waits for its value.
    pub pending: Option<int>,
    /// The separator has been met.
    pub after_sep: bool,
}

/// The values of each option, each as the contracts see it.
pub open spec fn value_views(vs: Seq<Vec<Value>>) -> Seq<Seq<ValueModel>> {
    Seq::new(vs.len(), |i: int| Seq::new(vs[i]@.len(), |j: int| vs[i]@[j]@))
}

impl View for ParsedResult {
    type V = ParsedModel;

    open spec fn view(&self) -> ParsedModel {
        ParsedModel {
            values: value_views(self.values@),
            positionals: texts(self.positionals@),
            extra: texts(self.extra@),
        }
    }
}

impl View for ParseError {
    type V = ErrorModel;

    open spec fn view(&self) -> ErrorModel {
        match *self {
            ParseError::UnknownOption(n) => ErrorModel::UnknownOption(n@),
            ParseError::MissingValue(n) => ErrorModel::MissingValue(n@),
            ParseError::InvalidValue(n, raw, kind) => ErrorModel::InvalidValue(n@, raw@, kind),
            ParseError::MissingRequired(n) => ErrorModel::MissingRequired(n@),
            ParseError::TooFewPositionals(n) => ErrorModel::TooFewPositionals(n@),
            ParseError::TooManyPositionals(raw) => ErrorModel::TooManyPositionals(raw@),
        }
    }
}

/// The view of what `bind` returns.
pub open spec fn outcome_view(r: Result<ParsedResult, ParseError>) -> Result<
    ParsedModel,
    ErrorModel,
> {
    match r {
        Ok(p) => Ok(p@),
        Err(e) => Err(e@),
    }
}

/// The state before the first token: every option absent, nothing bound.
pub open spec fn initial(opts: Seq<OptionSpec>) -> BindState {
    BindState {
        parsed: ParsedModel {
            values: Seq::new(opts.len(), |i: int| Seq::<ValueModel>::empty()),
            positionals: Seq::empty(),
            extra: Seq::empty(),
        },
        pending: None,
        after_sep: false,
    }
}

/// A token as it would be written on a command line.
pub open spec fn token_text(t: TokenModel) -> Seq<char> {
    match t {
        TokenModel::Plain(raw) => raw,
        TokenModel::Separator => seq!['-', '-'],
        TokenModel::Long(name, None) => seq!['-', '-'] + name,
        TokenModel::Long(name, Some(v)) => seq!['-', '-'] + name + seq!['='] + v,
        TokenModel::Short(c, None) => seq!['-', c],
        TokenModel::Short(c, Some(v)) => seq!['-', c, '='] + v,
    }
}

/// The state with the values of option `k` replaced.
pub open spec fn with_values(st: BindState, k: int, vs: Seq<ValueModel>) -> BindState {
    BindState {
        parsed: ParsedModel {
            values: st.parsed.values.update(k, vs),
            positionals: st.parsed.positionals,
            extra: st.parsed.extra,
        },
        pending: None,
        after_sep: st.after_sep,
    }
}

/// Option `k` is given the raw value: converted, then put in the place of
/// what the option held, or after it where the option is cumulative.
pub open spec fn store(opts: Seq<OptionSpec>, st: BindState, k: int, raw: Seq<char>) -> Result<
    BindState,
    ErrorModel,
> {
    match spec_convert(opts[k], raw) {
        None => Err(ErrorModel::InvalidValue(opts[k].long@, raw, opts[k].kind)),
        Some(v) => if opts[k].arity == Arity::Cumulative {
            Ok(with_values(st, k, st.parsed.values[k].push(v)))
        } else {
            Ok(with_values(st, k, seq![v]))
        },
    }
}

/// An option token is met: `found` is the option that it resolves to, `shown`
/// what it was written as, `inline` the value written against it. A flag
/// records `true` and takes no value; another option takes the inline value,
/// or waits for the next token.
pub open spec fn on_option(
    opts: Seq<OptionSpec>,
    st: BindState,
    found: Option<int>,
    shown: Seq<char>,
    inline: Option<Seq<char>>,
) -> Result<BindState, ErrorModel> {
    match found {
        None => Err(ErrorModel::UnknownOption(shown)),
        Some(k) => if opts[k].arity == Arity::Flag {
            match inline {
                Some(raw) => Err(ErrorModel::InvalidValue(opts[k].long@, raw, opts[k].kind)),
                None => Ok(with_values(st, k, seq![ValueModel::Boolean(true)])),
            }
        } else {
            match inline {
                Some(raw) => store(opts, st, k, raw),
                None => Ok(BindState { pending: Some(k), ..st }),
            }
        },
    }
}

/// One token is met.
pub open spec fn step(opts: Seq<OptionSpec>, st: BindState, t: TokenModel) -> Result<
    BindState,
    ErrorModel,
> {
    if st.after_sep {
        Ok(
            BindState {
                parsed: ParsedModel { extra: st.parsed.extra.push(token_text(t)), ..st.parsed },
                ..st
            },
        )
    } else if st.pending is Some {
        match t {
            TokenModel::Plain(raw) => store(opts, st, st.pending->0, raw),
            _ => Err(ErrorModel::MissingValue(opts[st.pending->0].long@)),
        }
    } else {
        match t {
            TokenModel::Long(name, inline) => on_option(
                opts,
                st,
                find_long_from(opts, name, 0),
                name,
                inline,
            ),
            TokenModel::Short(c, inline) => on_option(
                opts,
                st,
                find_short_from(opts, c, 0),
                seq![c],
                inline,
            ),
            TokenModel::Plain(raw) => Ok(
                BindState {
                    parsed: ParsedModel {
                        positionals: st.parsed.positionals.push(raw),
                        ..st.parsed
                    },
                    ..st
                },
            ),
            TokenModel::Separator => Ok(BindState { after_sep: true, ..st }),
        }
    }
}

/// The tokens from `i` on are met, one after the other, until one fails.
pub open spec fn run(opts: Seq<OptionSpec>, st: BindState, ts: Seq<TokenModel>, i: int) -> Result<
    BindState,
    ErrorModel,
>
    decreases ts.len() - i,
{
    if i < 0 || i >= ts.len() {
        Ok(st)
    } else {
        match step(opts, st, ts[i]) {
            Err(e) => Err(e),
            Ok(next) => run(opts, next, ts, i + 1),
        }
    }
}

/// The first required option from `i` on that has no value.
pub open spec fn first_missing(opts: Seq<OptionSpec>, values: Seq<Seq<ValueModel>>, i: int)
    -> Option<int>
    decreases opts.len() - i,
{
    if i < 0 || i >= opts.len() {
        None
    } else if opts[i].required && values[i].len() == 0 {
        Some(i)
    } else {
        first_missing(opts, values, i + 1)
    }
}

/// What is asked after the last token: no option still waits for its value; no
/// required option is absent; the positional values are neither too few
/// (the positional after the last filled one must be given a value) nor too
/// many (more than there are positionals, and the last takes one only).
pub open spec fn finish(opts: Seq<OptionSpec>, pos: Seq<PositionalSpec>, st: BindState) -> Result<
    ParsedModel,
    ErrorModel,
> {
    let count = st.parsed.positionals.len() as int;
    if st.pending is Some {
        Err(ErrorModel::MissingValue(opts[st.pending->0].long@))
    } else if first_missing(opts, st.parsed.values, 0) is Some {
        Err(ErrorModel::MissingRequired(opts[first_missing(opts, st.parsed.values, 0)->0].long@))
    } else if count < pos.len() && demands(pos[count]) {
        Err(ErrorModel::TooFewPositionals(pos[count].name@))
    } else if count > pos.len() && !(pos.len() > 0 && pos.last().multiplicity
        == Multiplicity::OneOrMore) {
        Err(ErrorModel::TooManyPositionals(st.parsed.positionals[pos.len() as int]))
    } else {
        Ok(st.parsed)
    }
}

/// What a token sequence binds to under a grammar.
pub open spec fn spec_bind(opts: Seq<OptionSpec>, pos: Seq<PositionalSpec>, ts: Seq<TokenModel>)
    -> Result<ParsedModel, ErrorModel> {
    match run(opts, initial(opts), ts, 0) {
        Err(e) => Err(e),
        Ok(st) => finish(opts, pos, st),
    }
}

/// The values that positional `j` of the grammar takes: the value in its
/// place, or that one and all after it where the positional is multi-valued;
/// none where the values end before it.
pub open spec fn assigned(pos: Seq<PositionalSpec>, values: Seq<Seq<char>>, j: int) -> Seq<
    Seq<char>,
> {
    if j < 0 || j >= pos.len() || j >= values.len() {
        Seq::empty()
    } else if pos[j].multiplicity == Multiplicity::OneOrMore {
        values.subrange(j, values.len() as int)
    } else {
        seq![values[j]]
    }
}

/// What an error says to the user.
pub open spec fn spec_message(e: ErrorModel) -> Seq<char> {
    match e {
        ErrorModel::UnknownOption(n) => "unknown option: "@ + n,
        ErrorModel::MissingValue(n) => "missing value for option: "@ + n,
        ErrorModel::InvalidValue(n, raw, kind) => "invalid value for option "@ + n + ": "@ + raw
            + " (expected "@ + kind_name(kind) + ")"@,
        ErrorModel::MissingRequired(n) => "missing required option: "@ + n,
        ErrorModel::TooFewPositionals(n) => "missing argument: "@ + n,
        ErrorModel::TooManyPositionals(raw) => "unexpected argument: "@ + raw,
    }
}

impl ParseError {
    /// One line that says what is wrong.
    pub fn message(&self) -> (s: String)
        ensures
            s@ == spec_message(self@),
    {
        match self {
            ParseError::UnknownOption(n) => {
                let mut s = String::from_str("unknown option: ");
                s.append(n.as_str());
                s
            },
            ParseError::MissingValue(n) => {
                let mut s = String::from_str("missing value for option: ");
                s.append(n.as_str());
                s
            },
            ParseError::InvalidValue(n, raw, kind) => {
                let mut s = String::from_str("invalid value for option ");
                s.append(n.as_str());
                s.append(": ");
                s.append(raw.as_str());
                s.append(" (expected ");
                s.append(kind.name());
                s.append(")");
                s
            },
            ParseError::MissingRequired(n) => {
                let mut s = String::from_str("missing required option: ");
                s.append(n.as_str());
                s
            },
            ParseError::TooFewPositionals(n) => {
                let mut s = String::from_str("missing argument: ");
                s.append(n.as_str());
                s
            },
            ParseError::TooManyPositionals(raw) => {
                let mut s = String::from_str("unexpected argument: ");
                s.append(raw.as_str());
                s
            },
        }
    }
}

impl ParsedResult {
    /// The values that positional `j` of the grammar was given: positionals
    /// take the values in the grammar's order, one each, and a multi-valued
    /// positional takes all that are left.
    pub fn positional(&self, schema: &Schema, j: usize) -> (r: Vec<String>)
        ensures
            texts(r@) == assigned(schema.positionals@, texts(self.positionals@), j as int),
    {
        let mut r: Vec<String> = Vec::new();
        if j >= schema.positionals.len() || j >= self.positionals.len() {
            assert(texts(r@) =~= Seq::<Seq<char>>::empty());
            return r;
        }
        let end: usize = if schema.positionals[j].is_multi() {
            self.positionals.len()
        } else {
            j + 1
        };
        let mut i: usize = j;
        assert(texts(r@) =~= texts(self.positionals@).subrange(j as int, i as int));
        while i < end
            invariant
                j <= i <= end <= self.positionals.len(),
                texts(r@) == texts(self.positionals@).subrange(j as int, i as int),
            decreases end - i,
        {
            let ghost before = r@;
            let s = self.positionals[i].clone();
            r.push(s);
            assert(texts(r@) =~= texts(before).push(s@));
            i += 1;
            assert(texts(r@) =~= texts(self.positionals@).subrange(j as int, i as int));
        }
        assert(texts(self.positionals@).subrange(j as int, j + 1) =~= seq![
            texts(self.positionals@)[j as int],
        ]);
        r
    }

    /// The values of the option with this long name: none where the grammar
    /// has no such option.
    pub fn get<'a>(&'a self, schema: &Schema, name: &String) -> (r: Option<&'a Vec<Value>>)
        ensures
            match find_long_from(schema.options@, name@, 0) {
                Some(k) => if k < self.values@.len() {
                    r == Some(&self.values@[k])
                } else {
                    r is None
                },
                None => r is None,
            },
    {
        match schema.find_long(name) {
            Some(k) => if k < self.values.len() {
                Some(&self.values[k])
            } else {
                None
            },
            None => None,
        }
    }
}

/// The binder between two tokens.
struct Binder {
    result: ParsedResult,
    pending: Option<usize>,
    after_sep: bool,
}

/// The result of one step of the binder is the one that the model gives.
spec fn agrees(expected: Result<BindState, ErrorModel>, r: Result<(), ParseError>, after: BindState)
    -> bool {
    match r {
        Ok(()) => expected == Ok::<BindState, ErrorModel>(after),
        Err(e) => expected == Err::<BindState, ErrorModel>(e@),
    }
}

/// Writes a token as it would stand on a command line.
fn render_token(t: &Token) -> (s: String)
    ensures
        s@ == token_text(t@),
{
    proof {
        reveal_strlit("--");
        reveal_strlit("-");
        reveal_strlit("=");
    }
    match t {
        Token::PlainValue(raw) => raw.clone(),
        Token::Separator => {
            let s = String::from_str("--");
            assert(s@ =~= seq!['-', '-']);
            s
        },
        Token::LongOption(name, inline) => {
            let mut s = String::from_str("--");
            s.append(name.as_str());
            match inline {
                Some(v) => {
                    s.append("=");
                    s.append(v.as_str());
                    assert(s@ =~= seq!['-', '-'] + name@ + seq!['='] + v@);
                },
                None => {
                    assert(s@ =~= seq!['-', '-'] + name@);
                },
            }
            s
        },
        Token::ShortOption(c, inline) => {
            let mut s = String::from_str("-");
            push_char(&mut s, *c);
            match inline {
                Some(v) => {
                    s.append("=");
                    s.append(v.as_str());
                    assert(s@ =~= seq!['-', *c, '='] + v@);
                },
                None => {
                    assert(s@ =~= seq!['-', *c]);
                },
            }
            s
        },
    }
}

impl Binder {
    spec fn model(&self) -> BindState {
        BindState {
            parsed: self.result@,
            pending: match self.pending {
                Some(k) => Some(k as int),
                None => None,
            },
            after_sep: self.after_sep,
        }
    }

    spec fn inv(&self, opts: Seq<OptionSpec>) -> bool {
        &&& self.result.values@.len() == opts.len()
        &&& self.pending matches Some(k) ==> k < opts.len()
    }

    fn new(schema: &Schema) -> (b: Binder)
        ensures
            b.inv(schema.options@),
            b.model() == initial(schema.options@),
    {
        let mut values: Vec<Vec<Value>> = Vec::new();
        let mut i: usize = 0;
        while i < schema.options.len()
            invariant
                i <= schema.options.len(),
                values@.len() == i,
                forall|j: int| 0 <= j < i ==> (#[trigger] values@[j])@.len() == 0,
            decreases schema.options.len() - i,
        {
            values.push(Vec::new());
            i += 1;
        }
        let b = Binder {
            result: ParsedResult { values, positionals: Vec::new(), extra: Vec::new() },
            pending: None,
            after_sep: false,
        };
        proof {
            let want = initial(schema.options@);
            assert forall|j: int| 0 <= j < want.parsed.values.len() implies value_views(
                b.result.values@,
            )[j] =~= #[trigger] want.parsed.values[j] by {}
            assert(b.model().parsed.values =~= want.parsed.values);
            assert(b.model().parsed.positionals =~= want.parsed.positionals);
            assert(b.model().parsed.extra =~= want.parsed.extra);
        }
        b
    }

    fn put(&mut self, k: usize, v: Value, add: bool)
        requires
            k < old(self).result.values@.len(),
        ensures
            final(self).result.values@.len() == old(self).result.values@.len(),
            final(self).model() == with_values(
                old(self).model(),
                k as int,
                if add {
                    old(self).model().parsed.values[k as int].push(v@)
                } else {
                    seq![v@]
                },
            ),
    {
        let ghost before = self.result.values@;
        if add {
            let mut inner = self.result.values.remove(k);
            inner.push(v);
            self.result.values.insert(k, inner);
        } else {
            let mut inner: Vec<Value> = Vec::new();
            inner.push(v);
            self.result.values.set(k, inner);
        }
        self.pending = None;
        proof {
            let want = with_values(
                old(self).model(),
                k as int,
                if add {
                    old(self).model().parsed.values[k as int].push(v@)
                } else {
                    seq![v@]
                },
            );
            let got = self.model();
            assert(got.parsed.values.len() == want.parsed.values.len());
            assert forall|j: int| 0 <= j < want.parsed.values.len() implies got.parsed.values[j]
                =~= #[trigger] want.parsed.values[j] by {
                if j != k {
                    assert(self.result.values@[j] == before[j]);
                }
            }
            assert(got.parsed.values =~= want.parsed.values);
        }
    }

    fn store(&mut self, schema: &Schema, k: usize, raw: &String) -> (r: Result<(), ParseError>)
        requires
            old(self).inv(schema.options@),
            k < schema.options@.len(),
        ensures
            final(self).inv(schema.options@),
            agrees(store(schema.options@, old(self).model(), k as int, raw@), r, final(self).model()),
    {
        match convert(&schema.options[k], raw) {
            None => Err(
                ParseError::InvalidValue(
                    schema.options[k].long.clone(),
                    raw.clone(),
                    schema.options[k].kind,
                ),
            ),
            Some(v) => {
                let add = match schema.options[k].arity {
                    Arity::Cumulative => true,
                    _ => false,
                };
                self.put(k, v, add);
                Ok(())
            },
        }
    }

    fn on_option(
        &mut self,
        schema: &Schema,
        found: Option<usize>,
        shown: String,
        inline: &Option<String>,
    ) -> (r: Result<(), ParseError>)
        requires
            old(self).inv(schema.options@),
            found matches Some(k) ==> k < schema.options@.len(),
        ensures
            final(self).inv(schema.options@),
            agrees(
                on_option(
                    schema.options@,
                    old(self).model(),
                    match found {
                        Some(k) => Some(k as int),
                        None => None,
                    },
                    shown@,
                    crate::token::opt_text(*inline),
                ),
                r,
                final(self).model(),
            ),
    {
        match found {
            None => Err(ParseError::UnknownOption(shown)),
            Some(k) => {
                let flag = match schema.options[k].arity {
                    Arity::Flag => true,
                    _ => false,
                };
                match inline {
                    Some(raw) => {
                        if flag {
                            Err(
                                ParseError::InvalidValue(
                                    schema.options[k].long.clone(),
                                    raw.clone(),
                                    schema.options[k].kind,
                                ),
                            )
                        } else {
                            self.store(schema, k, raw)
                        }
                    },
                    None => {
                        if flag {
                            self.put(k, Value::Boolean(true), false);
                        } else {
                            self.pending = Some(k);
                        }
                        Ok(())
                    },
                }
            },
        }
    }

    fn step(&mut self, schema: &Schema, t: &Token) -> (r: Result<(), ParseError>)
        requires
            old(self).inv(schema.options@),
        ensures
            final(self).inv(schema.options@),
            agrees(step(schema.options@, old(self).model(), t@), r, final(self).model()),
    {
        if self.after_sep {
            let ghost before = self.result.extra@;
            let s = render_token(t);
            self.result.extra.push(s);
            assert(texts(self.result.extra@) =~= texts(before).push(token_text(t@)));
            return Ok(());
        }
        match self.pending {
            Some(k) => match t {
                Token::PlainValue(raw) => self.store(schema, k, raw),
                _ => Err(ParseError::MissingValue(schema.options[k].long.clone())),
            },
            None => match t {
                Token::LongOption(name, inline) => {
                    let found = schema.find_long(name);
                    self.on_option(schema, found, name.clone(), inline)
                },
                Token::ShortOption(c, inline) => {
                    let found = schema.find_short(*c);
                    self.on_option(schema, found, char_string(*c), inline)
                },
                Token::PlainValue(raw) => {
                    let ghost before = self.result.positionals@;
                    self.result.positionals.push(raw.clone());
                    assert(texts(self.result.positionals@) =~= texts(before).push(raw@));
                    Ok(())
                },
                Token::Separator => {
                    self.after_sep = true;
                    Ok(())
                },
            },
        }
    }

    fn finish(self, schema: &Schema) -> (r: Result<ParsedResult, ParseError>)
        requires
            self.inv(schema.options@),
        ensures
            outcome_view(r) == finish(schema.options@, schema.positionals@, self.model()),
    {
        match self.pending {
            Some(k) => {
                return Err(ParseError::MissingValue(schema.options[k].long.clone()));
            },
            None => {},
        }
        let mut i: usize = 0;
        while i < schema.options.len()
            invariant
                i <= schema.options.len(),
                self.inv(schema.options@),
                self.pending is None,
                first_missing(schema.options@, self.model().parsed.values, 0) == first_missing(
                    schema.options@,
                    self.model().parsed.values,
                    i as int,
                ),
            decreases schema.options.len() - i,
        {
            if schema.options[i].required && self.result.values[i].len() == 0 {
                return Err(ParseError::MissingRequired(schema.options[i].long.clone()));
            }
            i += 1;
        }
        let count: usize = self.result.positionals.len();
        let slots: usize = schema.positionals.len();
        if count < slots && schema.positionals[count].demands_value() {
            return Err(ParseError::TooFewPositionals(schema.positionals[count].name.clone()));
        }
        if count > slots && !(slots > 0 && schema.positionals[slots - 1].is_multi()) {
            return Err(ParseError::TooManyPositionals(self.result.positionals[slots].clone()));
        }
        Ok(self.result)
    }
}

/// Binds the tokens to the grammar, left to right, and stops at the first
/// token that fails. After the last token it makes sure that no option waits
/// for a value, that no required option is absent, and that the positional
/// values are neither too few nor too many.
pub fn bind(schema: &Schema, tokens: &Vec<Token>) -> (r: Result<ParsedResult, ParseError>)
    ensures
        outcome_view(r) == spec_bind(schema.options@, schema.positionals@, token_views(tokens@)),
{
    let mut b = Binder::new(schema);
    let mut i: usize = 0;
    while i < tokens.len()
        invariant
            i <= tokens.len(),
            b.inv(schema.options@),
            run(schema.options@, b.model(), token_views(tokens@), i as int) == run(
                schema.options@,
                initial(schema.options@),
                token_views(tokens@),
                0,
            ),
        decreases tokens.len() - i,
    {
        assert(token_views(tokens@)[i as int] == tokens@[i as int]@);
        match b.step(schema, &tokens[i]) {
            Err(e) => {
                return Err(e);
            },
            Ok(()) => {},
        }
        i += 1;
    }
    b.finish(schema)
}

} // verus!
