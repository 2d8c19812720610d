//! What holds of the tokenizer and the binder on every grammar.

use vstd::prelude::*;
use crate::bind::{
    BindState,
    ErrorModel,
    ParsedModel,
    first_missing,
    initial,
    run,
    spec_bind,
    step,
    store,
    token_text,
    with_values,
};
use crate::render::spec_render;
use crate::schema::{
    Arity,
    Multiplicity,
    OptionSpec,
    PositionalSpec,
    Schema,
    demands,
    long_clash,
    longs_unique,
    short_clash,
    shorts_unique,
};
use crate::token::{
    TokenModel,
    arg_tokens,
    cluster,
    find_long_from,
    find_short_from,
    is_separator,
    long_token,
    scan_from,
    spec_scan,
    takes_value,
};
use crate::value::{ValueModel, spec_convert};

verus! {

/// Tokens that stand behind others are met as they would be alone, from the
/// state that the others left.
pub proof fn lemma_run_shift(
    opts: Seq<OptionSpec>,
    st: BindState,
    pre: Seq<TokenModel>,
    rest: Seq<TokenModel>,
    j: int,
)
    requires
        0 <= j,
    ensures
        run(opts, st, pre + rest, pre.len() + j) == run(opts, st, rest, j),
    decreases rest.len() - j,
{
    if j < rest.len() {
        assert((pre + rest)[pre.len() + j] == rest[j]);
        match step(opts, st, rest[j]) {
            Ok(next) => {
                lemma_run_shift(opts, next, pre, rest, j + 1);
            },
            Err(_) => {},
        }
    }
}

/// A name that no option has resolves to none.
pub proof fn lemma_absent_name(opts: Seq<OptionSpec>, name: Seq<char>, i: int)
    requires
        0 <= i,
        forall|k: int| 0 <= k < opts.len() ==> (#[trigger] opts[k]).long@ != name,
    ensures
        find_long_from(opts, name, i) is None,
    decreases opts.len() - i,
{
    if i < opts.len() {
        lemma_absent_name(opts, name, i + 1);
    }
}

/// Where `k` is the only required option without a value, it is the first.
pub proof fn lemma_only_missing(
    opts: Seq<OptionSpec>,
    values: Seq<Seq<ValueModel>>,
    k: int,
    i: int,
)
    requires
        0 <= i <= k < opts.len(),
        opts[k].required,
        values[k].len() == 0,
        forall|j: int|
            0 <= j < opts.len() && j != k && (#[trigger] opts[j]).required ==> values[j].len() > 0,
    ensures
        first_missing(opts, values, i) == Some(k),
    decreases k - i,
{
    if i < k {
        lemma_only_missing(opts, values, k, i + 1);
    }
}

/// A value written against a long option, `--name=raw`, is stored as the
/// option's kind converts it: the option then holds that one value, and
/// nothing else has changed.
pub proof fn law_inline_value_is_converted(
    opts: Seq<OptionSpec>,
    name: Seq<char>,
    raw: Seq<char>,
    k: int,
    v: ValueModel,
)
    requires
        find_long_from(opts, name, 0) == Some(k),
        opts[k].arity == Arity::Single,
        spec_convert(opts[k], raw) == Some(v),
    ensures
        run(opts, initial(opts), seq![TokenModel::Long(name, Some(raw))], 0) == Ok::<
            BindState,
            ErrorModel,
        >(with_values(initial(opts), k, seq![v])),
{
    let ts = seq![TokenModel::Long(name, Some(raw))];
    let next = with_values(initial(opts), k, seq![v]);
    assert(step(opts, initial(opts), ts[0]) == Ok::<BindState, ErrorModel>(next));
    assert(run(opts, next, ts, 1) == Ok::<BindState, ErrorModel>(next));
}

/// `--name=raw` and `--name` followed by `raw` are met alike: from any state
/// before the separator, and whatever follows, the binder ends in the same
/// state or with the same error.
pub proof fn law_inline_and_separate_agree_from(
    opts: Seq<OptionSpec>,
    st: BindState,
    name: Seq<char>,
    raw: Seq<char>,
    rest: Seq<TokenModel>,
)
    requires
        !st.after_sep,
        find_long_from(opts, name, 0) matches Some(k) && opts[k].arity != Arity::Flag,
    ensures
        run(opts, st, seq![TokenModel::Long(name, Some(raw))] + rest, 0) == run(
            opts,
            st,
            seq![TokenModel::Long(name, None), TokenModel::Plain(raw)] + rest,
            0,
        ),
{
    let k = find_long_from(opts, name, 0)->0;
    let one = seq![TokenModel::Long(name, Some(raw))];
    let two = seq![TokenModel::Long(name, None), TokenModel::Plain(raw)];
    assert((one + rest)[0] == one[0]);
    assert((two + rest)[0] == two[0]);
    assert((two + rest)[1] == two[1]);
    if st.pending is None {
        let waiting = BindState { pending: Some(k), ..st };
        assert(step(opts, st, (two + rest)[0]) == Ok::<BindState, ErrorModel>(waiting));
        assert(step(opts, waiting, (two + rest)[1]) == store(opts, waiting, k, raw));
        assert(store(opts, waiting, k, raw) == store(opts, st, k, raw));
        assert(step(opts, st, (one + rest)[0]) == store(opts, st, k, raw));
        assert(run(opts, st, two + rest, 0) == run(opts, waiting, two + rest, 1));
        match store(opts, st, k, raw) {
            Ok(next) => {
                lemma_run_shift(opts, next, one, rest, 0);
                lemma_run_shift(opts, next, two, rest, 0);
                assert(run(opts, waiting, two + rest, 1) == run(opts, next, two + rest, 2));
            },
            Err(_) => {},
        }
    }
}

/// `--name=raw` and `--name` followed by `raw` bind identically, whatever
/// follows them.
pub proof fn law_inline_and_separate_agree(
    opts: Seq<OptionSpec>,
    pos: Seq<PositionalSpec>,
    name: Seq<char>,
    raw: Seq<char>,
    rest: Seq<TokenModel>,
)
    requires
        find_long_from(opts, name, 0) matches Some(k) && opts[k].arity != Arity::Flag,
    ensures
        spec_bind(opts, pos, seq![TokenModel::Long(name, Some(raw))] + rest) == spec_bind(
            opts,
            pos,
            seq![TokenModel::Long(name, None), TokenModel::Plain(raw)] + rest,
        ),
{
    law_inline_and_separate_agree_from(opts, initial(opts), name, raw, rest);
}

/// A long option whose name no option of the grammar has, met first, is
/// answered with `UnknownOption` and that name, whatever follows.
pub proof fn law_unknown_long_option(
    opts: Seq<OptionSpec>,
    pos: Seq<PositionalSpec>,
    name: Seq<char>,
    inline: Option<Seq<char>>,
    rest: Seq<TokenModel>,
)
    requires
        forall|k: int| 0 <= k < opts.len() ==> (#[trigger] opts[k]).long@ != name,
    ensures
        spec_bind(opts, pos, seq![TokenModel::Long(name, inline)] + rest) == Err::<
            ParsedModel,
            ErrorModel,
        >(ErrorModel::UnknownOption(name)),
{
    lemma_absent_name(opts, name, 0);
    let ts = seq![TokenModel::Long(name, inline)] + rest;
    assert(ts[0] == TokenModel::Long(name, inline));
    assert(step(opts, initial(opts), ts[0]) == Err::<BindState, ErrorModel>(
        ErrorModel::UnknownOption(name),
    ));
}

/// Where every token was met without an error, no option waits for a value,
/// and option `k` is the one required option that was given none, the answer
/// is `MissingRequired` with the name of `k`.
pub proof fn law_missing_required(
    opts: Seq<OptionSpec>,
    pos: Seq<PositionalSpec>,
    ts: Seq<TokenModel>,
    st: BindState,
    k: int,
)
    requires
        run(opts, initial(opts), ts, 0) == Ok::<BindState, ErrorModel>(st),
        st.pending is None,
        0 <= k < opts.len(),
        opts[k].required,
        st.parsed.values[k].len() == 0,
        forall|j: int|
            0 <= j < opts.len() && j != k && (#[trigger] opts[j]).required
                ==> st.parsed.values[j].len() > 0,
    ensures
        spec_bind(opts, pos, ts) == Err::<ParsedModel, ErrorModel>(
            ErrorModel::MissingRequired(opts[k].long@),
        ),
{
    lemma_only_missing(opts, st.parsed.values, k, 0);
}

/// Behind the separator every argument is a plain value, as written.
pub proof fn law_scan_after_separator(opts: Seq<OptionSpec>, args: Seq<Seq<char>>, i: int)
    requires
        0 <= i <= args.len(),
    ensures
        scan_from(opts, args, i, true) == Seq::new(
            (args.len() - i) as nat,
            |j: int| TokenModel::Plain(args[i + j]),
        ),
    decreases args.len() - i,
{
    let want = Seq::new((args.len() - i) as nat, |j: int| TokenModel::Plain(args[i + j]));
    if i < args.len() {
        law_scan_after_separator(opts, args, i + 1);
        assert(scan_from(opts, args, i, true) =~= want);
    } else {
        assert(scan_from(opts, args, i, true) =~= want);
    }
}

/// The arguments behind the first separator are never read as options: the
/// tokens of a command line that begins with `--` are the separator and one
/// plain value for each argument behind it.
pub proof fn law_separator_first(opts: Seq<OptionSpec>, args: Seq<Seq<char>>)
    requires
        args.len() > 0,
        is_separator(args[0]),
    ensures
        spec_scan(opts, args) == seq![TokenModel::Separator] + Seq::new(
            (args.len() - 1) as nat,
            |j: int| TokenModel::Plain(args[1 + j]),
        ),
{
    law_scan_after_separator(opts, args, 1);
}

/// Behind the separator the binder reads no token as an option: each one is
/// added to the extra values as it is written, no step fails, and nothing
/// else changes.
pub proof fn law_bind_after_separator(
    opts: Seq<OptionSpec>,
    st: BindState,
    ts: Seq<TokenModel>,
    i: int,
)
    requires
        st.after_sep,
        0 <= i <= ts.len(),
    ensures
        run(opts, st, ts, i) == Ok::<BindState, ErrorModel>(
            BindState {
                parsed: ParsedModel {
                    extra: st.parsed.extra + Seq::new(
                        (ts.len() - i) as nat,
                        |j: int| token_text(ts[i + j]),
                    ),
                    ..st.parsed
                },
                ..st
            },
        ),
    decreases ts.len() - i,
{
    let tail = Seq::new((ts.len() - i) as nat, |j: int| token_text(ts[i + j]));
    if i < ts.len() {
        let next = BindState {
            parsed: ParsedModel { extra: st.parsed.extra.push(token_text(ts[i])), ..st.parsed },
            ..st
        };
        assert(step(opts, st, ts[i]) == Ok::<BindState, ErrorModel>(next));
        law_bind_after_separator(opts, next, ts, i + 1);
        let tail_next = Seq::new((ts.len() - (i + 1)) as nat, |j: int| token_text(ts[i + 1 + j]));
        assert(next.parsed.extra + tail_next =~= st.parsed.extra + tail);
    } else {
        assert(st.parsed.extra + tail =~= st.parsed.extra);
    }
}

/// Arguments that stand behind others give the tokens that they would give
/// alone, once it is known whether a separator stands before them.
pub proof fn lemma_scan_shift(
    opts: Seq<OptionSpec>,
    pre: Seq<Seq<char>>,
    rest: Seq<Seq<char>>,
    j: int,
    sep: bool,
)
    requires
        0 <= j,
    ensures
        scan_from(opts, pre + rest, pre.len() + j, sep) == scan_from(opts, rest, j, sep),
    decreases rest.len() - j,
{
    if j < rest.len() {
        assert((pre + rest)[pre.len() + j] == rest[j]);
        lemma_scan_shift(opts, pre, rest, j + 1, true);
        lemma_scan_shift(opts, pre, rest, j + 1, false);
    }
}

/// A short option written alone, `-c`, is one token without a value.
pub proof fn lemma_single_short(opts: Seq<OptionSpec>, c: char)
    requires
        c != '-',
    ensures
        arg_tokens(opts, seq!['-', c]) == seq![TokenModel::Short(c, None)],
{
    let s = seq!['-', c];
    reveal_with_fuel(cluster, 2);
    assert(cluster(opts, s, 1) =~= seq![TokenModel::Short(c, None)]);
}

/// A cluster of three short options of which the first two carry no value,
/// `-abc`, gives the tokens of `-a`, `-b` and `-c` written apart, whatever
/// follows.
pub proof fn law_cluster_splits(
    opts: Seq<OptionSpec>,
    a: char,
    b: char,
    c: char,
    rest: Seq<Seq<char>>,
)
    requires
        a != '-' && a != '=',
        b != '-' && b != '=',
        c != '-' && c != '=',
        !takes_value(opts, a),
        !takes_value(opts, b),
    ensures
        spec_scan(opts, seq![seq!['-', a, b, c]] + rest) == spec_scan(
            opts,
            seq![seq!['-', a], seq!['-', b], seq!['-', c]] + rest,
        ),
{
    let s = seq!['-', a, b, c];
    let together = seq![s];
    let apart = seq![seq!['-', a], seq!['-', b], seq!['-', c]];
    let tail = scan_from(opts, rest, 0, false);
    reveal_with_fuel(cluster, 4);
    assert(cluster(opts, s, 1) =~= seq![
        TokenModel::Short(a, None),
        TokenModel::Short(b, None),
        TokenModel::Short(c, None),
    ]);
    lemma_single_short(opts, a);
    lemma_single_short(opts, b);
    lemma_single_short(opts, c);
    lemma_scan_shift(opts, together, rest, 0, false);
    lemma_scan_shift(opts, apart, rest, 0, false);
    assert((together + rest)[0] == s);
    assert((apart + rest)[0] == apart[0]);
    assert((apart + rest)[1] == apart[1]);
    assert((apart + rest)[2] == apart[2]);
    reveal_with_fuel(scan_from, 4);
    assert(spec_scan(opts, together + rest) == arg_tokens(opts, s) + tail);
    assert(spec_scan(opts, apart + rest) == arg_tokens(opts, apart[0]) + (arg_tokens(
        opts,
        apart[1],
    ) + (arg_tokens(opts, apart[2]) + tail)));
    assert(spec_scan(opts, together + rest) =~= spec_scan(opts, apart + rest));
}

/// A cluster that ends in a value-carrying option with its value written
/// against it, `-abcval`, gives the tokens of `-a`, `-b` and `-c=val`, whatever
/// follows.
pub proof fn law_cluster_value(
    opts: Seq<OptionSpec>,
    a: char,
    b: char,
    c: char,
    val: Seq<char>,
    rest: Seq<Seq<char>>,
)
    requires
        a != '-' && a != '=',
        b != '-' && b != '=',
        c != '-' && c != '=',
        !takes_value(opts, a),
        !takes_value(opts, b),
        takes_value(opts, c),
        val.len() > 0,
        val[0] != '=',
    ensures
        spec_scan(opts, seq![seq!['-', a, b, c] + val] + rest) == spec_scan(
            opts,
            seq![seq!['-', a], seq!['-', b], seq!['-', c, '='] + val] + rest,
        ),
{
    let s = seq!['-', a, b, c] + val;
    let last = seq!['-', c, '='] + val;
    let together = seq![s];
    let apart = seq![seq!['-', a], seq!['-', b], last];
    let tail = scan_from(opts, rest, 0, false);
    reveal_with_fuel(cluster, 4);
    assert(s.subrange(4, s.len() as int) =~= val);
    assert(last.subrange(3, last.len() as int) =~= val);
    assert(cluster(opts, s, 1) =~= seq![
        TokenModel::Short(a, None),
        TokenModel::Short(b, None),
        TokenModel::Short(c, Some(val)),
    ]);
    assert(cluster(opts, last, 1) =~= seq![TokenModel::Short(c, Some(val))]);
    lemma_single_short(opts, a);
    lemma_single_short(opts, b);
    lemma_scan_shift(opts, together, rest, 0, false);
    lemma_scan_shift(opts, apart, rest, 0, false);
    assert((together + rest)[0] == s);
    assert((apart + rest)[0] == apart[0]);
    assert((apart + rest)[1] == apart[1]);
    assert((apart + rest)[2] == last);
    reveal_with_fuel(scan_from, 4);
    assert(spec_scan(opts, together + rest) == arg_tokens(opts, s) + tail);
    assert(spec_scan(opts, apart + rest) == arg_tokens(opts, apart[0]) + (arg_tokens(
        opts,
        apart[1],
    ) + (arg_tokens(opts, last) + tail)));
    assert(spec_scan(opts, together + rest) =~= spec_scan(opts, apart + rest));
}

/// Where long names are unique, a long name resolves to the option that has
/// it.
pub proof fn law_unique_long_resolves(opts: Seq<OptionSpec>, k: int, i: int)
    requires
        longs_unique(opts, opts.len() as int),
        0 <= i <= k < opts.len(),
    ensures
        find_long_from(opts, opts[k].long@, i) == Some(k),
    decreases k - i,
{
    if i < k {
        if opts[i].long@ == opts[k].long@ {
            assert(long_clash(opts, k));
        }
        law_unique_long_resolves(opts, k, i + 1);
    }
}

/// Where aliases are unique, an alias resolves to the option that has it.
pub proof fn law_unique_short_resolves(opts: Seq<OptionSpec>, k: int, i: int, c: char)
    requires
        shorts_unique(opts, opts.len() as int),
        0 <= i <= k < opts.len(),
        opts[k].short == Some(c),
    ensures
        find_short_from(opts, c, i) == Some(k),
    decreases k - i,
{
    if i < k {
        if opts[i].short == opts[k].short {
            assert(short_clash(opts, k));
        }
        law_unique_short_resolves(opts, k, i + 1, c);
    }
}

/// A long name resolves, if at all, to an option of the grammar.
pub proof fn lemma_long_in_range(opts: Seq<OptionSpec>, name: Seq<char>, i: int)
    requires
        0 <= i,
    ensures
        find_long_from(opts, name, i) matches Some(k) ==> i <= k < opts.len() && opts[k].long@
            == name,
    decreases opts.len() - i,
{
    if i < opts.len() {
        lemma_long_in_range(opts, name, i + 1);
    }
}

/// An alias resolves, if at all, to an option of the grammar.
pub proof fn lemma_short_in_range(opts: Seq<OptionSpec>, c: char, i: int)
    requires
        0 <= i,
    ensures
        find_short_from(opts, c, i) matches Some(k) ==> i <= k < opts.len() && opts[k].short
            == Some(c),
    decreases opts.len() - i,
{
    if i < opts.len() {
        lemma_short_in_range(opts, c, i + 1);
    }
}

/// The state holds one list of values for each option of the grammar, at
/// most one value for an option that is not cumulative, and waits, if at
/// all, for an option of the grammar.
pub open spec fn shaped(opts: Seq<OptionSpec>, st: BindState) -> bool {
    &&& st.parsed.values.len() == opts.len()
    &&& st.pending matches Some(k) ==> 0 <= k < opts.len()
    &&& forall|k: int|
        0 <= k < opts.len() && opts[k].arity != Arity::Cumulative ==> (
        #[trigger] st.parsed.values[k]).len() <= 1
}

/// No token takes the state out of its shape.
pub proof fn lemma_step_keeps_shape(opts: Seq<OptionSpec>, st: BindState, t: TokenModel)
    requires
        shaped(opts, st),
    ensures
        step(opts, st, t) matches Ok(next) ==> shaped(opts, next),
{
    match t {
        TokenModel::Long(name, _) => {
            lemma_long_in_range(opts, name, 0);
        },
        TokenModel::Short(c, _) => {
            lemma_short_in_range(opts, c, 0);
        },
        _ => {},
    }
}

/// Whatever the tokens, the binder keeps the state in its shape.
pub proof fn lemma_run_keeps_shape(
    opts: Seq<OptionSpec>,
    st: BindState,
    ts: Seq<TokenModel>,
    i: int,
)
    requires
        shaped(opts, st),
    ensures
        run(opts, st, ts, i) matches Ok(end) ==> shaped(opts, end),
    decreases ts.len() - i,
{
    if 0 <= i < ts.len() {
        lemma_step_keeps_shape(opts, st, ts[i]);
        match step(opts, st, ts[i]) {
            Ok(next) => {
                lemma_run_keeps_shape(opts, next, ts, i + 1);
            },
            Err(_) => {},
        }
    }
}

/// What a command line binds to holds one list of values for each option of
/// the grammar, and at most one value for a flag or a single-valued option.
pub proof fn law_result_shape(
    opts: Seq<OptionSpec>,
    pos: Seq<PositionalSpec>,
    ts: Seq<TokenModel>,
)
    ensures
        spec_bind(opts, pos, ts) matches Ok(p) ==> p.values.len() == opts.len() && forall|k: int|
            0 <= k < opts.len() && opts[k].arity != Arity::Cumulative ==> (
            #[trigger] p.values[k]).len() <= 1,
{
    lemma_run_keeps_shape(opts, initial(opts), ts, 0);
}

/// A command line that begins with `--` leaves every argument behind it
/// among the extra values, as written: no option is set, no positional
/// filled, and no step of the binder fails.
pub proof fn law_separator_keeps_arguments(opts: Seq<OptionSpec>, args: Seq<Seq<char>>)
    requires
        args.len() > 0,
        is_separator(args[0]),
    ensures
        run(opts, initial(opts), spec_scan(opts, args), 0) == Ok::<BindState, ErrorModel>(
            BindState {
                parsed: ParsedModel {
                    extra: args.subrange(1, args.len() as int),
                    ..initial(opts).parsed
                },
                pending: None,
                after_sep: true,
            },
        ),
{
    let ts = spec_scan(opts, args);
    law_separator_first(opts, args);
    let behind = BindState { after_sep: true, ..initial(opts) };
    assert(ts[0] == TokenModel::Separator);
    assert(step(opts, initial(opts), ts[0]) == Ok::<BindState, ErrorModel>(behind));
    law_bind_after_separator(opts, behind, ts, 1);
    let tail = Seq::new((ts.len() - 1) as nat, |j: int| token_text(ts[1 + j]));
    assert(behind.parsed.extra + tail =~= args.subrange(1, args.len() as int));
}

/// The usage text depends on nothing but the grammar: grammars that hold the
/// same options and positionals have the same usage text, so that rendering
/// one grammar twice gives the same text twice.
pub proof fn law_render_repeats(a: Schema, b: Schema)
    requires
        a.options@ == b.options@,
        a.positionals@ == b.positionals@,
    ensures
        spec_render(a.options@, a.positionals@) == spec_render(b.options@, b.positionals@),
{
}

/// The argument `--name`, of a name without `=`, is the long option `name`
/// without a value.
pub proof fn lemma_long_argument(opts: Seq<OptionSpec>, name: Seq<char>)
    requires
        name.len() > 0,
        !name.contains('='),
    ensures
        !is_separator(seq!['-', '-'] + name),
        arg_tokens(opts, seq!['-', '-'] + name) == seq![TokenModel::Long(name, None)],
{
    let a = seq!['-', '-'] + name;
    assert(a.subrange(2, a.len() as int) =~= name);
    name.index_of_first_ensures('=');
}

/// The argument `--name=raw`, of a name without `=`, is the long option
/// `name` with the value `raw`.
pub proof fn lemma_inline_argument(opts: Seq<OptionSpec>, name: Seq<char>, raw: Seq<char>)
    requires
        !name.contains('='),
    ensures
        !is_separator(seq!['-', '-'] + name + seq!['='] + raw),
        arg_tokens(opts, seq!['-', '-'] + name + seq!['='] + raw) == seq![
            TokenModel::Long(name, Some(raw)),
        ],
{
    let a = seq!['-', '-'] + name + seq!['='] + raw;
    let body = name + seq!['='] + raw;
    assert(a.subrange(2, a.len() as int) =~= body);
    assert(body[name.len() as int] == '=');
    body.index_of_first_ensures('=');
    let at = body.index_of_first('=')->0;
    if at < name.len() {
        assert(name[at] == '=');
    }
    assert(at == name.len());
    assert(body.subrange(0, at) =~= name);
    assert(body.subrange(at + 1, body.len() as int) =~= raw);
    assert(long_token(body) == TokenModel::Long(name, Some(raw)));
}

/// The arguments `--name=raw` and `--name raw` bind identically, whatever
/// follows them, where `name` is an option that carries a value and `raw`
/// is an argument that stands for itself: not `-` with more behind it.
pub proof fn law_inline_and_separate_arguments(
    opts: Seq<OptionSpec>,
    pos: Seq<PositionalSpec>,
    name: Seq<char>,
    raw: Seq<char>,
    rest: Seq<Seq<char>>,
)
    requires
        name.len() > 0,
        !name.contains('='),
        !(raw.len() >= 2 && raw[0] == '-'),
        find_long_from(opts, name, 0) matches Some(k) && opts[k].arity != Arity::Flag,
    ensures
        spec_bind(
            opts,
            pos,
            spec_scan(opts, seq![seq!['-', '-'] + name + seq!['='] + raw] + rest),
        ) == spec_bind(opts, pos, spec_scan(opts, seq![seq!['-', '-'] + name, raw] + rest)),
{
    let inline = seq![seq!['-', '-'] + name + seq!['='] + raw];
    let apart = seq![seq!['-', '-'] + name, raw];
    let tail = scan_from(opts, rest, 0, false);
    lemma_inline_argument(opts, name, raw);
    lemma_long_argument(opts, name);
    lemma_scan_shift(opts, inline, rest, 0, false);
    lemma_scan_shift(opts, apart, rest, 0, false);
    assert((inline + rest)[0] == inline[0]);
    assert((apart + rest)[0] == apart[0]);
    assert((apart + rest)[1] == raw);
    reveal_with_fuel(scan_from, 3);
    assert(spec_scan(opts, inline + rest) =~= seq![TokenModel::Long(name, Some(raw))] + tail);
    assert(spec_scan(opts, apart + rest) =~= seq![
        TokenModel::Long(name, None),
        TokenModel::Plain(raw),
    ] + tail);
    law_inline_and_separate_agree(opts, pos, name, raw, tail);
}

/// Where every required option from `i` on has a value, none is missing.
pub proof fn lemma_none_missing(opts: Seq<OptionSpec>, values: Seq<Seq<ValueModel>>, i: int)
    requires
        0 <= i,
        forall|j: int|
            0 <= j < opts.len() && (#[trigger] opts[j]).required ==> values[j].len() > 0,
    ensures
        first_missing(opts, values, i) is None,
    decreases opts.len() - i,
{
    if i < opts.len() {
        lemma_none_missing(opts, values, i + 1);
    }
}

/// A command line that the grammar accepts binds: where every token was met
/// without an error, no option waits for a value, every required option has
/// one, the positional after the last filled one can go without, and the
/// values are no more than the positionals unless the last of them is
/// multi-valued, the answer is what was bound.
pub proof fn law_accepted_binds(
    opts: Seq<OptionSpec>,
    pos: Seq<PositionalSpec>,
    ts: Seq<TokenModel>,
    st: BindState,
)
    requires
        run(opts, initial(opts), ts, 0) == Ok::<BindState, ErrorModel>(st),
        st.pending is None,
        forall|j: int|
            0 <= j < opts.len() && (#[trigger] opts[j]).required ==> st.parsed.values[j].len()
                > 0,
        st.parsed.positionals.len() >= pos.len() || !demands(
            pos[st.parsed.positionals.len() as int],
        ),
        st.parsed.positionals.len() <= pos.len() || (pos.len() > 0 && pos.last().multiplicity
            == Multiplicity::OneOrMore),
    ensures
        spec_bind(opts, pos, ts) == Ok::<ParsedModel, ErrorModel>(st.parsed),
{
    lemma_none_missing(opts, st.parsed.values, 0);
}

} // verus!
