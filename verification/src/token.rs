//! The tokenizer: raw arguments classified by their shape.

use vstd::prelude::*;
use vstd::string::*;
use crate::schema::{Arity, OptionSpec, Schema};

verus! {

/// One classified argument, or one piece of a cluster of short options.
#[derive(Clone, Debug, PartialEq, Eq)]
pub enum Token {
    /// `--name` or `--name=value`.
    LongOption(String, Option<String>),
    /// `-c`, or `-c` with the value written against it.
    ShortOption(char, Option<String>),
    /// Anything else.
    PlainValue(String),
    /// The first `--`.
    Separator,
}

/// A token as the contracts see it.
pub enum TokenModel {
    /// A long option: its name and the value written against it.
    Long(Seq<char>, Option<Seq<char>>),
    /// A short option: its character and the value written against it.
    Short(char, Option<Seq<char>>),
    /// A plain value.
    Plain(Seq<char>),
    /// The separator.
    Separator,
}

/// The characters of an optional string.
pub open spec fn opt_text(o: Option<String>) -> Option<Seq<char>> {
    match o {
        Some(s) => Some(s@),
        None => None,
    }
}

impl View for Token {
    type V = TokenModel;

    open spec fn view(&self) -> TokenModel {
        match *self {
            Token::LongOption(name, value) => TokenModel::Long(name@, opt_text(value)),
            Token::ShortOption(c, value) => TokenModel::Short(c, opt_text(value)),
            Token::PlainValue(text) => TokenModel::Plain(text@),
            Token::Separator => TokenModel::Separator,
        }
    }
}

/// The tokens of a vector, each as the contracts see it.
pub open spec fn token_views(ts: Seq<Token>) -> Seq<TokenModel> {
    Seq::new(ts.len(), |i: int| ts[i]@)
}

/// The characters of each string of a vector.
pub open spec fn texts(ss: Seq<String>) -> Seq<Seq<char>> {
    Seq::new(ss.len(), |i: int| ss[i]@)
}

/// The first option from `i` on whose alias is `c`.
pub open spec fn find_short_from(opts: Seq<OptionSpec>, c: char, i: int) -> Option<int>
    decreases opts.len() - i,
{
    if i < 0 || i >= opts.len() {
        None
    } else if opts[i].short == Some(c) {
        Some(i)
    } else {
        find_short_from(opts, c, i + 1)
    }
}

/// The first option from `i` on whose long name is `name`.
pub open spec fn find_long_from(opts: Seq<OptionSpec>, name: Seq<char>, i: int) -> Option<int>
    decreases opts.len() - i,
{
    if i < 0 || i >= opts.len() {
        None
    } else if opts[i].long@ == name {
        Some(i)
    } else {
        find_long_from(opts, name, i + 1)
    }
}

/// The alias `c` names an option that carries a value.
pub open spec fn takes_value(opts: Seq<OptionSpec>, c: char) -> bool {
    match find_short_from(opts, c, 0) {
        Some(k) => opts[k].arity != Arity::Flag,
        None => false,
    }
}

/// The argument is the two characters `--`.
pub open spec fn is_separator(a: Seq<char>) -> bool {
    a.len() == 2 && a[0] == '-' && a[1] == '-'
}

/// The token of what follows `--` in a long option: split at the first `=`.
pub open spec fn long_token(body: Seq<char>) -> TokenModel {
    match body.index_of_first('=') {
        Some(k) => TokenModel::Long(
            body.subrange(0, k),
            Some(body.subrange(k + 1, body.len() as int)),
        ),
        None => TokenModel::Long(body, None),
    }
}

/// The tokens of a cluster of short options, read from character `i` on. A
/// character followed by `=` takes what follows the `=` as its value; one that
/// names a value-carrying option takes the rest of the argument; any other
/// stands alone, and the cluster goes on.
pub open spec fn cluster(opts: Seq<OptionSpec>, s: Seq<char>, i: int) -> Seq<TokenModel>
    decreases s.len() - i,
{
    if i < 0 || i >= s.len() {
        seq![]
    } else if i + 1 < s.len() && s[i + 1] == '=' {
        seq![TokenModel::Short(s[i], Some(s.subrange(i + 2, s.len() as int)))]
    } else if i + 1 < s.len() && takes_value(opts, s[i]) {
        seq![TokenModel::Short(s[i], Some(s.subrange(i + 1, s.len() as int)))]
    } else {
        seq![TokenModel::Short(s[i], None)] + cluster(opts, s, i + 1)
    }
}

/// The tokens of one argument that stands before any separator and is none.
pub open spec fn arg_tokens(opts: Seq<OptionSpec>, a: Seq<char>) -> Seq<TokenModel> {
    if a.len() >= 2 && a[0] == '-' && a[1] == '-' {
        seq![long_token(a.subrange(2, a.len() as int))]
    } else if a.len() >= 2 && a[0] == '-' {
        cluster(opts, a, 1)
    } else {
        seq![TokenModel::Plain(a)]
    }
}

/// The tokens of the arguments from `i` on; `sep` says that a separator
/// stands before them.
pub open spec fn scan_from(opts: Seq<OptionSpec>, args: Seq<Seq<char>>, i: int, sep: bool) -> Seq<
    TokenModel,
>
    decreases args.len() - i,
{
    if i < 0 || i >= args.len() {
        seq![]
    } else if sep {
        seq![TokenModel::Plain(args[i])] + scan_from(opts, args, i + 1, true)
    } else if is_separator(args[i]) {
        seq![TokenModel::Separator] + scan_from(opts, args, i + 1, true)
    } else {
        arg_tokens(opts, args[i]) + scan_from(opts, args, i + 1, false)
    }
}

/// The tokens of a whole argument list.
pub open spec fn spec_scan(opts: Seq<OptionSpec>, args: Seq<Seq<char>>) -> Seq<TokenModel> {
    scan_from(opts, args, 0, false)
}

impl Schema {
    /// The index of the first option whose alias is `c`.
    pub fn find_short(&self, c: char) -> (r: Option<usize>)
        ensures
            match r {
                Some(k) => {
                    &&& find_short_from(self.options@, c, 0) == Some(k as int)
                    &&& k < self.options@.len()
                    &&& self.options@[k as int].short == Some(c)
                    &&& forall|j: int| 0 <= j < k ==> (#[trigger] self.options@[j]).short != Some(c)
                },
                None => {
                    &&& find_short_from(self.options@, c, 0) is None
                    &&& forall|j: int|
                        0 <= j < self.options@.len() ==> (#[trigger] self.options@[j]).short
                            != Some(c)
                },
            },
    {
        let mut i: usize = 0;
        while i < self.options.len()
            invariant
                i <= self.options.len(),
                find_short_from(self.options@, c, 0) == find_short_from(self.options@, c, i as int),
                forall|j: int| 0 <= j < i ==> (#[trigger] self.options@[j]).short != Some(c),
            decreases self.options.len() - i,
        {
            match self.options[i].short {
                Some(d) => {
                    if d == c {
                        return Some(i);
                    }
                },
                None => {},
            }
            i += 1;
        }
        None
    }

    /// The index of the first option whose long name is `name`.
    pub fn find_long(&self, name: &String) -> (r: Option<usize>)
        ensures
            match r {
                Some(k) => {
                    &&& find_long_from(self.options@, name@, 0) == Some(k as int)
                    &&& k < self.options@.len()
                    &&& self.options@[k as int].long@ == name@
                    &&& forall|j: int| 0 <= j < k ==> (#[trigger] self.options@[j]).long@ != name@
                },
                None => {
                    &&& find_long_from(self.options@, name@, 0) is None
                    &&& forall|j: int|
                        0 <= j < self.options@.len() ==> (#[trigger] self.options@[j]).long@
                            != name@
                },
            },
    {
        let mut i: usize = 0;
        while i < self.options.len()
            invariant
                i <= self.options.len(),
                find_long_from(self.options@, name@, 0) == find_long_from(
                    self.options@,
                    name@,
                    i as int,
                ),
                forall|j: int| 0 <= j < i ==> (#[trigger] self.options@[j]).long@ != name@,
            decreases self.options.len() - i,
        {
            if self.options[i].long == *name {
                return Some(i);
            }
            i += 1;
        }
        None
    }
}

/// One more token at the end of a vector is one more at the end of its view.
proof fn lemma_views_push(ts: Seq<Token>, t: Token)
    ensures
        token_views(ts.push(t)) == token_views(ts).push(t@),
{
    assert(token_views(ts.push(t)) =~= token_views(ts).push(t@));
}

/// Splits the body of a long option at its first `=`.
fn scan_long(body: &str) -> (t: Token)
    ensures
        t@ == long_token(body@),
{
    let m: usize = body.unicode_len();
    let mut k: usize = 0;
    while k < m
        invariant
            k <= m,
            m == body@.len(),
            forall|j: int| 0 <= j < k ==> body@[j] != '=',
        decreases m - k,
    {
        if body.get_char(k) == '=' {
            proof {
                body@.index_of_first_ensures('=');
                assert(body@.contains('='));
            }
            let name = body.substring_char(0, k).to_owned();
            let value = body.substring_char(k + 1, m).to_owned();
            return Token::LongOption(name, Some(value));
        }
        k += 1;
    }
    proof {
        body@.index_of_first_ensures('=');
    }
    let name = body.substring_char(0, m).to_owned();
    assert(name@ =~= body@);
    Token::LongOption(name, None)
}

/// Reads a cluster of short options from its second character on.
fn scan_cluster(schema: &Schema, s: &str, out: &mut Vec<Token>)
    ensures
        token_views(final(out)@) == token_views(old(out)@) + cluster(schema.options@, s@, 1),
{
    let n: usize = s.unicode_len();
    let mut i: usize = 1;
    while i < n
        invariant
            1 <= i,
            n == s@.len(),
            token_views(out@) + cluster(schema.options@, s@, i as int) == token_views(old(out)@)
                + cluster(schema.options@, s@, 1),
        decreases n - i,
    {
        let c = s.get_char(i);
        let ghost before = out@;
        if i + 1 < n && s.get_char(i + 1) == '=' {
            let value = s.substring_char(i + 2, n).to_owned();
            let t = Token::ShortOption(c, Some(value));
            out.push(t);
            proof {
                lemma_views_push(before, t);
                assert(token_views(out@) =~= token_views(before) + cluster(
                    schema.options@,
                    s@,
                    i as int,
                ));
            }
            return ;
        }
        let valued = match schema.find_short(c) {
            Some(k) => match schema.options[k].arity {
                Arity::Flag => false,
                _ => true,
            },
            None => false,
        };
        if i + 1 < n && valued {
            let value = s.substring_char(i + 1, n).to_owned();
            let t = Token::ShortOption(c, Some(value));
            out.push(t);
            proof {
                lemma_views_push(before, t);
                assert(token_views(out@) =~= token_views(before) + cluster(
                    schema.options@,
                    s@,
                    i as int,
                ));
            }
            return ;
        }
        let t = Token::ShortOption(c, None);
        out.push(t);
        proof {
            lemma_views_push(before, t);
            assert(token_views(out@) + cluster(schema.options@, s@, i + 1) =~= token_views(before)
                + cluster(schema.options@, s@, i as int));
        }
        i += 1;
    }
    assert(token_views(out@) + cluster(schema.options@, s@, i as int) =~= token_views(out@));
}

/// Classifies the arguments, left to right. The first `--` is the separator,
/// and whatever follows it is a plain value. Before it, `--name` and
/// `--name=value` are long options, `-` with more characters is a cluster of
/// short options, and anything else is a plain value. The grammar is read for
/// one thing only: which aliases carry a value, so that a cluster ends there.
pub fn scan(schema: &Schema, args: &Vec<String>) -> (out: Vec<Token>)
    ensures
        token_views(out@) == spec_scan(schema.options@, texts(args@)),
{
    let mut out: Vec<Token> = Vec::new();
    let mut sep = false;
    let mut i: usize = 0;
    assert(token_views(out@) + scan_from(schema.options@, texts(args@), 0, false) =~= scan_from(
        schema.options@,
        texts(args@),
        0,
        false,
    ));
    while i < args.len()
        invariant
            i <= args.len(),
            token_views(out@) + scan_from(schema.options@, texts(args@), i as int, sep)
                == spec_scan(schema.options@, texts(args@)),
        decreases args.len() - i,
    {
        let s: &str = args[i].as_str();
        let n: usize = s.unicode_len();
        let ghost before = out@;
        let ghost rest = scan_from(schema.options@, texts(args@), i + 1, sep);
        assert(texts(args@)[i as int] == s@);
        if sep {
            let t = Token::PlainValue(s.to_owned());
            out.push(t);
            proof {
                lemma_views_push(before, t);
                assert(token_views(out@) + rest =~= token_views(before) + (seq![t@] + rest));
            }
        } else if n == 2 && s.get_char(0) == '-' && s.get_char(1) == '-' {
            let t = Token::Separator;
            out.push(t);
            sep = true;
            proof {
                lemma_views_push(before, t);
                let after = scan_from(schema.options@, texts(args@), i + 1, true);
                assert(token_views(out@) + after =~= token_views(before) + (seq![t@] + after));
            }
        } else if n >= 2 && s.get_char(0) == '-' && s.get_char(1) == '-' {
            let t = scan_long(s.substring_char(2, n));
            out.push(t);
            proof {
                lemma_views_push(before, t);
                assert(token_views(out@) + rest =~= token_views(before) + (seq![t@] + rest));
            }
        } else if n >= 2 && s.get_char(0) == '-' {
            scan_cluster(schema, s, &mut out);
            proof {
                let mid = cluster(schema.options@, s@, 1);
                assert(token_views(out@) + rest =~= token_views(before) + (mid + rest));
            }
        } else {
            let t = Token::PlainValue(s.to_owned());
            out.push(t);
            proof {
                lemma_views_push(before, t);
                assert(token_views(out@) + rest =~= token_views(before) + (seq![t@] + rest));
            }
        }
        i += 1;
    }
    assert(token_views(out@) + scan_from(schema.options@, texts(args@), i as int, sep)
        =~= token_views(out@));
    out
}

} // verus!
