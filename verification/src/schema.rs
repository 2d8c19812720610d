//! The grammar that a command line is held against: options, flags and
//! positionals, and the rules that a well-formed grammar obeys.

use vstd::prelude::*;

verus! {

/// How many values an option carries.
#[derive(Clone, Copy, Debug, PartialEq, Eq, Structural)]
pub enum Arity {
    /// No value: present or absent.
    Flag,
    /// One value; the last occurrence wins.
    Single,
    /// Every occurrence adds a value, in the order met.
    Cumulative,
}

/// What a raw value is converted to.
#[derive(Clone, Copy, Debug, PartialEq, Eq, Structural)]
pub enum ValueKind {
    /// Any text.
    Text,
    /// A decimal integer that fits in 64 bits.
    Integer,
    /// `true` or `false`.
    Boolean,
    /// One of the option's listed choices.
    Choice,
    /// A file-system path, kept as text.
    Path,
}

/// How many values a positional takes.
#[derive(Clone, Copy, Debug, PartialEq, Eq, Structural)]
pub enum Multiplicity {
    /// One value.
    ExactlyOne,
    /// One value or none.
    ZeroOrOne,
    /// One value and any number after it.
    OneOrMore,
}

/// One named option of the grammar.
#[derive(Clone, Debug, PartialEq, Eq)]
pub struct OptionSpec {
    /// The long name, written after `--`.
    pub long: String,
    /// The one-character alias, written after `-`.
    pub short: Option<char>,
    /// How many values the option carries.
    pub arity: Arity,
    /// Whether a command line without the option is rejected.
    pub required: bool,
    /// The raw value that the usage text shows as the default.
    pub default: Option<String>,
    /// What the raw value is converted to.
    pub kind: ValueKind,
    /// The accepted values of a `Choice` option.
    pub choices: Vec<String>,
    /// One line of help.
    pub help: String,
}

/// One positional of the grammar.
#[derive(Clone, Debug, PartialEq, Eq)]
pub struct PositionalSpec {
    /// The name shown in the usage text and in errors.
    pub name: String,
    /// Whether a command line without it is rejected.
    pub required: bool,
    /// How many values it takes.
    pub multiplicity: Multiplicity,
}

/// Why a declaration is no grammar.
#[derive(Clone, Debug, PartialEq, Eq)]
pub enum SchemaError {
    /// Two options share this long name.
    DuplicateLongName(String),
    /// Two options share this alias.
    DuplicateShortAlias(char),
    /// This positional stands after a multi-valued one, or must be given a
    /// value and stands after an optional one.
    InvalidPositionalOrder(String),
}

/// The grammar: options and positionals, each in declaration order.
#[derive(Clone, Debug, PartialEq, Eq)]
pub struct Schema {
    /// The options.
    pub options: Vec<OptionSpec>,
    /// The positionals.
    pub positionals: Vec<PositionalSpec>,
}

/// Option `j` has the long name of an earlier option.
pub open spec fn long_clash(opts: Seq<OptionSpec>, j: int) -> bool {
    exists|i: int| 0 <= i < j && #[trigger] opts[i].long@ == opts[j].long@
}

/// Option `j` has the alias of an earlier option.
pub open spec fn short_clash(opts: Seq<OptionSpec>, j: int) -> bool {
    opts[j].short is Some && exists|i: int| 0 <= i < j && #[trigger] opts[i].short == opts[j].short
}

/// The positional must be given a value: it is marked required, or its
/// multiplicity leaves no room for none.
pub open spec fn demands(p: PositionalSpec) -> bool {
    p.required || p.multiplicity != Multiplicity::ZeroOrOne
}

/// Positional `i` may not be followed by positional `j`.
pub open spec fn bars(pos: Seq<PositionalSpec>, i: int, j: int) -> bool {
    pos[i].multiplicity == Multiplicity::OneOrMore || (demands(pos[j]) && !demands(pos[i]))
}

/// Positional `j` stands after one that bars it.
pub open spec fn order_clash(pos: Seq<PositionalSpec>, j: int) -> bool {
    exists|i: int| 0 <= i < j && #[trigger] bars(pos, i, j)
}

/// No option before `n` clashes in its long name.
pub open spec fn longs_unique(opts: Seq<OptionSpec>, n: int) -> bool {
    forall|j: int| 0 <= j < n ==> !#[trigger] long_clash(opts, j)
}

/// No option before `n` clashes in its alias.
pub open spec fn shorts_unique(opts: Seq<OptionSpec>, n: int) -> bool {
    forall|j: int| 0 <= j < n ==> !#[trigger] short_clash(opts, j)
}

/// No positional before `n` is misplaced.
pub open spec fn positionals_ordered(pos: Seq<PositionalSpec>, n: int) -> bool {
    forall|j: int| 0 <= j < n ==> !#[trigger] order_clash(pos, j)
}

/// What `Schema::build` answers for a declaration.
pub open spec fn build_outcome(
    opts: Seq<OptionSpec>,
    pos: Seq<PositionalSpec>,
    r: Result<Schema, SchemaError>,
) -> bool {
    match r {
        Ok(s) => {
            &&& s.options@ == opts
            &&& s.positionals@ == pos
            &&& s.wf()
        },
        Err(SchemaError::DuplicateLongName(name)) => exists|j: int|
            0 <= j < opts.len() && longs_unique(opts, j) && long_clash(opts, j) && name@
                == #[trigger] opts[j].long@,
        Err(SchemaError::DuplicateShortAlias(c)) => longs_unique(opts, opts.len() as int)
            && exists|j: int|
            0 <= j < opts.len() && shorts_unique(opts, j) && short_clash(opts, j)
                && #[trigger] opts[j].short == Some(c),
        Err(SchemaError::InvalidPositionalOrder(name)) => longs_unique(opts, opts.len() as int)
            && shorts_unique(opts, opts.len() as int) && exists|j: int|
            0 <= j < pos.len() && positionals_ordered(pos, j) && order_clash(pos, j) && name@
                == #[trigger] pos[j].name@,
    }
}

fn has_long_clash(opts: &Vec<OptionSpec>, j: usize) -> (r: bool)
    requires
        j < opts.len(),
    ensures
        r == long_clash(opts@, j as int),
{
    let mut i: usize = 0;
    while i < j
        invariant
            i <= j < opts.len(),
            forall|k: int| 0 <= k < i ==> #[trigger] opts@[k].long@ != opts@[j as int].long@,
        decreases j - i,
    {
        if opts[i].long == opts[j].long {
            return true;
        }
        i += 1;
    }
    false
}

fn has_short_clash(opts: &Vec<OptionSpec>, j: usize) -> (r: bool)
    requires
        j < opts.len(),
    ensures
        r == short_clash(opts@, j as int),
{
    match opts[j].short {
        None => false,
        Some(c) => {
            let mut i: usize = 0;
            while i < j
                invariant
                    i <= j < opts.len(),
                    opts@[j as int].short == Some(c),
                    forall|k: int| 0 <= k < i ==> #[trigger] opts@[k].short != opts@[j as int].short,
                decreases j - i,
            {
                match opts[i].short {
                    Some(d) => {
                        if d == c {
                            return true;
                        }
                    },
                    None => {},
                }
                i += 1;
            }
            false
        },
    }
}

fn has_order_clash(pos: &Vec<PositionalSpec>, j: usize) -> (r: bool)
    requires
        j < pos.len(),
    ensures
        r == order_clash(pos@, j as int),
{
    let mut i: usize = 0;
    while i < j
        invariant
            i <= j < pos.len(),
            forall|k: int| 0 <= k < i ==> !#[trigger] bars(pos@, k, j as int),
        decreases j - i,
    {
        let multi = pos[i].is_multi();
        if multi || (pos[j].demands_value() && !pos[i].demands_value()) {
            assert(bars(pos@, i as int, j as int));
            return true;
        }
        i += 1;
    }
    false
}

/// The word for a kind of value in messages.
pub open spec fn kind_name(kind: ValueKind) -> Seq<char> {
    match kind {
        ValueKind::Text => "text"@,
        ValueKind::Integer => "integer"@,
        ValueKind::Boolean => "boolean"@,
        ValueKind::Choice => "choice"@,
        ValueKind::Path => "path"@,
    }
}

impl ValueKind {
    /// The word for the kind in messages.
    pub fn name(&self) -> (r: &'static str)
        ensures
            r@ == kind_name(*self),
    {
        match self {
            ValueKind::Text => "text",
            ValueKind::Integer => "integer",
            ValueKind::Boolean => "boolean",
            ValueKind::Choice => "choice",
            ValueKind::Path => "path",
        }
    }
}

impl OptionSpec {
    /// An option with this long name, arity and kind: no alias, not required,
    /// no default, no choices, no help.
    pub fn new(long: String, arity: Arity, kind: ValueKind) -> (r: OptionSpec)
        ensures
            r.long == long,
            r.short is None,
            r.arity == arity,
            !r.required,
            r.default is None,
            r.kind == kind,
            r.choices@.len() == 0,
            r.help@.len() == 0,
    {
        OptionSpec {
            long,
            short: None,
            arity,
            required: false,
            default: None,
            kind,
            choices: Vec::new(),
            help: String::new(),
        }
    }

    /// The option with this alias.
    pub fn with_short(self, c: char) -> (r: OptionSpec)
        ensures
            r == (OptionSpec { short: Some(c), ..self }),
    {
        OptionSpec { short: Some(c), ..self }
    }

    /// The option, required or not.
    pub fn with_required(self, required: bool) -> (r: OptionSpec)
        ensures
            r == (OptionSpec { required, ..self }),
    {
        OptionSpec { required, ..self }
    }

    /// The option with this default.
    pub fn with_default(self, default: String) -> (r: OptionSpec)
        ensures
            r == (OptionSpec { default: Some(default), ..self }),
    {
        OptionSpec { default: Some(default), ..self }
    }

    /// The option with these choices.
    pub fn with_choices(self, choices: Vec<String>) -> (r: OptionSpec)
        ensures
            r == (OptionSpec { choices, ..self }),
    {
        OptionSpec { choices, ..self }
    }

    /// The option with this help text.
    pub fn with_help(self, help: String) -> (r: OptionSpec)
        ensures
            r == (OptionSpec { help, ..self }),
    {
        OptionSpec { help, ..self }
    }
}

impl PositionalSpec {
    /// A positional with this name, requirement and multiplicity.
    pub fn new(name: String, required: bool, multiplicity: Multiplicity) -> (r: PositionalSpec)
        ensures
            r == (PositionalSpec { name, required, multiplicity }),
    {
        PositionalSpec { name, required, multiplicity }
    }

    /// Says whether the positional must be given a value.
    pub fn demands_value(&self) -> (r: bool)
        ensures
            r == demands(*self),
    {
        self.required || match self.multiplicity {
            Multiplicity::ZeroOrOne => false,
            _ => true,
        }
    }

    /// Says whether the positional takes every further value.
    pub fn is_multi(&self) -> (r: bool)
        ensures
            r == (self.multiplicity == Multiplicity::OneOrMore),
    {
        match self.multiplicity {
            Multiplicity::OneOrMore => true,
            _ => false,
        }
    }
}

impl Schema {
    /// The grammar is well formed: long names and aliases are each unique,
    /// nothing follows a multi-valued positional, and no required positional
    /// follows an optional one.
    pub open spec fn wf(&self) -> bool {
        &&& longs_unique(self.options@, self.options@.len() as int)
        &&& shorts_unique(self.options@, self.options@.len() as int)
        &&& positionals_ordered(self.positionals@, self.positionals@.len() as int)
    }

    /// Makes a grammar of a declaration, or says what is wrong with it: the
    /// first option whose long name repeats an earlier one; if there is none,
    /// the first whose alias does; if there is none, the first misplaced
    /// positional.
    pub fn build(options: Vec<OptionSpec>, positionals: Vec<PositionalSpec>) -> (r: Result<
        Schema,
        SchemaError,
    >)
        ensures
            build_outcome(options@, positionals@, r),
    {
        let mut j: usize = 0;
        while j < options.len()
            invariant
                j <= options.len(),
                longs_unique(options@, j as int),
            decreases options.len() - j,
        {
            if has_long_clash(&options, j) {
                return Err(SchemaError::DuplicateLongName(options[j].long.clone()));
            }
            j += 1;
        }
        let mut j: usize = 0;
        while j < options.len()
            invariant
                j <= options.len(),
                longs_unique(options@, options@.len() as int),
                shorts_unique(options@, j as int),
            decreases options.len() - j,
        {
            if has_short_clash(&options, j) {
                match options[j].short {
                    Some(c) => {
                        return Err(SchemaError::DuplicateShortAlias(c));
                    },
                    None => {},
                }
            }
            j += 1;
        }
        let mut j: usize = 0;
        while j < positionals.len()
            invariant
                j <= positionals.len(),
                longs_unique(options@, options@.len() as int),
                shorts_unique(options@, options@.len() as int),
                positionals_ordered(positionals@, j as int),
            decreases positionals.len() - j,
        {
            if has_order_clash(&positionals, j) {
                let name = positionals[j].name.clone();
                assert(name@ == positionals@[j as int].name@);
                return Err(SchemaError::InvalidPositionalOrder(name));
            }
            j += 1;
        }
        Ok(Schema { options, positionals })
    }
}

} // verus!
