//! Typed values, and the conversion of raw text to them.

use vstd::prelude::*;
use vstd::string::*;
use crate::schema::{OptionSpec, ValueKind};

verus! {

/// A converted value.
#[derive(Clone, Debug, PartialEq, Eq)]
pub enum Value {
    /// Text as written.
    Text(String),
    /// A decimal integer.
    Integer(i64),
    /// A truth value; what a flag records.
    Boolean(bool),
    /// One of an option's choices.
    Choice(String),
    /// A path, as written.
    Path(String),
}

/// A value as the contracts see it.
pub enum ValueModel {
    /// Text.
    Text(Seq<char>),
    /// An integer.
    Integer(i64),
    /// A truth value.
    Boolean(bool),
    /// A choice.
    Choice(Seq<char>),
    /// A path.
    Path(Seq<char>),
}

impl View for Value {
    type V = ValueModel;

    open spec fn view(&self) -> ValueModel {
        match *self {
            Value::Text(s) => ValueModel::Text(s@),
            Value::Integer(n) => ValueModel::Integer(n),
            Value::Boolean(b) => ValueModel::Boolean(b),
            Value::Choice(s) => ValueModel::Choice(s@),
            Value::Path(s) => ValueModel::Path(s@),
        }
    }
}

/// The view of an optional value.
pub open spec fn opt_value(o: Option<Value>) -> Option<ValueModel> {
    match o {
        Some(v) => Some(v@),
        None => None,
    }
}

/// The character is a decimal digit.
pub open spec fn is_digit(c: char) -> bool {
    '0' <= c <= '9'
}

/// The number that a digit stands for.
pub open spec fn digit_value(c: char) -> int {
    c as int - '0' as int
}

/// Every character is a decimal digit.
pub open spec fn all_digits(s: Seq<char>) -> bool {
    forall|i: int| 0 <= i < s.len() ==> is_digit(#[trigger] s[i])
}

/// The number that a run of digits writes in base ten.
pub open spec fn decimal(s: Seq<char>) -> int
    decreases s.len(),
{
    if s.len() == 0 {
        0
    } else {
        decimal(s.drop_last()) * 10 + digit_value(s.last())
    }
}

/// The integer that a text writes: an optional `-`, then one digit or more,
/// of a number that fits in 64 bits.
pub open spec fn integer_of(raw: Seq<char>) -> Option<i64> {
    let neg = raw.len() > 0 && raw[0] == '-';
    let digits = if neg {
        raw.subrange(1, raw.len() as int)
    } else {
        raw
    };
    let v = if neg {
        -decimal(digits)
    } else {
        decimal(digits)
    };
    if digits.len() > 0 && all_digits(digits) && i64::MIN <= v <= i64::MAX {
        Some(v as i64)
    } else {
        None
    }
}

/// The truth value that a text writes: `true` or `false`, nothing else.
pub open spec fn boolean_of(raw: Seq<char>) -> Option<bool> {
    if raw =~= seq!['t', 'r', 'u', 'e'] {
        Some(true)
    } else if raw =~= seq!['f', 'a', 'l', 's', 'e'] {
        Some(false)
    } else {
        None
    }
}

/// The text is one of the choices.
pub open spec fn is_choice(choices: Seq<String>, raw: Seq<char>) -> bool {
    exists|k: int| 0 <= k < choices.len() && #[trigger] choices[k]@ == raw
}

/// The value that a raw text gives for an option, where it gives one.
pub open spec fn spec_convert(spec: OptionSpec, raw: Seq<char>) -> Option<ValueModel> {
    match spec.kind {
        ValueKind::Text => Some(ValueModel::Text(raw)),
        ValueKind::Path => Some(ValueModel::Path(raw)),
        ValueKind::Integer => match integer_of(raw) {
            Some(n) => Some(ValueModel::Integer(n)),
            None => None,
        },
        ValueKind::Boolean => match boolean_of(raw) {
            Some(b) => Some(ValueModel::Boolean(b)),
            None => None,
        },
        ValueKind::Choice => if is_choice(spec.choices@, raw) {
            Some(ValueModel::Choice(raw))
        } else {
            None
        },
    }
}

/// A run of digits writes a number that is not negative and not smaller than
/// the one that any of its prefixes writes.
proof fn lemma_decimal_grows(s: Seq<char>, k: int)
    requires
        all_digits(s),
        0 <= k <= s.len(),
    ensures
        0 <= decimal(s.subrange(0, k)) <= decimal(s),
    decreases s.len(),
{
    if k == s.len() {
        assert(s.subrange(0, k) =~= s);
        if s.len() > 0 {
            lemma_decimal_grows(s.drop_last(), k - 1);
            assert(s.drop_last().subrange(0, k - 1) =~= s.drop_last());
            assert(is_digit(s[s.len() - 1]));
        }
    } else {
        lemma_decimal_grows(s.drop_last(), k);
        assert(s.drop_last().subrange(0, k) =~= s.subrange(0, k));
        assert(is_digit(s[s.len() - 1]));
    }
}

/// Reads the magnitude that a run of digits writes, where it is at most `limit`.
fn parse_magnitude(digits: &str, limit: u64) -> (r: Option<u64>)
    ensures
        r is Some <==> all_digits(digits@) && decimal(digits@) <= limit,
        r matches Some(v) ==> v == decimal(digits@),
{
    let n: usize = digits.unicode_len();
    let mut acc: u64 = 0;
    let mut i: usize = 0;
    assert(digits@.subrange(0, 0) =~= Seq::<char>::empty());
    while i < n
        invariant
            i <= n,
            n == digits@.len(),
            acc <= limit,
            acc == decimal(digits@.subrange(0, i as int)),
            all_digits(digits@.subrange(0, i as int)),
        decreases n - i,
    {
        let c = digits.get_char(i);
        if !('0' <= c && c <= '9') {
            assert(!is_digit(digits@[i as int]));
            return None;
        }
        let d: u64 = (c as u64) - ('0' as u64);
        proof {
            let next = digits@.subrange(0, i + 1);
            assert(next.drop_last() =~= digits@.subrange(0, i as int));
            assert(next.last() == c);
            assert(decimal(next) == acc * 10 + d);
            assert forall|j: int| 0 <= j < next.len() implies is_digit(#[trigger] next[j]) by {
                if j < i {
                    assert(digits@.subrange(0, i as int)[j] == next[j]);
                }
            }
        }
        if d > limit || acc > (limit - d) / 10 {
            proof {
                if all_digits(digits@) {
                    lemma_decimal_grows(digits@, i + 1);
                }
            }
            return None;
        }
        acc = acc * 10 + d;
        i += 1;
    }
    assert(digits@.subrange(0, n as int) =~= digits@);
    Some(acc)
}

/// Reads a decimal integer.
pub fn parse_integer(raw: &str) -> (r: Option<i64>)
    ensures
        r == integer_of(raw@),
{
    let n: usize = raw.unicode_len();
    if n > 0 && raw.get_char(0) == '-' {
        if n == 1 {
            return None;
        }
        match parse_magnitude(raw.substring_char(1, n), 0x8000_0000_0000_0000u64) {
            Some(m) => {
                if m == 0x8000_0000_0000_0000u64 {
                    Some(i64::MIN)
                } else {
                    Some(-(m as i64))
                }
            },
            None => None,
        }
    } else {
        if n == 0 {
            return None;
        }
        match parse_magnitude(raw, 0x7fff_ffff_ffff_ffffu64) {
            Some(m) => Some(m as i64),
            None => None,
        }
    }
}

/// Reads `true` or `false`.
pub fn parse_boolean(raw: &str) -> (r: Option<bool>)
    ensures
        r == boolean_of(raw@),
{
    let n: usize = raw.unicode_len();
    if n == 4 && raw.get_char(0) == 't' && raw.get_char(1) == 'r' && raw.get_char(2) == 'u'
        && raw.get_char(3) == 'e' {
        Some(true)
    } else if n == 5 && raw.get_char(0) == 'f' && raw.get_char(1) == 'a' && raw.get_char(2) == 'l'
        && raw.get_char(3) == 's' && raw.get_char(4) == 'e' {
        Some(false)
    } else {
        None
    }
}

/// Says whether a text is one of the choices.
pub fn among(choices: &Vec<String>, raw: &String) -> (r: bool)
    ensures
        r == is_choice(choices@, raw@),
{
    let mut k: usize = 0;
    while k < choices.len()
        invariant
            k <= choices.len(),
            forall|j: int| 0 <= j < k ==> #[trigger] choices@[j]@ != raw@,
        decreases choices.len() - k,
    {
        if choices[k] == *raw {
            return true;
        }
        k += 1;
    }
    false
}

/// Converts a raw text to the kind of value that the option asks for: text
/// and paths as they are, an integer from its decimal writing, a truth value
/// from `true` or `false`, a choice where the option lists it.
pub fn convert(spec: &OptionSpec, raw: &String) -> (r: Option<Value>)
    ensures
        opt_value(r) == spec_convert(*spec, raw@),
{
    match spec.kind {
        ValueKind::Text => Some(Value::Text(raw.clone())),
        ValueKind::Path => Some(Value::Path(raw.clone())),
        ValueKind::Integer => match parse_integer(raw.as_str()) {
            Some(n) => Some(Value::Integer(n)),
            None => None,
        },
        ValueKind::Boolean => match parse_boolean(raw.as_str()) {
            Some(b) => Some(Value::Boolean(b)),
            None => None,
        },
        ValueKind::Choice => if among(&spec.choices, raw) {
            Some(Value::Choice(raw.clone()))
        } else {
            None
        },
    }
}

impl OptionSpec {
    /// The option's default as a value of the option's kind: none where the
    /// option has no default, or where its text is no value of that kind.
    pub fn default_value(&self) -> (r: Option<Value>)
        ensures
            opt_value(r) == match self.default {
                Some(d) => spec_convert(*self, d@),
                None => None,
            },
    {
        match &self.default {
            Some(d) => convert(self, d),
            None => None,
        }
    }
}

} // verus!
