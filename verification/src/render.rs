//! The usage text of a grammar.

use vstd::prelude::*;
use vstd::string::*;
use crate::schema::{OptionSpec, PositionalSpec, Schema};
use crate::text::push_char;

verus! {

/// A run of `n` spaces.
pub open spec fn spaces(n: int) -> Seq<char> {
    Seq::new(
        if n > 0 {
            n as nat
        } else {
            0
        },
        |i: int| ' ',
    )
}

/// The length of the longest long name among the first `n` options.
pub open spec fn name_width(opts: Seq<OptionSpec>, n: int) -> int
    decreases n,
{
    if n <= 0 {
        0
    } else if opts[n - 1].long@.len() > name_width(opts, n - 1) {
        opts[n - 1].long@.len() as int
    } else {
        name_width(opts, n - 1)
    }
}

/// The alias column of an option's line.
pub open spec fn alias_column(short: Option<char>) -> Seq<char> {
    match short {
        Some(c) => "-"@.push(c) + ", "@,
        None => "    "@,
    }
}

/// The note on an option's default, where it has one.
pub open spec fn default_note(default: Option<String>) -> Seq<char> {
    match default {
        Some(d) => " [default: "@ + d@ + "]"@,
        None => Seq::empty(),
    }
}

/// The line of one option: indentation, alias, long name filled up to the
/// common width, help text, default.
pub open spec fn option_line(o: OptionSpec, width: int) -> Seq<char> {
    "  "@ + alias_column(o.short) + "--"@ + o.long@ + spaces(width - o.long@.len()) + "  "@
        + o.help@ + default_note(o.default) + "\n"@
}

/// The lines of those among the first `n` options that are required, or of
/// those that are not.
pub open spec fn group_lines(opts: Seq<OptionSpec>, width: int, required: bool, n: int) -> Seq<
    char,
>
    decreases n,
{
    if n <= 0 {
        Seq::empty()
    } else if opts[n - 1].required == required {
        group_lines(opts, width, required, n - 1) + option_line(opts[n - 1], width)
    } else {
        group_lines(opts, width, required, n - 1)
    }
}

/// The line of one positional.
pub open spec fn positional_line(p: PositionalSpec) -> Seq<char> {
    "  "@ + p.name@ + "\n"@
}

/// The lines of the first `n` positionals.
pub open spec fn positional_lines(pos: Seq<PositionalSpec>, n: int) -> Seq<char>
    decreases n,
{
    if n <= 0 {
        Seq::empty()
    } else {
        positional_lines(pos, n - 1) + positional_line(pos[n - 1])
    }
}

/// The usage text: the required options, the other options, the positionals.
pub open spec fn spec_render(opts: Seq<OptionSpec>, pos: Seq<PositionalSpec>) -> Seq<char> {
    let width = name_width(opts, opts.len() as int);
    "Required options:\n"@ + group_lines(opts, width, true, opts.len() as int)
        + "Optional options:\n"@ + group_lines(opts, width, false, opts.len() as int)
        + "Positionals:\n"@ + positional_lines(pos, pos.len() as int)
}

/// No long name among the first `n` options is longer than their width.
proof fn lemma_width_covers(opts: Seq<OptionSpec>, n: int, j: int)
    requires
        0 <= j < n <= opts.len(),
    ensures
        opts[j].long@.len() <= name_width(opts, n),
    decreases n,
{
    if j < n - 1 {
        lemma_width_covers(opts, n - 1, j);
    }
}

/// Adds `n` spaces to a string.
fn pad(s: &mut String, n: usize)
    ensures
        final(s)@ == old(s)@ + spaces(n as int),
{
    let mut i: usize = 0;
    assert(s@ =~= old(s)@ + spaces(0));
    while i < n
        invariant
            i <= n,
            s@ == old(s)@ + spaces(i as int),
        decreases n - i,
    {
        push_char(s, ' ');
        i += 1;
        assert(s@ =~= old(s)@ + spaces(i as int));
    }
}

/// Writes the line of one option.
fn write_option_line(o: &OptionSpec, width: usize) -> (line: String)
    requires
        o.long@.len() <= width,
    ensures
        line@ == option_line(*o, width as int),
{
    let mut line = String::from_str("  ");
    match o.short {
        Some(c) => {
            let mut col = String::from_str("-");
            push_char(&mut col, c);
            col.append(", ");
            line.append(col.as_str());
        },
        None => {
            line.append("    ");
        },
    }
    line.append("--");
    line.append(o.long.as_str());
    let used: usize = o.long.as_str().unicode_len();
    pad(&mut line, width - used);
    line.append("  ");
    line.append(o.help.as_str());
    match &o.default {
        Some(d) => {
            let mut note = String::from_str(" [default: ");
            note.append(d.as_str());
            note.append("]");
            line.append(note.as_str());
        },
        None => {
            assert(line@ + Seq::<char>::empty() =~= line@);
        },
    }
    line.append("\n");
    line
}

/// Writes the lines of the options that are required, or of those that are not.
fn write_group(schema: &Schema, width: usize, required: bool, out: &mut String)
    requires
        width == name_width(schema.options@, schema.options@.len() as int),
    ensures
        final(out)@ == old(out)@ + group_lines(
            schema.options@,
            width as int,
            required,
            schema.options@.len() as int,
        ),
{
    let mut i: usize = 0;
    assert(out@ =~= old(out)@ + group_lines(schema.options@, width as int, required, 0));
    while i < schema.options.len()
        invariant
            i <= schema.options.len(),
            width == name_width(schema.options@, schema.options@.len() as int),
            out@ == old(out)@ + group_lines(schema.options@, width as int, required, i as int),
        decreases schema.options.len() - i,
    {
        let ghost before = group_lines(schema.options@, width as int, required, i as int);
        if schema.options[i].required == required {
            proof {
                lemma_width_covers(schema.options@, schema.options@.len() as int, i as int);
            }
            let line = write_option_line(&schema.options[i], width);
            out.append(line.as_str());
            assert(out@ =~= old(out)@ + (before + line@));
        }
        i += 1;
    }
}

/// Writes the usage text of a grammar: under one heading the required
/// options, under a second the others, under a third the positionals. An
/// option's line holds its alias, its long name, filled with spaces up to the
/// longest long name of the grammar, its help text and its default.
pub fn render(schema: &Schema) -> (out: String)
    ensures
        out@ == spec_render(schema.options@, schema.positionals@),
{
    let mut width: usize = 0;
    let mut i: usize = 0;
    while i < schema.options.len()
        invariant
            i <= schema.options.len(),
            width == name_width(schema.options@, i as int),
        decreases schema.options.len() - i,
    {
        let used: usize = schema.options[i].long.as_str().unicode_len();
        if used > width {
            width = used;
        }
        i += 1;
    }
    let mut out = String::from_str("Required options:\n");
    write_group(schema, width, true, &mut out);
    out.append("Optional options:\n");
    write_group(schema, width, false, &mut out);
    out.append("Positionals:\n");
    let ghost head = out@;
    let mut j: usize = 0;
    assert(out@ =~= head + positional_lines(schema.positionals@, 0));
    while j < schema.positionals.len()
        invariant
            j <= schema.positionals.len(),
            out@ == head + positional_lines(schema.positionals@, j as int),
        decreases schema.positionals.len() - j,
    {
        let ghost before = positional_lines(schema.positionals@, j as int);
        let mut line = String::from_str("  ");
        line.append(schema.positionals[j].name.as_str());
        line.append("\n");
        out.append(line.as_str());
        assert(out@ =~= head + (before + line@));
        j += 1;
    }
    out
}

} // verus!
