//! The layout in which an interactive shell shows a value: a document as one
//! line for each entry, indented by its depth, anything else as it is written.

use vstd::prelude::*;
use crate::grammar::render;
use crate::text::{chars_of, extend_chars, string_of};
use crate::value::{DataType, Value};

verus! {

/// A run of `n` spaces.
pub open spec fn indent(n: nat) -> Seq<char> {
    Seq::new(n, |i: int| ' ')
}

/// The indentation one level further in; it stops growing at the largest number.
pub open spec fn deeper(sub: u32) -> u32 {
    if sub < u32::MAX {
        (sub + 1) as u32
    } else {
        sub
    }
}

/// How a value is shown at indentation `sub`. A document is shown as its entries, after
/// a line break unless it stands at the outermost level; any other value as it is written.
pub open spec fn format_value(v: Value, sub: u32) -> Seq<char>
    decreases v,
{
    match v {
        Value::Document(entries) => (if sub > 0 {
            seq!['\n']
        } else {
            Seq::empty()
        }) + format_entries(entries, sub),
        _ => render(v),
    }
}

/// How the entries of a document are shown at indentation `sub`: for each, the
/// indentation, the key, a colon, a space, the value one level further in, a line break.
pub open spec fn format_entries(entries: Seq<(Seq<char>, Value)>, sub: u32) -> Seq<char>
    decreases entries,
{
    if entries.len() == 0 {
        Seq::empty()
    } else {
        indent(sub as nat) + entries[0].0 + seq![':', ' '] + format_value(
            entries[0].1,
            deeper(sub),
        ) + seq!['\n'] + format_entries(entries.drop_first(), sub)
    }
}

/// Appends `data`, as it is shown at indentation `sub`, to `out`.
pub fn format_into(data: &DataType, sub: u32, out: &mut Vec<char>)
    ensures
        final(out)@ == old(out)@ + format_value(data@, sub),
    decreases data,
{
    match data {
        DataType::Document(document) => {
            let ghost entries = document@;
            if sub > 0 {
                out.push('\n');
            }
            let ghost base = out@;
            let pairs = document.entries();
            let n = pairs.len();
            let mut i: usize = 0;
            assert(entries.skip(0) == entries);
            while i < n
                invariant
                    i <= n == pairs.len() == entries.len(),
                    *data == DataType::Document(*document),
                    entries == document@,
                    forall|j: int|
                        0 <= j < n ==> (#[trigger] pairs[j]).0@ == entries[j].0 && pairs[j].1@
                            == entries[j].1,
                    forall|j: int|
                        0 <= j < n ==> decreases_to!(*document => (#[trigger] pairs[j]).1),
                    out@ + format_entries(entries.skip(i as int), sub) == base + format_entries(
                        entries,
                        sub,
                    ),
                decreases n - i,
            {
                let ghost before = out@;
                let mut k: u32 = 0;
                while k < sub
                    invariant
                        k <= sub,
                        out@ == before + indent(k as nat),
                    decreases sub - k,
                {
                    out.push(' ');
                    k += 1;
                }
                let key = chars_of(pairs[i].0.as_str());
                extend_chars(out, &key);
                out.push(':');
                out.push(' ');
                let next: u32 = if sub < u32::MAX {
                    sub + 1
                } else {
                    sub
                };
                assert(decreases_to!(*data => data->Document_0));
                format_into(&pairs[i].1, next, out);
                out.push('\n');
                proof {
                    let rest = entries.skip(i as int);
                    assert(rest.drop_first() == entries.skip(i + 1));
                }
                i += 1;
            }
        },
        _ => {
            data.render_into(out);
        },
    }
}

/// Shows `data` at indentation `sub`.
pub fn format_data_type(data: DataType, sub: u32) -> (shown: String)
    ensures
        shown@ == format_value(data@, sub),
{
    let mut out: Vec<char> = Vec::new();
    format_into(&data, sub, &mut out);
    string_of(&out)
}

} // verus!
