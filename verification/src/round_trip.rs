//! Reading back what was written.
//!
//! A scan splits the inside of an array or a document at its top-level commas.
//! It splits it exactly where it was joined, if the text of every element and of
//! every stored value is quiet: a scan of it from the top level ends at the top
//! level and meets no comma there. A value is read back from its own text if
//! that holds at every depth, no text in it starts or ends with a double quote,
//! and no key in it holds a colon or starts or ends with white space.
//!
//! All this holds of a value in which no text holds a double quote and no key
//! holds a colon, a double quote, a bracket or a brace, or starts or ends with
//! white space.

use vstd::prelude::*;
use crate::grammar::{
    enclosed, first_separator, infer, inner, kind_of, load_entries, load_items, load_value,
    parse, parse_boolean, position_of, render, render_entries, render_items, separator_from,
    Nesting, KIND_DOCUMENT, KIND_ID,
};
use crate::id::{
    is_hex, lemma_hyphenated_chars, lemma_id_round_trip, lemma_id_text, lemma_render_id_shape,
    parse_id,
};
use crate::text::{
    is_space, lemma_leading, lemma_number_round_trip, lemma_render_natural,
    lemma_strip_nothing, lemma_trailing, numeral_digits, parse_number, strip, trim, Edge,
};
use crate::value::{keys_unique, lemma_key_position_is, upsert, Value};

verus! {

/// Whether `c` leaves the nesting of a scan outside quotes as it is.
pub open spec fn is_plain(c: char) -> bool {
    c != '"' && c != '[' && c != ']' && c != '{' && c != '}'
}

/// Whether a text can stand between double quotes: it holds none.
pub open spec fn plain_text(text: Seq<char>) -> bool {
    forall|i: int| 0 <= i < text.len() ==> #[trigger] text[i] != '"'
}

/// Whether a key can stand bare before its colon: it holds no colon, double quote,
/// bracket or brace, and neither starts nor ends with white space.
pub open spec fn plain_key(key: Seq<char>) -> bool {
    &&& forall|i: int| 0 <= i < key.len() ==> is_plain(#[trigger] key[i]) && key[i] != ':'
    &&& key.len() > 0 ==> !is_space(key.first()) && !is_space(key.last())
}

/// Whether a text is read back from between double quotes: it neither starts nor
/// ends with one.
pub open spec fn bare_text(text: Seq<char>) -> bool {
    text.len() > 0 ==> text.first() != '"' && text.last() != '"'
}

/// Whether a key is read back from before its colon: it holds no colon, and neither
/// starts nor ends with white space.
pub open spec fn bare_key(key: Seq<char>) -> bool {
    &&& forall|i: int| 0 <= i < key.len() ==> #[trigger] key[i] != ':'
    &&& key.len() > 0 ==> !is_space(key.first()) && !is_space(key.last())
}

/// Whether every text and every key of a value, at any depth, is plain.
pub open spec fn writable(v: Value) -> bool
    decreases v,
{
    match v {
        Value::Text(text) => plain_text(text),
        Value::Array(items) => forall|i: int|
            0 <= i < items.len() ==> writable(#[trigger] items[i]),
        Value::Document(entries) => forall|i: int|
            0 <= i < entries.len() ==> plain_key((#[trigger] entries[i]).0) && writable(
                entries[i].1,
            ),
        _ => true,
    }
}

/// Whether a value is read back from its own text: at every depth, the texts and the
/// keys are bare, and the text of every element of an array and of every value stored
/// in a document is quiet at the top level.
pub open spec fn readable(v: Value) -> bool
    decreases v,
{
    match v {
        Value::Text(text) => bare_text(text),
        Value::Array(items) => forall|i: int|
            0 <= i < items.len() ==> readable(#[trigger] items[i]) && quiet(
                render(items[i]),
                Nesting::top(),
            ),
        Value::Document(entries) => forall|i: int|
            0 <= i < entries.len() ==> bare_key((#[trigger] entries[i]).0) && readable(
                entries[i].1,
            ) && quiet(render(entries[i].1), Nesting::top()),
        _ => true,
    }
}

/// The nesting after a scan of `s` that starts in `state`.
pub open spec fn scan(s: Seq<char>, state: Nesting) -> Nesting
    decreases s.len(),
{
    if s.len() == 0 {
        state
    } else {
        scan(s.drop_first(), state.step(s[0]))
    }
}

/// Whether a scan of `s` that starts in `state` meets a comma at the top level.
pub open spec fn splits(s: Seq<char>, state: Nesting) -> bool
    decreases s.len(),
{
    if s.len() == 0 {
        false
    } else if s[0] == ',' && state.is_top() {
        true
    } else {
        splits(s.drop_first(), state.step(s[0]))
    }
}

/// Whether a scan of `s` from `state` ends in `state` and meets no comma at the top level.
pub open spec fn quiet(s: Seq<char>, state: Nesting) -> bool {
    scan(s, state) == state && !splits(s, state)
}

/// A scan of two texts in a row is a scan of the first and then one of the second.
pub proof fn lemma_scan_concat(a: Seq<char>, b: Seq<char>, state: Nesting)
    ensures
        scan(a + b, state) == scan(b, scan(a, state)),
        splits(a + b, state) == (splits(a, state) || splits(b, scan(a, state))),
    decreases a.len(),
{
    if a.len() > 0 {
        assert((a + b).drop_first() == a.drop_first() + b);
        lemma_scan_concat(a.drop_first(), b, state.step(a[0]));
    }
}

/// Two quiet texts in a row are quiet.
pub proof fn lemma_quiet_concat(a: Seq<char>, b: Seq<char>, state: Nesting)
    requires
        quiet(a, state),
        quiet(b, state),
    ensures
        quiet(a + b, state),
{
    lemma_scan_concat(a, b, state);
}

/// A search for a separator passes over a text that shows none.
pub proof fn lemma_separator_skips(s: Seq<char>, i: int, part: Seq<char>, state: Nesting)
    requires
        0 <= i,
        i + part.len() <= s.len(),
        s.subrange(i, i + part.len()) == part,
        !splits(part, state),
    ensures
        separator_from(s, i, state) == separator_from(s, i + part.len(), scan(part, state)),
    decreases part.len(),
{
    if part.len() > 0 {
        assert(s.subrange(i + 1, i + part.len()) == part.drop_first());
        lemma_separator_skips(s, i + 1, part.drop_first(), state.step(part[0]));
    }
}

/// Plain characters are quiet outside quotes, if they hold no comma or stand inside
/// a bracket or brace.
pub proof fn lemma_plain_quiet(s: Seq<char>, state: Nesting)
    requires
        !state.quoted,
        forall|i: int| 0 <= i < s.len() ==> is_plain(#[trigger] s[i]),
        state.depth >= 1 || forall|i: int| 0 <= i < s.len() ==> #[trigger] s[i] != ',',
    ensures
        quiet(s, state),
    decreases s.len(),
{
    if s.len() > 0 {
        let rest = s.drop_first();
        lemma_plain_quiet(rest, state);
    }
}

/// Inside quotes, a text without a double quote changes nothing and shows no comma.
pub proof fn lemma_quoted_quiet(text: Seq<char>, state: Nesting)
    requires
        state.quoted,
        plain_text(text),
    ensures
        quiet(text, state),
    decreases text.len(),
{
    if text.len() > 0 {
        let rest = text.drop_first();
        lemma_quoted_quiet(rest, state);
    }
}

/// A quiet text between two characters, of which the first changes the nesting and the
/// second changes it back, is quiet.
pub proof fn lemma_wrapped_quiet(open: char, body: Seq<char>, close: char, state: Nesting)
    requires
        open != ',',
        close != ',',
        quiet(body, state.step(open)),
        state.step(open).step(close) == state,
    ensures
        quiet(seq![open] + body + seq![close], state),
{
    let inside = state.step(open);
    let head = seq![open];
    let tail = seq![close];
    assert(scan(head, state) == inside && !splits(head, state)) by {
        assert(scan(head.drop_first(), inside) == inside);
        assert(!splits(head.drop_first(), inside));
    }
    assert(scan(tail, inside) == state && !splits(tail, inside)) by {
        assert(scan(tail.drop_first(), state) == state);
        assert(!splits(tail.drop_first(), state));
    }
    lemma_scan_concat(head, body, state);
    lemma_scan_concat(head + body, tail, state);
}

/// Whether `c` is a character of the text of an identifier, a number or a boolean.
pub open spec fn is_scalar_char(c: char) -> bool {
    is_hex(c) || c == '-' || c == 't' || c == 'r' || c == 'u' || c == 'l' || c == 's'
}

/// The text of an identifier, a number or a boolean is made of digits, letters and hyphens.
pub proof fn lemma_scalar_chars(v: Value)
    requires
        v is Id || v is Number || v is Boolean,
    ensures
        render(v).len() >= 1,
        forall|i: int| 0 <= i < render(v).len() ==> is_scalar_char(#[trigger] render(v)[i]),
{
    let r = render(v);
    match v {
        Value::Id(id) => {
            lemma_render_id_shape(id);
            assert forall|i: int| 0 <= i < r.len() implies is_scalar_char(#[trigger] r[i]) by {
                lemma_hyphenated_chars(r, i);
            }
        },
        Value::Number(n) => {
            lemma_number_round_trip(n);
            if n < 0 {
                lemma_render_natural((-n) as nat);
            } else {
                lemma_render_natural(n as nat);
            }
        },
        _ => {},
    }
}

/// The text of a value is not empty and neither starts nor ends with white space. That
/// of a text stands between double quotes, that of an array between brackets, that of
/// a document between braces; that of a document with entries ends with a comma, a
/// space and the brace.
pub proof fn lemma_render_edges(v: Value)
    ensures
        render(v).len() >= 1,
        !is_space(render(v).first()),
        !is_space(render(v).last()),
        v is Text ==> enclosed(render(v), '"', '"'),
        v is Array ==> enclosed(render(v), '[', ']'),
        v is Document ==> enclosed(render(v), '{', '}'),
        v matches Value::Document(entries) ==> entries.len() == 0 ==> render(v).len() == 2,
        v matches Value::Document(entries) ==> entries.len() > 0 ==> render(v).len() >= 3
            && render(v)[render(v).len() - 2] == ' ',
        (v is Id || v is Number || v is Boolean) ==> is_scalar_char(render(v).first()),
{
    match v {
        Value::Document(entries) => {
            if entries.len() > 0 {
                lemma_entries_end(entries);
            }
        },
        Value::Array(_) | Value::Text(_) => {},
        _ => {
            lemma_scalar_chars(v);
        },
    }
}

/// The entries of a document, as they are written, end with a comma and a space.
pub proof fn lemma_entries_end(entries: Seq<(Seq<char>, Value)>)
    requires
        entries.len() > 0,
    ensures
        render_entries(entries).len() >= 2,
        render_entries(entries).last() == ' ',
    decreases entries.len(),
{
    let rest = entries.drop_first();
    if rest.len() > 0 {
        lemma_entries_end(rest);
    } else {
        assert(render_entries(rest).len() == 0);
    }
}

/// The text of a writable value is quiet outside quotes.
pub proof fn lemma_render_quiet(v: Value, state: Nesting)
    requires
        writable(v),
        !state.quoted,
    ensures
        quiet(render(v), state),
    decreases v,
{
    match v {
        Value::Text(text) => {
            lemma_quoted_quiet(text, state.step('"'));
            lemma_wrapped_quiet('"', text, '"', state);
        },
        Value::Array(items) => {
            lemma_items_quiet(items, state.step('['));
            lemma_wrapped_quiet('[', render_items(items), ']', state);
        },
        Value::Document(entries) => {
            lemma_entries_quiet(entries, state.step('{'));
            lemma_wrapped_quiet('{', render_entries(entries), '}', state);
        },
        _ => {
            lemma_scalar_chars(v);
            lemma_plain_quiet(render(v), state);
        },
    }
}

/// The elements of a writable array, as they are written, are quiet inside a bracket.
pub proof fn lemma_items_quiet(items: Seq<Value>, state: Nesting)
    requires
        forall|i: int| 0 <= i < items.len() ==> writable(#[trigger] items[i]),
        !state.quoted,
        state.depth >= 1,
    ensures
        quiet(render_items(items), state),
    decreases items,
{
    if items.len() > 0 {
        lemma_render_quiet(items[0], state);
        if items.len() > 1 {
            let rest = items.drop_first();
            lemma_items_quiet(rest, state);
            lemma_plain_quiet(seq![',', ' '], state);
            lemma_quiet_concat(render(items[0]), seq![',', ' '], state);
            lemma_quiet_concat(render(items[0]) + seq![',', ' '], render_items(rest), state);
        }
    }
}

/// The entries of a writable document, as they are written, are quiet inside a brace.
pub proof fn lemma_entries_quiet(entries: Seq<(Seq<char>, Value)>, state: Nesting)
    requires
        forall|i: int|
            0 <= i < entries.len() ==> plain_key((#[trigger] entries[i]).0) && writable(
                entries[i].1,
            ),
        !state.quoted,
        state.depth >= 1,
    ensures
        quiet(render_entries(entries), state),
    decreases entries,
{
    if entries.len() > 0 {
        let rest = entries.drop_first();
        let key = entries[0].0;
        let value = render(entries[0].1);
        lemma_entries_quiet(rest, state);
        lemma_render_quiet(entries[0].1, state);
        lemma_plain_quiet(key, state);
        lemma_plain_quiet(seq![':', ' '], state);
        lemma_plain_quiet(seq![',', ' '], state);
        lemma_quiet_concat(key, seq![':', ' '], state);
        lemma_quiet_concat(key + seq![':', ' '], value, state);
        lemma_quiet_concat(key + seq![':', ' '] + value, seq![',', ' '], state);
        lemma_quiet_concat(
            key + seq![':', ' '] + value + seq![',', ' '],
            render_entries(rest),
            state,
        );
    }
}

/// Nothing, or one space: what stands before an element or an entry in the inside of
/// an array or a document.
pub open spec fn is_pad(pad: Seq<char>) -> bool {
    pad == Seq::<char>::empty() || pad == seq![' ']
}

/// A pad is quiet at the top level.
pub proof fn lemma_pad_quiet(pad: Seq<char>)
    requires
        is_pad(pad),
    ensures
        quiet(pad, Nesting::top()),
        forall|i: int| 0 <= i < pad.len() ==> is_space(#[trigger] pad[i]) && pad[i] != ':',
{
    lemma_plain_quiet(pad, Nesting::top());
}

/// Trimming takes a pad away from a text that neither starts nor ends with white space.
pub proof fn lemma_trim_padded(pad: Seq<char>, text: Seq<char>)
    requires
        is_pad(pad),
        text.len() > 0 ==> !is_space(text.first()) && !is_space(text.last()),
    ensures
        trim(pad + text) == text,
{
    let s = pad + text;
    lemma_pad_quiet(pad);
    lemma_leading(s, Edge::Space, pad.len() as int);
    lemma_trailing(text, Edge::Space, 0);
}

/// Two texts that are the same once trimmed are taken for the same kind and denote the
/// same value.
pub proof fn lemma_parse_trimmed(a: Seq<char>, b: Seq<char>)
    requires
        trim(a) == trim(b),
    ensures
        infer(a) == infer(b),
        forall|kind: u16| load_value(kind, a) == load_value(kind, b),
        parse(a) == parse(b),
{
}

/// The position of a character is where it stands first.
pub proof fn lemma_position_of(s: Seq<char>, c: char, n: int)
    requires
        0 <= n <= s.len(),
        forall|j: int| 0 <= j < n ==> #[trigger] s[j] != c,
        n < s.len() ==> s[n] == c,
    ensures
        position_of(s, c) == n,
    decreases s.len(),
{
    if n > 0 {
        let rest = s.drop_first();
        lemma_position_of(rest, c, n - 1);
    }
}

/// A text between double quotes, stripped of the quotes at its ends, is the text, if
/// it neither starts nor ends with a double quote itself.
pub proof fn lemma_strip_quotes(text: Seq<char>)
    requires
        bare_text(text),
    ensures
        strip(seq!['"'] + text + seq!['"'], Edge::Quote) == text,
{
    let s = seq!['"'] + text + seq!['"'];
    if text.len() == 0 {
        lemma_leading(s, Edge::Quote, 2);
    } else {
        lemma_leading(s, Edge::Quote, 1);
        let rest = s.skip(1);
        lemma_trailing(rest, Edge::Quote, 1);
    }
}

/// The text of a value is taken for the kind of the value, and trimming leaves it as
/// it is.
pub proof fn lemma_infer_render(v: Value)
    ensures
        trim(render(v)) == render(v),
        infer(render(v)) == kind_of(v),
{
    let r = render(v);
    lemma_render_edges(v);
    lemma_strip_nothing(r, Edge::Space);
    match v {
        Value::Id(id) => {
            lemma_id_round_trip(id);
        },
        Value::Number(n) => {
            lemma_number_round_trip(n);
            if parse_id(r) is Some {
                lemma_id_text(r);
            }
        },
        Value::Boolean(_) => {
            if parse_id(r) is Some {
                lemma_id_text(r);
            }
            assert(numeral_digits(r) == r);
        },
        Value::Text(_) | Value::Array(_) => {
            lemma_not_scalar(r);
        },
        Value::Document(_) => {
            if parse_id(r) is Some {
                lemma_id_text(r);
            }
        },
    }
}

/// A text that starts with a double quote or a bracket is no identifier, number or boolean.
pub proof fn lemma_not_scalar(r: Seq<char>)
    requires
        r.len() >= 1,
        r[0] == '"' || r[0] == '[',
    ensures
        parse_id(r) is None,
        parse_number(r) is None,
        parse_boolean(r) is None,
{
    if parse_id(r) is Some {
        lemma_id_text(r);
    }
}

/// The elements of an array are read back from what was written for them, behind a pad.
pub proof fn lemma_items_round_trip(pad: Seq<char>, items: Seq<Value>)
    requires
        is_pad(pad),
        items.len() >= 1,
        forall|i: int|
            0 <= i < items.len() ==> quiet(render(#[trigger] items[i]), Nesting::top())
                && parse(render(items[i])) == Some(items[i]),
    ensures
        load_items(pad + render_items(items)) == items,
    decreases items.len(),
{
    let top = Nesting::top();
    let first = render(items[0]);
    let s = pad + render_items(items);
    lemma_pad_quiet(pad);
    assert(quiet(first, top));
    lemma_render_edges(items[0]);
    lemma_trim_padded(pad, first);
    lemma_strip_nothing(first, Edge::Space);
    lemma_parse_trimmed(pad + first, first);
    let k: int = (pad.len() + first.len()) as int;
    assert(s.subrange(0, pad.len() as int) == pad);
    assert(s.subrange(pad.len() as int, k as int) == first);
    lemma_separator_skips(s, 0, pad, top);
    lemma_separator_skips(s, pad.len() as int, first, top);
    if items.len() > 1 {
        let rest = items.drop_first();
        assert(first_separator(s) == k);
        assert(s.take(k as int) == pad + first);
        assert(s.skip(k + 1) == seq![' '] + render_items(rest));
        lemma_items_round_trip(seq![' '], rest);
    }
}

/// How the inside of a document splits at its first entry: the key stands before the
/// first colon, the value text between the colon and the first separator after it, and
/// the other entries follow behind one space.
pub proof fn lemma_entry_split(pad: Seq<char>, key: Seq<char>, value: Value, tail: Seq<char>)
    requires
        is_pad(pad),
        bare_key(key),
        quiet(render(value), Nesting::top()),
    ensures
        ({
            let s = pad + (key + seq![':', ' '] + render(value) + seq![',', ' '] + tail);
            let colon = (pad.len() + key.len()) as int;
            let after = s.skip(colon + 1);
            let k = (1 + render(value).len()) as int;
            &&& position_of(s, ':') == colon
            &&& colon < s.len()
            &&& trim(s.take(colon)) == key
            &&& first_separator(after) == k
            &&& k < after.len()
            &&& parse(after.take(k)) == parse(render(value))
            &&& after.skip(k + 1) == seq![' '] + tail
        }),
{
    let top = Nesting::top();
    let text = render(value);
    let s = pad + (key + seq![':', ' '] + text + seq![',', ' '] + tail);
    let colon = (pad.len() + key.len()) as int;
    lemma_pad_quiet(pad);
    assert(position_of(s, ':') == colon && trim(s.take(colon)) == key) by {
        lemma_position_of(s, ':', colon);
        assert(s.take(colon) == pad + key);
        lemma_trim_padded(pad, key);
    }
    let after = s.skip(colon + 1);
    let padded = seq![' '] + text;
    let k = padded.len() as int;
    assert(parse(padded) == parse(text)) by {
        lemma_render_edges(value);
        lemma_trim_padded(seq![' '], text);
        lemma_strip_nothing(text, Edge::Space);
        lemma_parse_trimmed(padded, text);
    }
    assert(first_separator(after) == k) by {
        lemma_pad_quiet(seq![' ']);
        lemma_quiet_concat(seq![' '], text, top);
        assert(after.subrange(0, k) == padded);
        lemma_separator_skips(after, 0, padded, top);
    }
    assert(after.take(k) == padded);
}

/// The entries of a document are read back from what was written for them, behind a
/// pad, and come after the entries that were read before them.
pub proof fn lemma_entries_round_trip(
    pad: Seq<char>,
    entries: Seq<(Seq<char>, Value)>,
    before: Seq<(Seq<char>, Value)>,
)
    requires
        is_pad(pad),
        keys_unique(before + entries),
        forall|i: int|
            0 <= i < entries.len() ==> bare_key((#[trigger] entries[i]).0) && quiet(
                render(entries[i].1),
                Nesting::top(),
            ) && parse(render(entries[i].1)) == Some(entries[i].1),
    ensures
        load_entries(pad + render_entries(entries), before) == before + entries,
    decreases entries.len(),
{
    let s = pad + render_entries(entries);
    if entries.len() == 0 {
        lemma_pad_quiet(pad);
        lemma_position_of(s, ':', s.len() as int);
    } else {
        let key = entries[0].0;
        let value = entries[0].1;
        let rest = entries.drop_first();
        let tail = render_entries(rest);
        lemma_entry_split(pad, key, value, tail);
        let grown = before.push((key, value));
        assert(upsert(before, key, value) == grown) by {
            assert forall|j: int| 0 <= j < before.len() implies (#[trigger] before[j]).0
                != key by {
                assert((before + entries)[j] == before[j]);
                assert((before + entries)[before.len() as int] == entries[0]);
            }
            lemma_key_position_is(before, key, before.len() as int);
        }
        assert(grown + rest == before + entries);
        lemma_entries_round_trip(seq![' '], rest, grown);
    }
}

/// Reading back what was written for a value gives the value: for every readable
/// value in which no document stores a key twice.
pub proof fn lemma_round_trip(v: Value)
    requires
        v.well_formed(),
        readable(v),
    ensures
        infer(render(v)) == kind_of(v),
        load_value(kind_of(v), render(v)) == Some(v),
        parse(render(v)) == Some(v),
    decreases v,
{
    let r = render(v);
    lemma_infer_render(v);
    lemma_render_edges(v);
    match v {
        Value::Id(id) => {
            lemma_id_round_trip(id);
        },
        Value::Text(text) => {
            lemma_strip_quotes(text);
        },
        Value::Number(n) => {
            lemma_number_round_trip(n);
        },
        Value::Boolean(_) => {},
        Value::Array(items) => {
            assert(inner(r) == render_items(items));
            if items.len() == 0 {
                assert(load_items(inner(r)) == items);
            } else {
                assert forall|i: int| 0 <= i < items.len() implies quiet(
                    render(#[trigger] items[i]),
                    Nesting::top(),
                ) && parse(render(items[i])) == Some(items[i]) by {
                    lemma_round_trip(items[i]);
                }
                lemma_items_round_trip(Seq::empty(), items);
            }
        },
        Value::Document(entries) => {
            assert(inner(r) == render_entries(entries));
            assert forall|i: int| 0 <= i < entries.len() implies bare_key(
                (#[trigger] entries[i]).0,
            ) && quiet(render(entries[i].1), Nesting::top()) && parse(render(entries[i].1))
                == Some(entries[i].1) by {
                lemma_round_trip(entries[i].1);
            }
            lemma_entries_round_trip(Seq::empty(), entries, Seq::empty());
        },
    }
}

/// A value whose texts and keys are plain is readable.
pub proof fn lemma_writable_readable(v: Value)
    requires
        writable(v),
    ensures
        readable(v),
    decreases v,
{
    match v {
        Value::Array(items) => {
            assert forall|i: int| 0 <= i < items.len() implies readable(#[trigger] items[i])
                && quiet(render(items[i]), Nesting::top()) by {
                lemma_writable_readable(items[i]);
                lemma_render_quiet(items[i], Nesting::top());
            }
        },
        Value::Document(entries) => {
            assert forall|i: int| 0 <= i < entries.len() implies bare_key(
                (#[trigger] entries[i]).0,
            ) && readable(entries[i].1) && quiet(render(entries[i].1), Nesting::top()) by {
                assert(plain_key(entries[i].0));
                lemma_writable_readable(entries[i].1);
                lemma_render_quiet(entries[i].1, Nesting::top());
            }
        },
        _ => {},
    }
}

/// Reading back what was written for a value gives the value: for every value in which
/// no document stores a key twice, no text holds a double quote and no key holds a
/// colon, a double quote, a bracket or a brace, or starts or ends with white space.
pub proof fn lemma_round_trip_plain(v: Value)
    requires
        v.well_formed(),
        writable(v),
    ensures
        parse(render(v)) == Some(v),
{
    lemma_writable_readable(v);
    lemma_round_trip(v);
}

/// Every text denotes a value of the kind that it is taken for.
pub proof fn lemma_parse_total(raw: Seq<char>)
    ensures
        parse(raw) is Some,
        KIND_ID <= infer(raw) <= KIND_DOCUMENT,
{
}

} // verus!
