//! The textual grammar of values: how a value is written, how the kind of a
//! text is inferred, and how a text is read back.
//!
//! Composite texts are split at their top-level commas: those that stand
//! outside every bracket, brace and pair of double quotes.

use vstd::prelude::*;
use crate::id::{format_uuid, parse_id, parse_uuid, render_id};
use crate::text::{
    chars_of, extend_chars, is_word, is_word_test, lemma_strip_length, parse_number,
    parse_number_chars, push_number, render_number, slice_chars, string_of, strip, strip_chars,
    trim, Edge,
};
use crate::value::{
    contents, found_content, lemma_array_content, upsert, DataType, Document, Value,
};

verus! {

/// The kind of an identifier.
pub const KIND_ID: u16 = 1;

/// The kind of a text.
pub const KIND_TEXT: u16 = 2;

/// The kind of a number.
pub const KIND_NUMBER: u16 = 3;

/// The kind of a boolean.
pub const KIND_BOOLEAN: u16 = 4;

/// The kind of an array.
pub const KIND_ARRAY: u16 = 5;

/// The kind of a document.
pub const KIND_DOCUMENT: u16 = 6;

/// The kind of a value.
pub open spec fn kind_of(v: Value) -> u16 {
    match v {
        Value::Id(_) => KIND_ID,
        Value::Text(_) => KIND_TEXT,
        Value::Number(_) => KIND_NUMBER,
        Value::Boolean(_) => KIND_BOOLEAN,
        Value::Array(_) => KIND_ARRAY,
        Value::Document(_) => KIND_DOCUMENT,
    }
}

/// The word for the boolean `b`.
pub open spec fn boolean_word(b: bool) -> Seq<char> {
    if b {
        seq!['t', 'r', 'u', 'e']
    } else {
        seq!['f', 'a', 'l', 's', 'e']
    }
}

/// The boolean that `s` denotes: `true` or `false`, in whatever case.
pub open spec fn parse_boolean(s: Seq<char>) -> Option<bool> {
    if is_word(s, boolean_word(true)) {
        Some(true)
    } else if is_word(s, boolean_word(false)) {
        Some(false)
    } else {
        None
    }
}

/// Whether `s` starts with `open` and ends with `close`, two distinct characters.
pub open spec fn enclosed(s: Seq<char>, open: char, close: char) -> bool {
    s.len() >= 2 && s.first() == open && s.last() == close
}

/// What stands between the first and the last character of `s`.
pub open spec fn inner(s: Seq<char>) -> Seq<char> {
    s.subrange(1, s.len() - 1)
}

/// Where a scan stands in the nesting of a text.
pub struct Nesting {
    /// How many brackets and braces are open.
    pub depth: nat,
    /// Whether a double quote is open.
    pub quoted: bool,
}

impl Nesting {
    /// Outside every bracket, brace and quote.
    pub open spec fn top() -> Nesting {
        Nesting { depth: 0, quoted: false }
    }

    /// Whether the scan is outside every bracket, brace and quote.
    pub open spec fn is_top(self) -> bool {
        self.depth == 0 && !self.quoted
    }

    /// The nesting after `c` is read. A double quote opens or closes a quote. Inside a
    /// quote nothing else counts. A closing bracket or brace with none open is passed over.
    pub open spec fn step(self, c: char) -> Nesting {
        if c == '"' {
            Nesting { depth: self.depth, quoted: !self.quoted }
        } else if self.quoted {
            self
        } else if c == '[' || c == '{' {
            Nesting { depth: self.depth + 1, quoted: false }
        } else if (c == ']' || c == '}') && self.depth > 0 {
            Nesting { depth: (self.depth - 1) as nat, quoted: false }
        } else {
            self
        }
    }
}

/// The position of the first top-level comma of `s` at or after `i`, for a scan that
/// reaches `i` in `state`; the length of `s` if there is none.
pub open spec fn separator_from(s: Seq<char>, i: int, state: Nesting) -> int
    decreases s.len() - i,
{
    if i < 0 || i >= s.len() {
        s.len() as int
    } else if s[i] == ',' && state.is_top() {
        i
    } else {
        separator_from(s, i + 1, state.step(s[i]))
    }
}

/// The position of the first top-level comma of `s`, or the length of `s` if it has none.
pub open spec fn first_separator(s: Seq<char>) -> int {
    separator_from(s, 0, Nesting::top())
}

/// The position of the first `c` in `s`, or the length of `s` if it holds none.
pub open spec fn position_of(s: Seq<char>, c: char) -> int
    decreases s.len(),
{
    if s.len() == 0 || s[0] == c {
        0
    } else {
        1 + position_of(s.drop_first(), c)
    }
}

/// The kind that the text `raw` is taken for. The first that fits, in this order: an
/// identifier, a number, a boolean, an array (in brackets), a document (in braces);
/// failing all, a text.
pub open spec fn infer(raw: Seq<char>) -> u16 {
    let s = trim(raw);
    if parse_id(s) is Some {
        KIND_ID
    } else if parse_number(s) is Some {
        KIND_NUMBER
    } else if parse_boolean(s) is Some {
        KIND_BOOLEAN
    } else if enclosed(s, '[', ']') {
        KIND_ARRAY
    } else if enclosed(s, '{', '}') {
        KIND_DOCUMENT
    } else {
        KIND_TEXT
    }
}

/// A sequence of one value, or of none.
pub open spec fn item(value: Option<Value>) -> Seq<Value> {
    match value {
        Some(v) => seq![v],
        None => Seq::empty(),
    }
}

/// `entries` with `value`, if there is one, stored under the trimmed `key`.
pub open spec fn store(
    entries: Seq<(Seq<char>, Value)>,
    key: Seq<char>,
    value: Option<Value>,
) -> Seq<(Seq<char>, Value)> {
    match value {
        Some(v) => upsert(entries, trim(key), v),
        None => entries,
    }
}

/// The value of kind `kind` that the text `raw` denotes, if it denotes one.
///
/// Any text denotes a text: itself, trimmed and without the double quotes at its ends.
/// An array is read from a text in brackets, a document from a text in braces.
pub open spec fn load_value(kind: u16, raw: Seq<char>) -> Option<Value>
    decreases raw.len(), 0nat,
    via load_value_decreases
{
    let s = trim(raw);
    if kind == KIND_ID {
        match parse_id(s) {
            Some(id) => Some(Value::Id(id)),
            None => None,
        }
    } else if kind == KIND_TEXT {
        Some(Value::Text(strip(s, Edge::Quote)))
    } else if kind == KIND_NUMBER {
        match parse_number(s) {
            Some(number) => Some(Value::Number(number)),
            None => None,
        }
    } else if kind == KIND_BOOLEAN {
        match parse_boolean(s) {
            Some(boolean) => Some(Value::Boolean(boolean)),
            None => None,
        }
    } else if kind == KIND_ARRAY {
        if enclosed(s, '[', ']') {
            Some(Value::Array(load_items(inner(s))))
        } else {
            None
        }
    } else if kind == KIND_DOCUMENT {
        if enclosed(s, '{', '}') {
            Some(Value::Document(load_entries(inner(s), Seq::empty())))
        } else {
            None
        }
    } else {
        None
    }
}

/// The value that the text `raw` denotes, of the kind that it is taken for.
pub open spec fn parse(raw: Seq<char>) -> Option<Value>
    decreases raw.len(), 1nat,
{
    load_value(infer(raw), raw)
}

/// The elements that the inside of an array text denotes: one for each piece between
/// top-level commas, and one for what follows the last comma unless nothing follows it.
pub open spec fn load_items(s: Seq<char>) -> Seq<Value>
    decreases s.len(), 2nat,
{
    if s.len() == 0 {
        Seq::empty()
    } else {
        let k = first_separator(s);
        if 0 <= k < s.len() {
            item(parse(s.take(k))) + load_items(s.skip(k + 1))
        } else {
            item(parse(s))
        }
    }
}

/// The entries that the inside of a document text adds to `entries`. An entry is a key,
/// up to the first colon, and a value text, up to the next top-level comma. What follows
/// the last comma is an entry only if its key and its value text are not empty.
pub open spec fn load_entries(s: Seq<char>, entries: Seq<(Seq<char>, Value)>) -> Seq<
    (Seq<char>, Value),
>
    decreases s.len(), 2nat,
{
    let colon = position_of(s, ':');
    if 0 <= colon < s.len() {
        let key = s.take(colon);
        let rest = s.skip(colon + 1);
        let k = first_separator(rest);
        if 0 <= k < rest.len() {
            load_entries(rest.skip(k + 1), store(entries, key, parse(rest.take(k))))
        } else if key.len() > 0 && rest.len() > 0 {
            store(entries, key, parse(rest))
        } else {
            entries
        }
    } else {
        entries
    }
}

#[via_fn]
proof fn load_value_decreases(kind: u16, raw: Seq<char>) {
    lemma_strip_length(raw, Edge::Space);
}

/// How a value is written.
///
/// An identifier in its hyphenated form; a text between double quotes; a number in
/// decimal; a boolean as `true` or `false`; an array in brackets, with a comma and a
/// space between the elements; a document in braces, each entry as its key, a colon, a
/// space, the value, a comma and a space.
pub open spec fn render(v: Value) -> Seq<char>
    decreases v,
{
    match v {
        Value::Id(id) => render_id(id),
        Value::Text(text) => seq!['"'] + text + seq!['"'],
        Value::Number(number) => render_number(number),
        Value::Boolean(boolean) => boolean_word(boolean),
        Value::Array(items) => seq!['['] + render_items(items) + seq![']'],
        Value::Document(entries) => seq!['{'] + render_entries(entries) + seq!['}'],
    }
}

/// The elements of an array as they are written, with a comma and a space between them.
pub open spec fn render_items(items: Seq<Value>) -> Seq<char>
    decreases items,
{
    if items.len() == 0 {
        Seq::empty()
    } else if items.len() == 1 {
        render(items[0])
    } else {
        render(items[0]) + seq![',', ' '] + render_items(items.drop_first())
    }
}

/// The entries of a document as they are written, each followed by a comma and a space.
pub open spec fn render_entries(entries: Seq<(Seq<char>, Value)>) -> Seq<char>
    decreases entries,
{
    if entries.len() == 0 {
        Seq::empty()
    } else {
        entries[0].0 + seq![':', ' '] + render(entries[0].1) + seq![',', ' '] + render_entries(
            entries.drop_first(),
        )
    }
}

/// Finds the first `c` of `s` at or after `from`; the length of `s` if there is none.
pub fn find_char(s: &Vec<char>, from: usize, c: char) -> (i: usize)
    requires
        from <= s.len(),
    ensures
        from <= i <= s.len(),
        i - from == position_of(s@.skip(from as int), c),
{
    let mut i: usize = from;
    while i < s.len() && s[i] != c
        invariant
            from <= i <= s.len(),
            position_of(s@.skip(from as int), c) == (i - from) + position_of(s@.skip(i as int), c),
        decreases s.len() - i,
    {
        assert(s@.skip(i as int).drop_first() == s@.skip(i + 1));
        i += 1;
    }
    i
}

/// Finds the first top-level comma of `s` at or after `from`, for a scan that starts
/// at `from`; the length of `s` if there is none.
pub fn find_separator(s: &Vec<char>, from: usize) -> (i: usize)
    requires
        from <= s.len(),
    ensures
        from <= i <= s.len(),
        i - from == first_separator(s@.skip(from as int)),
{
    let ghost rest = s@.skip(from as int);
    let mut depth: usize = 0;
    let mut quoted = false;
    let mut i: usize = from;
    while i < s.len()
        invariant
            from <= i <= s.len(),
            rest == s@.skip(from as int),
            depth <= i - from,
            separator_from(rest, i - from, Nesting { depth: depth as nat, quoted })
                == first_separator(rest),
        decreases s.len() - i,
    {
        let c = s[i];
        if c == ',' && depth == 0 && !quoted {
            return i;
        }
        if c == '"' {
            quoted = !quoted;
        } else if !quoted {
            if c == '[' || c == '{' {
                depth += 1;
            } else if (c == ']' || c == '}') && depth > 0 {
                depth -= 1;
            }
        }
        i += 1;
    }
    i
}

/// Infers the kind of the text `raw`.
pub fn infer_chars(raw: &Vec<char>) -> (kind: u16)
    ensures
        kind == infer(raw@),
{
    let s = strip_chars(raw, Edge::Space);
    let n = s.len();
    let as_text = string_of(&s);
    if parse_uuid(as_text.as_str()).is_some() {
        KIND_ID
    } else if parse_number_chars(&s).is_some() {
        KIND_NUMBER
    } else if parse_boolean_chars(&s).is_some() {
        KIND_BOOLEAN
    } else if n >= 2 && s[0] == '[' && s[n - 1] == ']' {
        KIND_ARRAY
    } else if n >= 2 && s[0] == '{' && s[n - 1] == '}' {
        KIND_DOCUMENT
    } else {
        KIND_TEXT
    }
}

/// Reads a boolean word.
pub fn parse_boolean_chars(s: &Vec<char>) -> (r: Option<bool>)
    ensures
        r == parse_boolean(s@),
{
    proof {
        reveal_strlit("true");
        reveal_strlit("false");
        assert("true"@ =~= boolean_word(true));
        assert("false"@ =~= boolean_word(false));
    }
    if is_word_test(s, 0, "true") {
        Some(true)
    } else if is_word_test(s, 0, "false") {
        Some(false)
    } else {
        None
    }
}

/// Reads the value of kind `kind` that the text `raw` denotes.
pub fn load_chars(kind: u16, raw: &Vec<char>) -> (r: Option<DataType>)
    ensures
        found_content(r) == load_value(kind, raw@),
        r matches Some(datum) ==> datum.well_formed(),
    decreases raw.len(), 0nat,
{
    let s = strip_chars(raw, Edge::Space);
    let n = s.len();
    if kind == KIND_ID {
        let as_text = string_of(&s);
        match parse_uuid(as_text.as_str()) {
            Some(id) => Some(DataType::Id(id)),
            None => None,
        }
    } else if kind == KIND_TEXT {
        let text = strip_chars(&s, Edge::Quote);
        Some(DataType::Text(string_of(&text)))
    } else if kind == KIND_NUMBER {
        match parse_number_chars(&s) {
            Some(number) => Some(DataType::Number(number)),
            None => None,
        }
    } else if kind == KIND_BOOLEAN {
        match parse_boolean_chars(&s) {
            Some(boolean) => Some(DataType::Boolean(boolean)),
            None => None,
        }
    } else if kind == KIND_ARRAY {
        if n >= 2 && s[0] == '[' && s[n - 1] == ']' {
            let body = slice_chars(&s, 1, n - 1);
            let items = load_items_chars(&body);
            proof {
                lemma_array_content(items);
            }
            Some(DataType::Array(items))
        } else {
            None
        }
    } else if kind == KIND_DOCUMENT {
        if n >= 2 && s[0] == '{' && s[n - 1] == '}' {
            let body = slice_chars(&s, 1, n - 1);
            let document = load_entries_chars(&body);
            Some(DataType::Document(document))
        } else {
            None
        }
    } else {
        None
    }
}

/// Reads the value that the text `raw` denotes, of the kind that it is taken for.
pub fn parse_chars(raw: &Vec<char>) -> (r: Option<DataType>)
    ensures
        found_content(r) == parse(raw@),
        r matches Some(datum) ==> datum.well_formed(),
    decreases raw.len(), 1nat,
{
    let kind = infer_chars(raw);
    load_chars(kind, raw)
}

/// Reads the elements of an array from what stands between its brackets.
pub fn load_items_chars(s: &Vec<char>) -> (items: Vec<DataType>)
    ensures
        contents(items@) == load_items(s@),
        forall|j: int| 0 <= j < items.len() ==> (#[trigger] items[j]).well_formed(),
    decreases s.len(), 2nat,
{
    let n = s.len();
    let mut items: Vec<DataType> = Vec::new();
    let mut start: usize = 0;
    assert(s@.skip(0) == s@);
    while start < n
        invariant
            start <= n == s.len(),
            contents(items@) + load_items(s@.skip(start as int)) == load_items(s@),
            forall|j: int| 0 <= j < items.len() ==> (#[trigger] items[j]).well_formed(),
        decreases n - start,
    {
        let ghost rest = s@.skip(start as int);
        let k = find_separator(s, start);
        let piece = slice_chars(s, start, k);
        let found = parse_chars(&piece);
        proof {
            assert(piece@ == rest.take(k - start));
            if k < n {
                assert(rest.skip(k - start + 1) == s@.skip(k + 1));
            }
        }
        match found {
            Some(datum) => {
                items.push(datum);
            },
            None => {},
        }
        start = if k < n {
            k + 1
        } else {
            n
        };
    }
    items
}

/// Reads the entries of a document from what stands between its braces.
pub fn load_entries_chars(s: &Vec<char>) -> (document: Document)
    ensures
        document@ == load_entries(s@, Seq::empty()),
        document.well_formed(),
    decreases s.len(), 2nat,
{
    let n = s.len();
    let mut document = Document::new();
    let mut start: usize = 0;
    assert(s@.skip(0) == s@);
    while start < n
        invariant
            start <= n == s.len(),
            load_entries(s@.skip(start as int), document@) == load_entries(s@, Seq::empty()),
            document.well_formed(),
        decreases n - start,
    {
        let ghost rest = s@.skip(start as int);
        let colon = find_char(s, start, ':');
        if colon >= n {
            start = n;
        } else {
            let k = find_separator(s, colon + 1);
            let key = slice_chars(s, start, colon);
            let piece = slice_chars(s, colon + 1, k);
            proof {
                assert(key@ == rest.take(colon - start));
                assert(rest.skip(colon - start + 1) == s@.skip(colon + 1));
                assert(piece@ == s@.skip(colon + 1).take(k - (colon + 1)));
                if k < n {
                    assert(s@.skip(colon + 1).skip(k - (colon + 1) + 1) == s@.skip(k + 1));
                }
            }
            if k < n || (key.len() > 0 && piece.len() > 0) {
                match parse_chars(&piece) {
                    Some(datum) => {
                        let name = strip_chars(&key, Edge::Space);
                        document.insert(string_of(&name), datum);
                    },
                    None => {},
                }
            }
            start = if k < n {
                k + 1
            } else {
                n
            };
        }
    }
    document
}

impl DataType {
    /// Infers the kind of the text `raw`: the first that fits among identifier,
    /// number, boolean, array and document, and text if none does.
    pub fn infer_type(raw: &str) -> (kind: u16)
        ensures
            kind == infer(raw@),
    {
        let chars = chars_of(raw);
        infer_chars(&chars)
    }

    /// Reads the value of kind `t` that the text `raw` denotes; `None` if `raw` denotes
    /// no value of that kind, or `t` is no kind.
    pub fn load(t: u16, raw: String) -> (r: Option<DataType>)
        ensures
            found_content(r) == load_value(t, raw@),
            r matches Some(datum) ==> datum.well_formed(),
    {
        let chars = chars_of(raw.as_str());
        load_chars(t, &chars)
    }

    /// Writes the value as text.
    pub fn to_string(&self) -> (s: String)
        ensures
            s@ == render(self@),
    {
        let mut out: Vec<char> = Vec::new();
        self.render_into(&mut out);
        string_of(&out)
    }

    /// Appends the value, as it is written, to `out`.
    pub fn render_into(&self, out: &mut Vec<char>)
        ensures
            final(out)@ == old(out)@ + render(self@),
        decreases self,
    {
        match self {
            DataType::Id(id) => {
                let text = format_uuid(*id);
                let chars = chars_of(text.as_str());
                extend_chars(out, &chars);
            },
            DataType::Text(text) => {
                out.push('"');
                let chars = chars_of(text.as_str());
                extend_chars(out, &chars);
                out.push('"');
            },
            DataType::Number(number) => {
                push_number(out, *number);
            },
            DataType::Boolean(boolean) => {
                if *boolean {
                    out.push('t');
                    out.push('r');
                    out.push('u');
                    out.push('e');
                } else {
                    out.push('f');
                    out.push('a');
                    out.push('l');
                    out.push('s');
                    out.push('e');
                }
            },
            DataType::Array(array) => {
                let ghost items = self@->Array_0;
                let ghost base = old(out)@.push('[');
                out.push('[');
                let n = array.len();
                if n > 0 {
                    array[0].render_into(out);
                    let mut i: usize = 1;
                    proof {
                        lemma_render_items_step(items, 0);
                    }
                    while i < n
                        invariant
                            1 <= i <= n == array.len() == items.len(),
                            *self == DataType::Array(*array),
                            items == self@->Array_0,
                            out@ + render_items_rest(items, i as int) == base + render_items(items),
                        decreases n - i,
                    {
                        out.push(',');
                        out.push(' ');
                        array[i].render_into(out);
                        proof {
                            lemma_render_items_step(items, i as int);
                        }
                        i += 1;
                    }
                }
                out.push(']');
            },
            DataType::Document(document) => {
                let ghost entries = document@;
                let ghost base = old(out)@.push('{');
                out.push('{');
                let pairs = document.entries();
                let n = pairs.len();
                let mut i: usize = 0;
                assert(entries.skip(0) == entries);
                while i < n
                    invariant
                        i <= n == pairs.len() == entries.len(),
                        *self == DataType::Document(*document),
                        entries == document@,
                        forall|j: int|
                            0 <= j < n ==> (#[trigger] pairs[j]).0@ == entries[j].0 && pairs[j].1@
                                == entries[j].1,
                        forall|j: int|
                            0 <= j < n ==> decreases_to!(*document => (#[trigger] pairs[j]).1),
                        out@ + render_entries(entries.skip(i as int)) == base + render_entries(
                            entries,
                        ),
                    decreases n - i,
                {
                    let key = chars_of(pairs[i].0.as_str());
                    extend_chars(out, &key);
                    out.push(':');
                    out.push(' ');
                    assert(decreases_to!(*self => self->Document_0));
                    pairs[i].1.render_into(out);
                    out.push(',');
                    out.push(' ');
                    proof {
                        let rest = entries.skip(i as int);
                        assert(rest.drop_first() == entries.skip(i + 1));
                    }
                    i += 1;
                }
                out.push('}');
            },
        }
    }
}

/// What is still to be written of an array once its first `i` elements are: nothing, or
/// a comma, a space and the other elements.
pub open spec fn render_items_rest(items: Seq<Value>, i: int) -> Seq<char> {
    if i < items.len() {
        seq![',', ' '] + render_items(items.skip(i))
    } else {
        Seq::empty()
    }
}

/// The elements from position `i` on are written as the element at `i` and what is
/// still to be written after it.
pub proof fn lemma_render_items_step(items: Seq<Value>, i: int)
    requires
        0 <= i < items.len(),
    ensures
        render_items(items.skip(i)) == render(items[i]) + render_items_rest(items, i + 1),
{
    let rest = items.skip(i);
    assert(rest.drop_first() == items.skip(i + 1));
}

} // verus!
