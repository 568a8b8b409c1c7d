//! Identifiers: 128-bit values and the texts that denote them.
//!
//! An identifier is written as thirty-two hexadecimal digits in five groups
//! separated by hyphens. It is read from that form, from the digits alone,
//! from the hyphenated form in braces, and from the hyphenated form behind
//! `urn:uuid:`. Reading and writing are done by the `uuid` crate; this module
//! says what they compute.

use vstd::prelude::*;
use crate::text::{digit_char, is_digit, is_word, same_letter};

verus! {

/// Whether `c` is a hexadecimal digit, in either case.
pub open spec fn is_hex(c: char) -> bool {
    is_digit(c) || 'a' <= c <= 'f' || 'A' <= c <= 'F'
}

/// The number that the hexadecimal digit `c` denotes.
pub open spec fn hex_value(c: char) -> int {
    if is_digit(c) {
        c as int - '0' as int
    } else if 'a' <= c <= 'f' {
        c as int - 'a' as int + 10
    } else {
        c as int - 'A' as int + 10
    }
}

/// Whether every character of `s` is a hexadecimal digit.
pub open spec fn all_hex(s: Seq<char>) -> bool {
    forall|i: int| 0 <= i < s.len() ==> is_hex(#[trigger] s[i])
}

/// The number that the hexadecimal digits of `s` denote, the first digit weighing most.
pub open spec fn hex_digits_value(s: Seq<char>) -> int
    decreases s.len(),
{
    if s.len() == 0 {
        0
    } else {
        hex_digits_value(s.drop_last()) * 16 + hex_value(s.last())
    }
}

/// The lower-case hexadecimal digit for `d`, which is below sixteen.
pub open spec fn hex_char(d: int) -> char {
    if d < 10 {
        digit_char(d)
    } else if d == 10 {
        'a'
    } else if d == 11 {
        'b'
    } else if d == 12 {
        'c'
    } else if d == 13 {
        'd'
    } else if d == 14 {
        'e'
    } else {
        'f'
    }
}

/// The last `width` hexadecimal digits of `n`, in lower case, the weightiest first.
pub open spec fn hex_digits(n: nat, width: nat) -> Seq<char>
    decreases width,
{
    if width == 0 {
        Seq::empty()
    } else {
        hex_digits(n / 16, (width - 1) as nat).push(hex_char(n as int % 16))
    }
}

/// The thirty-two digits of a hyphenated text of thirty-six characters.
pub open spec fn hyphenated_digits(s: Seq<char>) -> Seq<char> {
    s.subrange(0, 8) + s.subrange(9, 13) + s.subrange(14, 18) + s.subrange(19, 23) + s.subrange(
        24,
        36,
    )
}

/// Whether `s` is hyphenated: groups of 8, 4, 4, 4 and 12 hexadecimal digits with a
/// hyphen between each two.
pub open spec fn is_hyphenated(s: Seq<char>) -> bool {
    &&& s.len() == 36
    &&& s[8] == '-'
    &&& s[13] == '-'
    &&& s[18] == '-'
    &&& s[23] == '-'
    &&& all_hex(hyphenated_digits(s))
}

/// The prefix of the URN form, in lower case.
pub open spec fn urn_prefix() -> Seq<char> {
    seq!['u', 'r', 'n', ':', 'u', 'u', 'i', 'd', ':']
}

/// The thirty-two digits that `s` holds, if it has one of the four accepted forms.
pub open spec fn id_digits(s: Seq<char>) -> Option<Seq<char>> {
    if s.len() == 32 && all_hex(s) {
        Some(s)
    } else if s.len() == 36 && is_hyphenated(s) {
        Some(hyphenated_digits(s))
    } else if s.len() == 38 && s[0] == '{' && s[37] == '}' && is_hyphenated(s.subrange(1, 37)) {
        Some(hyphenated_digits(s.subrange(1, 37)))
    } else if s.len() == 45 && is_word(s.take(9), urn_prefix()) && is_hyphenated(s.skip(9)) {
        Some(hyphenated_digits(s.skip(9)))
    } else {
        None
    }
}

/// The identifier that `s` denotes, if it denotes one.
pub open spec fn parse_id(s: Seq<char>) -> Option<u128> {
    match id_digits(s) {
        Some(digits) => Some(hex_digits_value(digits) as u128),
        None => None,
    }
}

/// The text written for `id`: its thirty-two lower-case digits, hyphenated.
pub open spec fn render_id(id: u128) -> Seq<char> {
    let digits = hex_digits(id as nat, 32);
    digits.subrange(0, 8) + seq!['-'] + digits.subrange(8, 12) + seq!['-'] + digits.subrange(
        12,
        16,
    ) + seq!['-'] + digits.subrange(16, 20) + seq!['-'] + digits.subrange(20, 32)
}

/// Reads an identifier with `uuid::Uuid::parse_str`, and hands it out as the
/// 128-bit number whose big-endian bytes are the identifier's bytes.
///
/// The parser takes a text of 32 bytes as bare digits, one of 36 as the
/// hyphenated form, one of 38 as that form in braces, one of 45 as that form
/// behind `urn:uuid:` in either case, and nothing else. Every byte that it accepts
/// is ASCII, so the bytes of an accepted text are its characters.
#[verifier::external_body]
pub(crate) fn parse_uuid(s: &str) -> (id: Option<u128>)
    ensures
        id == parse_id(s@),
{
    match uuid::Uuid::parse_str(s) {
        Ok(uuid) => Some(uuid.as_u128()),
        Err(_) => None,
    }
}

/// Writes the identifier whose big-endian bytes are those of `id`, as the `uuid`
/// crate displays it: lower-case digits, hyphenated.
#[verifier::external_body]
pub(crate) fn format_uuid(id: u128) -> (s: String)
    ensures
        s@ == render_id(id),
{
    uuid::Uuid::from_u128(id).to_string()
}

/// Sixteen to the power `n`.
pub open spec fn pow16(n: nat) -> nat
    decreases n,
{
    if n == 0 {
        1
    } else {
        16 * pow16((n - 1) as nat)
    }
}

/// The digits written for a number are as many as asked for, all hexadecimal, and
/// denote the number if it is below sixteen to the power of their count.
pub proof fn lemma_hex_digits(n: nat, width: nat)
    ensures
        hex_digits(n, width).len() == width,
        all_hex(hex_digits(n, width)),
        n < pow16(width) ==> hex_digits_value(hex_digits(n, width)) == n,
    decreases width,
{
    if width > 0 {
        lemma_hex_digits(n / 16, (width - 1) as nat);
        let s = hex_digits(n, width);
        assert(s.drop_last() == hex_digits(n / 16, (width - 1) as nat));
    }
}

/// The text written for an identifier is hyphenated and holds the identifier's digits.
pub proof fn lemma_render_id_shape(id: u128)
    ensures
        render_id(id).len() == 36,
        is_hyphenated(render_id(id)),
        hyphenated_digits(render_id(id)) == hex_digits(id as nat, 32),
        is_hex(render_id(id)[0]),
        is_hex(render_id(id)[35]),
{
    lemma_hex_digits(id as nat, 32);
}

/// Reading back the text written for an identifier gives the identifier.
pub proof fn lemma_id_round_trip(id: u128)
    ensures
        parse_id(render_id(id)) == Some(id),
{
    lemma_render_id_shape(id);
    lemma_hex_digits(id as nat, 32);
    assert(pow16(32) == 0x1_0000_0000_0000_0000_0000_0000_0000_0000) by {
        reveal_with_fuel(pow16, 33);
    }
}

/// Whether `c` can stand in a text that denotes an identifier.
pub open spec fn is_id_char(c: char) -> bool {
    ||| is_hex(c)
    ||| c == '-'
    ||| c == '{'
    ||| c == '}'
    ||| c == ':'
    ||| same_letter(c, 'u')
    ||| same_letter(c, 'r')
    ||| same_letter(c, 'n')
    ||| same_letter(c, 'i')
}

/// A text that denotes an identifier has at least thirty-two characters, all of them
/// digits, hyphens, braces or letters of the URN prefix.
pub proof fn lemma_id_text(s: Seq<char>)
    requires
        parse_id(s) is Some,
    ensures
        s.len() >= 32,
        forall|i: int| 0 <= i < s.len() ==> is_id_char(#[trigger] s[i]),
{
    assert forall|i: int| 0 <= i < s.len() implies is_id_char(#[trigger] s[i]) by {
        if s.len() == 36 {
            lemma_hyphenated_chars(s, i);
        } else if s.len() == 38 && 1 <= i < 37 {
            lemma_hyphenated_chars(s.subrange(1, 37), i - 1);
        } else if s.len() == 45 && i >= 9 {
            lemma_hyphenated_chars(s.skip(9), i - 9);
        }
    }
}

/// Each character of a hyphenated text is a hexadecimal digit or a hyphen.
pub proof fn lemma_hyphenated_chars(s: Seq<char>, i: int)
    requires
        is_hyphenated(s),
        0 <= i < 36,
    ensures
        is_hex(s[i]) || s[i] == '-',
{
    let digits = hyphenated_digits(s);
    if i < 8 {
        assert(digits[i] == s[i]);
    } else if 9 <= i < 13 {
        assert(digits[i - 1] == s[i]);
    } else if 14 <= i < 18 {
        assert(digits[i - 2] == s[i]);
    } else if 19 <= i < 23 {
        assert(digits[i - 3] == s[i]);
    } else if 24 <= i {
        assert(digits[i - 4] == s[i]);
    }
}

} // verus!
