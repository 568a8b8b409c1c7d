//! Character-level building blocks of the grammar: conversions between
//! strings and character vectors, edge stripping, case-insensitive words
//! and decimal numbers.

use vstd::prelude::*;

verus! {

/// Appends one character to `s` through `String::push`, which puts the
/// character at the end and leaves the rest as it was.
#[verifier::external_body]
pub(crate) fn push_char(s: &mut String, c: char)
    ensures
        final(s)@ == old(s)@.push(c),
{
    s.push(c);
}

/// The characters of `s`, in order.
pub fn chars_of(s: &str) -> (v: Vec<char>)
    ensures
        v@ == s@,
{
    let mut v: Vec<char> = Vec::new();
    for c in it: s.chars()
        invariant
            v@ == s@.take(it.index() as int),
            it.seq() == s@,
    {
        v.push(c);
    }
    v
}

/// The string made of the characters of `v`, in order.
pub fn string_of(v: &Vec<char>) -> (s: String)
    ensures
        s@ == v@,
{
    let mut s = String::new();
    let mut i: usize = 0;
    while i < v.len()
        invariant
            i <= v.len(),
            s@ == v@.take(i as int),
        decreases v.len() - i,
    {
        push_char(&mut s, v[i]);
        i += 1;
    }
    s
}

/// Whether two texts hold the same characters.
pub fn same_text(a: &str, b: &str) -> (same: bool)
    ensures
        same == (a@ == b@),
{
    let x = chars_of(a);
    let y = chars_of(b);
    if x.len() != y.len() {
        return false;
    }
    let mut i: usize = 0;
    while i < x.len()
        invariant
            i <= x.len() == y.len(),
            x@ == a@,
            y@ == b@,
            forall|j: int| 0 <= j < i ==> x@[j] == y@[j],
        decreases x.len() - i,
    {
        if x[i] != y[i] {
            return false;
        }
        i += 1;
    }
    assert(x@ =~= y@);
    true
}

/// The texts of a sequence of strings, in order.
pub open spec fn texts(strings: Seq<String>) -> Seq<Seq<char>> {
    Seq::new(strings.len(), |i: int| strings[i]@)
}

/// Appends the characters of `tail` to `out`.
pub fn extend_chars(out: &mut Vec<char>, tail: &Vec<char>)
    ensures
        final(out)@ == old(out)@ + tail@,
{
    let mut i: usize = 0;
    while i < tail.len()
        invariant
            i <= tail.len(),
            out@ == old(out)@ + tail@.take(i as int),
        decreases tail.len() - i,
    {
        out.push(tail[i]);
        i += 1;
    }
}

/// The characters of `v` from position `lo` up to, not including, `hi`.
pub fn slice_chars(v: &Vec<char>, lo: usize, hi: usize) -> (part: Vec<char>)
    requires
        lo <= hi <= v.len(),
    ensures
        part@ == v@.subrange(lo as int, hi as int),
{
    let mut part: Vec<char> = Vec::new();
    let mut i: usize = lo;
    while i < hi
        invariant
            lo <= i <= hi <= v.len(),
            part@ == v@.subrange(lo as int, i as int),
        decreases hi - i,
    {
        part.push(v[i]);
        i += 1;
    }
    part
}

/// White space as Unicode defines it (the `White_Space` property).
pub open spec fn is_space(c: char) -> bool {
    let n = c as u32;
    ||| 0x09 <= n <= 0x0d
    ||| n == 0x20
    ||| n == 0x85
    ||| n == 0xa0
    ||| n == 0x1680
    ||| 0x2000 <= n <= 0x200a
    ||| n == 0x2028
    ||| n == 0x2029
    ||| n == 0x202f
    ||| n == 0x205f
    ||| n == 0x3000
}

/// The class of characters that a strip removes from both ends of a text.
#[derive(Clone, Copy, Debug)]
pub enum Edge {
    /// White space.
    Space,
    /// The double quote.
    Quote,
}

impl Edge {
    /// Whether `c` belongs to the class.
    pub open spec fn holds(self, c: char) -> bool {
        match self {
            Edge::Space => is_space(c),
            Edge::Quote => c == '"',
        }
    }

    /// Tests whether `c` belongs to the class.
    pub fn test(self, c: char) -> (b: bool)
        ensures
            b == self.holds(c),
    {
        match self {
            Edge::Space => {
                let n: u32 = c as u32;
                (0x09 <= n && n <= 0x0d) || n == 0x20 || n == 0x85 || n == 0xa0 || n == 0x1680 || (
                0x2000 <= n && n <= 0x200a) || n == 0x2028 || n == 0x2029 || n == 0x202f || n
                    == 0x205f || n == 0x3000
            },
            Edge::Quote => c == '"',
        }
    }
}

/// How many characters at the start of `s` belong to `edge`.
pub open spec fn leading(s: Seq<char>, edge: Edge) -> nat
    decreases s.len(),
{
    if s.len() > 0 && edge.holds(s[0]) {
        1 + leading(s.drop_first(), edge)
    } else {
        0
    }
}

/// How many characters at the end of `s` belong to `edge`.
pub open spec fn trailing(s: Seq<char>, edge: Edge) -> nat
    decreases s.len(),
{
    if s.len() > 0 && edge.holds(s.last()) {
        1 + trailing(s.drop_last(), edge)
    } else {
        0
    }
}

/// `s` without the characters of `edge` at its start and, of what is left, at its end.
pub open spec fn strip(s: Seq<char>, edge: Edge) -> Seq<char> {
    let rest = s.skip(leading(s, edge) as int);
    rest.take(rest.len() - trailing(rest, edge))
}

/// `s` without white space at either end.
pub open spec fn trim(s: Seq<char>) -> Seq<char> {
    strip(s, Edge::Space)
}

/// A run of `n` edge characters at the start of `s` that cannot be extended is the leading run.
pub proof fn lemma_leading(s: Seq<char>, edge: Edge, n: int)
    requires
        0 <= n <= s.len(),
        forall|j: int| 0 <= j < n ==> edge.holds(#[trigger] s[j]),
        n == s.len() || !edge.holds(s[n]),
    ensures
        leading(s, edge) == n,
    decreases s.len(),
{
    if n > 0 {
        let rest = s.drop_first();
        lemma_leading(rest, edge, n - 1);
    }
}

/// A run of `n` edge characters at the end of `s` that cannot be extended is the trailing run.
pub proof fn lemma_trailing(s: Seq<char>, edge: Edge, n: int)
    requires
        0 <= n <= s.len(),
        forall|j: int| s.len() - n <= j < s.len() ==> edge.holds(#[trigger] s[j]),
        n == s.len() || !edge.holds(s[s.len() - n - 1]),
    ensures
        trailing(s, edge) == n,
    decreases s.len(),
{
    if n > 0 {
        let rest = s.drop_last();
        lemma_trailing(rest, edge, n - 1);
    }
}

/// A strip takes characters away and adds none.
pub proof fn lemma_strip_length(s: Seq<char>, edge: Edge)
    ensures
        leading(s, edge) <= s.len(),
        trailing(s.skip(leading(s, edge) as int), edge) <= s.len() - leading(s, edge),
        strip(s, edge).len() <= s.len(),
{
    lemma_leading_bound(s, edge);
    lemma_trailing_bound(s.skip(leading(s, edge) as int), edge);
}

/// The leading run is no longer than the text.
pub proof fn lemma_leading_bound(s: Seq<char>, edge: Edge)
    ensures
        leading(s, edge) <= s.len(),
    decreases s.len(),
{
    if s.len() > 0 && edge.holds(s[0]) {
        lemma_leading_bound(s.drop_first(), edge);
    }
}

/// The trailing run is no longer than the text.
pub proof fn lemma_trailing_bound(s: Seq<char>, edge: Edge)
    ensures
        trailing(s, edge) <= s.len(),
    decreases s.len(),
{
    if s.len() > 0 && edge.holds(s.last()) {
        lemma_trailing_bound(s.drop_last(), edge);
    }
}

/// A text whose first and last characters are outside `edge` is its own strip.
pub proof fn lemma_strip_nothing(s: Seq<char>, edge: Edge)
    requires
        s.len() == 0 || (!edge.holds(s.first()) && !edge.holds(s.last())),
    ensures
        strip(s, edge) == s,
{
    lemma_leading(s, edge, 0);
    lemma_trailing(s, edge, 0);
}

/// Copies `v` without the characters of `edge` at its ends.
pub fn strip_chars(v: &Vec<char>, edge: Edge) -> (out: Vec<char>)
    ensures
        out@ == strip(v@, edge),
        out.len() <= v.len(),
{
    let mut lo: usize = 0;
    while lo < v.len() && edge.test(v[lo])
        invariant
            lo <= v.len(),
            forall|j: int| 0 <= j < lo ==> edge.holds(#[trigger] v@[j]),
        decreases v.len() - lo,
    {
        lo += 1;
    }
    let mut hi: usize = v.len();
    while hi > lo && edge.test(v[hi - 1])
        invariant
            lo <= hi <= v.len(),
            forall|j: int| hi <= j < v.len() ==> edge.holds(#[trigger] v@[j]),
        decreases hi,
    {
        hi -= 1;
    }
    proof {
        lemma_leading(v@, edge, lo as int);
        let rest = v@.skip(lo as int);
        lemma_trailing(rest, edge, v.len() - hi);
    }
    slice_chars(v, lo, hi)
}

/// Whether `c` is the lower-case letter `lower` or its upper-case form; for a
/// character that is no lower-case letter, whether `c` is that character.
pub open spec fn same_letter(c: char, lower: char) -> bool {
    c == lower || ('a' <= lower <= 'z' && c as int == lower as int - 32)
}

/// Whether `s` is `word`, letter for letter, whatever the case of the letters of `s`.
/// `word` is written in lower case.
pub open spec fn is_word(s: Seq<char>, word: Seq<char>) -> bool {
    s.len() == word.len() && forall|i: int| 0 <= i < s.len() ==> same_letter(s[i], #[trigger] word[i])
}

/// Tests [`same_letter`].
pub fn same_letter_test(c: char, lower: char) -> (b: bool)
    ensures
        b == same_letter(c, lower),
{
    c == lower || ('a' <= lower && lower <= 'z' && c as u32 + 32 == lower as u32)
}

/// Tests whether the characters of `v` from `lo` on spell `word`, whatever their case.
pub fn is_word_test(v: &Vec<char>, lo: usize, word: &str) -> (b: bool)
    requires
        lo <= v.len(),
    ensures
        b == is_word(v@.skip(lo as int), word@),
{
    let letters = chars_of(word);
    if v.len() - lo != letters.len() {
        return false;
    }
    let mut i: usize = 0;
    while i < letters.len()
        invariant
            i <= letters.len(),
            lo + letters.len() == v.len(),
            letters@ == word@,
            forall|j: int| 0 <= j < i ==> same_letter(v@.skip(lo as int)[j], #[trigger] letters@[j]),
        decreases letters.len() - i,
    {
        if !same_letter_test(v[lo + i], letters[i]) {
            return false;
        }
        i += 1;
    }
    true
}

/// Whether `c` is a decimal digit.
pub open spec fn is_digit(c: char) -> bool {
    '0' <= c <= '9'
}

/// The number that the decimal digits of `s` denote; zero for the empty text.
pub open spec fn digits_value(s: Seq<char>) -> int
    decreases s.len(),
{
    if s.len() == 0 {
        0
    } else {
        digits_value(s.drop_last()) * 10 + (s.last() as int - '0' as int)
    }
}

/// Whether every character of `s` is a decimal digit.
pub open spec fn all_digits(s: Seq<char>) -> bool {
    forall|i: int| 0 <= i < s.len() ==> is_digit(#[trigger] s[i])
}

/// The digits of a signed decimal numeral: what follows its sign, if it has one.
pub open spec fn numeral_digits(s: Seq<char>) -> Seq<char> {
    if s.len() > 0 && (s[0] == '-' || s[0] == '+') {
        s.drop_first()
    } else {
        s
    }
}

/// The number that `s` denotes as a signed decimal numeral: an optional sign,
/// then one digit or more, and a value that a 32-bit signed integer holds.
pub open spec fn parse_number(s: Seq<char>) -> Option<i32> {
    let digits = numeral_digits(s);
    let value = if s.len() > 0 && s[0] == '-' {
        -digits_value(digits)
    } else {
        digits_value(digits)
    };
    if digits.len() > 0 && all_digits(digits) && i32::MIN <= value <= i32::MAX {
        Some(value as i32)
    } else {
        None
    }
}

/// The decimal digit for `d`, which is below ten.
pub open spec fn digit_char(d: int) -> char {
    if d == 0 {
        '0'
    } else if d == 1 {
        '1'
    } else if d == 2 {
        '2'
    } else if d == 3 {
        '3'
    } else if d == 4 {
        '4'
    } else if d == 5 {
        '5'
    } else if d == 6 {
        '6'
    } else if d == 7 {
        '7'
    } else if d == 8 {
        '8'
    } else {
        '9'
    }
}

/// The decimal digits of `n`, without leading zeros.
pub open spec fn render_natural(n: nat) -> Seq<char>
    decreases n,
{
    if n < 10 {
        seq![digit_char(n as int)]
    } else {
        render_natural(n / 10).push(digit_char(n as int % 10))
    }
}

/// The decimal numeral of `n`: a minus sign if it is negative, then its digits.
pub open spec fn render_number(n: i32) -> Seq<char> {
    if n < 0 {
        seq!['-'] + render_natural((-n) as nat)
    } else {
        render_natural(n as nat)
    }
}

/// The value of a longer numeral is no less than that of its beginning.
pub proof fn lemma_digits_value_grows(s: Seq<char>, i: int)
    requires
        all_digits(s),
        0 <= i <= s.len(),
    ensures
        0 <= digits_value(s.take(i)) <= digits_value(s),
    decreases s.len() - i,
{
    if i == 0 {
        lemma_digits_value_nonnegative(s);
    } else if i == s.len() {
        assert(s.take(i) == s);
        lemma_digits_value_nonnegative(s);
    } else {
        lemma_digits_value_grows(s, i + 1);
        let longer = s.take(i + 1);
        assert(longer.drop_last() == s.take(i));
        lemma_digits_value_nonnegative(s.take(i));
    }
}

/// Digits denote a number that is not negative.
pub proof fn lemma_digits_value_nonnegative(s: Seq<char>)
    requires
        all_digits(s),
    ensures
        0 <= digits_value(s),
    decreases s.len(),
{
    if s.len() > 0 {
        lemma_digits_value_nonnegative(s.drop_last());
    }
}

/// What is written for `n` is made of digits, at least one, and denotes `n`.
pub proof fn lemma_render_natural(n: nat)
    ensures
        render_natural(n).len() >= 1,
        all_digits(render_natural(n)),
        digits_value(render_natural(n)) == n,
        n <= u32::MAX ==> render_natural(n).len() <= 10,
    decreases n,
{
    if n < 10 {
        let s = render_natural(n);
        assert(digits_value(s.drop_last()) == 0);
    } else {
        lemma_render_natural(n / 10);
        let s = render_natural(n);
        assert(s.drop_last() == render_natural(n / 10));
        if n <= u32::MAX {
            lemma_render_natural_short(n);
        }
    }
}

/// A number that fits in 32 bits is written with at most ten digits.
proof fn lemma_render_natural_short(n: nat)
    requires
        n <= u32::MAX,
    ensures
        render_natural(n).len() <= 10,
{
    reveal_with_fuel(render_natural, 11);
}

/// Reading back the numeral written for `n` gives `n`.
pub proof fn lemma_number_round_trip(n: i32)
    ensures
        parse_number(render_number(n)) == Some(n),
        1 <= render_number(n).len() <= 11,
        render_number(n)[0] == '-' || is_digit(render_number(n)[0]),
        is_digit(render_number(n).last()),
{
    let s = render_number(n);
    if n < 0 {
        let m = (-n) as nat;
        lemma_render_natural(m);
        assert(s.drop_first() == render_natural(m));
    } else {
        lemma_render_natural(n as nat);
    }
}

/// Reads a signed decimal numeral.
pub fn parse_number_chars(v: &Vec<char>) -> (r: Option<i32>)
    ensures
        r == parse_number(v@),
{
    let n = v.len();
    if n == 0 {
        return None;
    }
    let negative = v[0] == '-';
    let start: usize = if negative || v[0] == '+' {
        1
    } else {
        0
    };
    if start == n {
        return None;
    }
    let ghost digits = numeral_digits(v@);
    let mut value: i64 = 0;
    let mut in_range = true;
    let mut i: usize = start;
    while i < n
        invariant
            start <= i <= n == v.len(),
            digits == v@.skip(start as int),
            digits == numeral_digits(v@),
            forall|j: int| 0 <= j < i - start ==> is_digit(#[trigger] digits[j]),
            in_range ==> value == digits_value(digits.take(i - start)),
            !in_range ==> digits_value(digits.take(i - start)) > 0x8000_0000,
            0 <= value <= 0x8000_0000,
        decreases n - i,
    {
        let c = v[i];
        if !('0' <= c && c <= '9') {
            assert(!is_digit(digits[i - start]));
            return None;
        }
        proof {
            let longer = digits.take(i - start + 1);
            assert(longer.drop_last() == digits.take(i - start));
        }
        if in_range {
            let next: i64 = value * 10 + (c as u32 - '0' as u32) as i64;
            if next > 0x8000_0000 {
                in_range = false;
            } else {
                value = next;
            }
        }
        i += 1;
    }
    assert(digits.take(n - start) == digits);
    if !in_range {
        return None;
    }
    if negative {
        Some((-value) as i32)
    } else if value > 0x7fff_ffff {
        None
    } else {
        Some(value as i32)
    }
}

/// Appends the decimal digits of `n` to `out`.
pub fn push_natural(out: &mut Vec<char>, n: u32)
    ensures
        final(out)@ == old(out)@ + render_natural(n as nat),
    decreases n,
{
    if n >= 10 {
        push_natural(out, n / 10);
    }
    let d: u32 = n % 10;
    let c: char = digit_of(d);
    out.push(c);
}

/// The character of the decimal digit `d`.
pub fn digit_of(d: u32) -> (c: char)
    requires
        d < 10,
    ensures
        c == digit_char(d as int),
{
    if d == 0 {
        '0'
    } else if d == 1 {
        '1'
    } else if d == 2 {
        '2'
    } else if d == 3 {
        '3'
    } else if d == 4 {
        '4'
    } else if d == 5 {
        '5'
    } else if d == 6 {
        '6'
    } else if d == 7 {
        '7'
    } else if d == 8 {
        '8'
    } else {
        '9'
    }
}

/// Appends the decimal numeral of `n` to `out`.
pub fn push_number(out: &mut Vec<char>, n: i32)
    ensures
        final(out)@ == old(out)@ + render_number(n),
{
    if n < 0 {
        out.push('-');
        let m: u32 = if n == i32::MIN {
            0x8000_0000
        } else {
            (-n) as u32
        };
        push_natural(out, m);
    } else {
        push_natural(out, n as u32);
    }
}

} // verus!
