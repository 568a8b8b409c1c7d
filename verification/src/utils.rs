//! Splitting a command line into words.

use vstd::prelude::*;
use crate::text::{
    chars_of, is_space, leading, lemma_leading, slice_chars, string_of, texts, Edge,
};

verus! {

/// Where the word that a scan is in ends: the position of the first white space at or
/// after `i` that stands outside double quotes, or the length of `s` if there is none.
/// `quoted` says whether a quote is open at `i`.
pub open spec fn word_end(s: Seq<char>, i: int, quoted: bool) -> int
    decreases s.len() - i,
{
    if i < 0 || i >= s.len() {
        s.len() as int
    } else if is_space(s[i]) && !quoted {
        i
    } else {
        word_end(s, i + 1, quoted != (s[i] == '"'))
    }
}

/// The words of `s`: the runs of characters between white space, where white space
/// between double quotes belongs to the word. The quotes stay in the word.
pub open spec fn words(s: Seq<char>) -> Seq<Seq<char>>
    decreases s.len(),
    via words_decreases
{
    let start = leading(s, Edge::Space) as int;
    if start >= s.len() {
        Seq::empty()
    } else {
        let rest = s.skip(start);
        let end = word_end(rest, 0, false);
        seq![rest.take(end)] + words(rest.skip(end))
    }
}

#[via_fn]
proof fn words_decreases(s: Seq<char>) {
    let start = leading(s, Edge::Space) as int;
    if start < s.len() {
        let rest = s.skip(start);
        lemma_word_end_bounds(rest, 0, false);
        lemma_first_word_starts(s);
    }
}

/// The end of a word lies between where the scan stands and the end of the text.
pub proof fn lemma_word_end_bounds(s: Seq<char>, i: int, quoted: bool)
    requires
        0 <= i <= s.len(),
    ensures
        i <= word_end(s, i, quoted) <= s.len(),
    decreases s.len() - i,
{
    if i < s.len() && !(is_space(s[i]) && !quoted) {
        lemma_word_end_bounds(s, i + 1, quoted != (s[i] == '"'));
    }
}

/// What follows the leading white space of a text starts with a character that is no
/// white space, so the first word is not empty.
pub proof fn lemma_first_word_starts(s: Seq<char>)
    requires
        leading(s, Edge::Space) < s.len(),
    ensures
        !is_space(s[leading(s, Edge::Space) as int]),
        word_end(s.skip(leading(s, Edge::Space) as int), 0, false) >= 1,
    decreases s.len(),
{
    if is_space(s[0]) {
        let rest = s.drop_first();
        lemma_first_word_starts(rest);
        assert(s.skip(leading(s, Edge::Space) as int) == rest.skip(leading(rest, Edge::Space) as int));
    } else {
        let rest = s.skip(0);
        assert(rest == s);
        lemma_word_end_bounds(s, 1, s[0] == '"');
    }
}

/// Finds the end of the word that starts at `from`.
fn find_word_end(s: &Vec<char>, from: usize) -> (end: usize)
    requires
        from <= s.len(),
    ensures
        from <= end <= s.len(),
        end - from == word_end(s@.skip(from as int), 0, false),
{
    let ghost rest = s@.skip(from as int);
    let mut quoted = false;
    let mut i: usize = from;
    while i < s.len()
        invariant
            from <= i <= s.len(),
            rest == s@.skip(from as int),
            word_end(rest, i - from, quoted) == word_end(rest, 0, false),
        decreases s.len() - i,
    {
        let c = s[i];
        if Edge::Space.test(c) && !quoted {
            return i;
        }
        if c == '"' {
            quoted = !quoted;
        }
        i += 1;
    }
    i
}

/// Splits a command line into its words.
pub fn smart_split(line: String) -> (parts: Vec<String>)
    ensures
        texts(parts@) == words(line@),
{
    let s = chars_of(line.as_str());
    let n = s.len();
    let mut parts: Vec<String> = Vec::new();
    let mut at: usize = 0;
    let ghost mut done: Seq<Seq<char>> = Seq::empty();
    assert(s@.skip(0) == s@);
    loop
        invariant
            at <= n == s.len(),
            s@ == line@,
            parts.len() == done.len(),
            forall|j: int| 0 <= j < parts.len() ==> (#[trigger] parts[j])@ == done[j],
            done + words(s@.skip(at as int)) == words(s@),
        ensures
            texts(parts@) == words(line@),
        decreases n - at,
    {
        let ghost tail = s@.skip(at as int);
        let mut start: usize = at;
        while start < n && Edge::Space.test(s[start])
            invariant
                at <= start <= n == s.len(),
                tail == s@.skip(at as int),
                forall|j: int| 0 <= j < start - at ==> is_space(#[trigger] tail[j]),
            decreases n - start,
        {
            start += 1;
        }
        proof {
            lemma_leading(tail, Edge::Space, start - at);
            assert(tail.skip(start - at) == s@.skip(start as int));
        }
        if start >= n {
            break;
        }
        let end = find_word_end(&s, start);
        let word = slice_chars(&s, start, end);
        proof {
            lemma_first_word_starts(tail);
            assert(word@ == s@.skip(start as int).take(end - start));
            assert(s@.skip(start as int).skip(end - start) == s@.skip(end as int));
            done = done.push(word@);
        }
        parts.push(string_of(&word));
        at = end;
    }
    parts
}

} // verus!
