//! Reading and writing a value by a single path segment: an index into an
//! array, a key into a document.

use vstd::prelude::*;
use crate::error::PathError;
use crate::text::{all_digits, chars_of, digits_value, is_digit, lemma_digits_value_grows};
use crate::value::{contents, lemma_array_content, upsert, DataType, Value};

verus! {

/// The digits of an index: what follows its plus sign, if it has one.
pub open spec fn index_digits(s: Seq<char>) -> Seq<char> {
    if s.len() > 0 && s[0] == '+' {
        s.drop_first()
    } else {
        s
    }
}

/// The index that `s` denotes: an optional plus sign, then one decimal digit or more,
/// and a value that the machine can address.
pub open spec fn parse_index(s: Seq<char>) -> Option<usize> {
    let digits = index_digits(s);
    if digits.len() > 0 && all_digits(digits) && digits_value(digits) <= usize::MAX {
        Some(digits_value(digits) as usize)
    } else {
        None
    }
}

/// `items` with `value` at `index`, and with empty texts in the places between the
/// old end and `index`, if there are any.
pub open spec fn grown(items: Seq<Value>, index: int, value: Value) -> Seq<Value> {
    Seq::new(
        if index < items.len() {
            items.len()
        } else {
            (index + 1) as nat
        },
        |i: int|
            if i == index {
                value
            } else if i < items.len() {
                items[i]
            } else {
                Value::Text(Seq::empty())
            },
    )
}

/// What reading `root` at position `n` gives: the element at `n` of an array, and
/// any other root itself.
pub open spec fn get_value(root: Value, n: int) -> Value {
    match root {
        Value::Array(items) => items[n],
        _ => root,
    }
}

/// What writing `value` into `root` at `index` gives: an array grown as far as the index
/// asks and holding the value there, or a document with the value stored under the index
/// as its key.
pub open spec fn set_value(root: Value, index: Seq<char>, value: Value) -> Result<
    Value,
    PathError,
> {
    match root {
        Value::Array(items) => match parse_index(index) {
            Some(i) => Ok(Value::Array(grown(items, i as int, value))),
            None => Err(PathError::InvalidIndex),
        },
        Value::Document(entries) => Ok(Value::Document(upsert(entries, index, value))),
        _ => Err(PathError::NotSupported),
    }
}

/// Reads an index.
pub fn parse_index_chars(v: &Vec<char>) -> (r: Option<usize>)
    ensures
        r == parse_index(v@),
{
    let n = v.len();
    if n == 0 {
        return None;
    }
    let start: usize = if v[0] == '+' {
        1
    } else {
        0
    };
    if start == n {
        return None;
    }
    let ghost digits = index_digits(v@);
    let mut value: usize = 0;
    let mut i: usize = start;
    while i < n
        invariant
            start <= i <= n == v.len(),
            digits == v@.skip(start as int),
            digits == index_digits(v@),
            forall|j: int| 0 <= j < i - start ==> is_digit(#[trigger] digits[j]),
            value == digits_value(digits.take(i - start)),
        decreases n - i,
    {
        let c = v[i];
        if !('0' <= c && c <= '9') {
            assert(!is_digit(digits[i - start]));
            return None;
        }
        let d: usize = (c as u32 - '0' as u32) as usize;
        proof {
            let longer = digits.take(i - start + 1);
            assert(longer.drop_last() == digits.take(i - start));
        }
        if value > (usize::MAX - d) / 10 {
            proof {
                if all_digits(digits) {
                    lemma_digits_value_grows(digits, i - start + 1);
                }
            }
            return None;
        }
        value = value * 10 + d;
        i += 1;
    }
    assert(digits.take(n - start) == digits);
    Some(value)
}

impl DataType {
    /// Reads the value at position `n`: a copy of the element at `n` if the value is an
    /// array, a copy of the value itself if it is anything else.
    pub fn get(&self, n: usize) -> (r: DataType)
        requires
            self@ matches Value::Array(items) ==> n < items.len(),
        ensures
            r@ == get_value(self@, n as int),
    {
        match self {
            DataType::Array(array) => array[n].clone(),
            _ => self.clone(),
        }
    }

    /// Writes `dt` at `index` and hands back a copy of the whole value.
    ///
    /// In an array, `index` is a position: the array grows, by empty texts, as far as
    /// the position asks. In a document, `index` is a key: `dt` takes the place of what
    /// the key held, or comes last. Anything else is left as it is.
    pub fn set(&mut self, index: &str, dt: DataType) -> (r: Result<DataType, PathError>)
        requires
            old(self).well_formed(),
            dt.well_formed(),
        ensures
            final(self).well_formed(),
            match set_value(old(self)@, index@, dt@) {
                Ok(after) => final(self)@ == after && r is Ok && r->Ok_0@ == after,
                Err(e) => final(self)@ == old(self)@ && r == Err::<DataType, PathError>(e),
            },
    {
        match self {
            DataType::Array(array) => {
                let digits = chars_of(index);
                match parse_index_chars(&digits) {
                    Some(position) => {
                        let ghost before = array@;
                        proof {
                            lemma_array_content(*array);
                        }
                        while array.len() <= position
                            invariant
                                before.len() <= array.len(),
                                array.len() == before.len() || array.len() <= position + 1,
                                forall|j: int| 0 <= j < before.len() ==> array@[j] == before[j],
                                forall|j: int|
                                    before.len() <= j < array.len() ==> (#[trigger] array@[j])@
                                        == Value::Text(Seq::empty()),
                            decreases position + 1 - array.len(),
                        {
                            array.push(DataType::Text(String::new()));
                        }
                        array.set(position, dt);
                        proof {
                            lemma_array_content(*array);
                            let after = grown(contents(before), position as int, dt@);
                            assert(contents(array@) =~= after);
                            assert forall|j: int| 0 <= j < after.len() implies (
                            #[trigger] after[j]).well_formed() by {
                            }
                        }
                    },
                    None => {
                        return Err(PathError::InvalidIndex);
                    },
                }
            },
            DataType::Document(document) => {
                document.insert(index.to_owned(), dt);
            },
            _ => {
                return Err(PathError::NotSupported);
            },
        }
        Ok(self.clone())
    }
}

} // verus!
