//! The client's side of the wire: the lines that a client sends, and what it
//! makes of the line that comes back.

use vstd::prelude::*;
use crate::grammar::{parse, parse_chars, render};
use crate::text::{chars_of, extend_chars, string_of};
use crate::value::{DataType, Value};

verus! {

/// The request that asks for the value under `key`.
pub open spec fn get_request(key: Seq<char>) -> Seq<char> {
    "get "@ + key + seq!['\n']
}

/// The request that stores `value` under `key`.
pub open spec fn set_request(key: Seq<char>, value: Value) -> Seq<char> {
    "set "@ + key + seq![' '] + render(value) + seq!['\n']
}

/// The request that asks for the keys.
pub open spec fn list_request() -> Seq<char> {
    "list"@ + seq!['\n']
}

/// Writes the request that asks for the value under `key`.
pub fn write_get(key: &str) -> (line: String)
    ensures
        line@ == get_request(key@),
{
    let mut out = chars_of("get ");
    let name = chars_of(key);
    extend_chars(&mut out, &name);
    out.push('\n');
    string_of(&out)
}

/// Writes the request that stores `value` under `key`.
pub fn write_set(key: &str, value: &DataType) -> (line: String)
    ensures
        line@ == set_request(key@, value@),
{
    let mut out = chars_of("set ");
    let name = chars_of(key);
    extend_chars(&mut out, &name);
    out.push(' ');
    value.render_into(&mut out);
    out.push('\n');
    string_of(&out)
}

/// Writes the request that asks for the keys.
pub fn write_list() -> (line: String)
    ensures
        line@ == list_request(),
{
    let mut out = chars_of("list");
    out.push('\n');
    string_of(&out)
}

/// What a client makes of the line that came back: the value that the line denotes.
/// An empty line means that nothing came back.
pub fn read_response(response: String) -> (r: Result<DataType, &'static str>)
    ensures
        match r {
            Ok(datum) => response@.len() > 0 && parse(response@) == Some(datum@),
            Err(message) => if response@.len() == 0 {
                message@ == "No data readed"@
            } else {
                parse(response@) is None && message@ == "Error parsing response"@
            },
        },
{
    let chars = chars_of(response.as_str());
    if chars.len() == 0 {
        return Err("No data readed");
    }
    match parse_chars(&chars) {
        Some(datum) => Ok(datum),
        None => Err("Error parsing response"),
    }
}

/// Whether the answer to a request that stores a value says that it was stored: the
/// answer is the boolean `true`.
pub fn stored(answer: &DataType) -> (r: Result<(), &'static str>)
    ensures
        r is Ok <==> answer@ == Value::Boolean(true),
        r matches Err(message) ==> message@ == ""@,
{
    match answer {
        DataType::Boolean(true) => Ok(()),
        _ => Err(""),
    }
}

} // verus!
