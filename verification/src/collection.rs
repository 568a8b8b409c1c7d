//! Collections: a named root value and the commands that read and write it.
//!
//! A command line is split into words. The first word is the action: `get` with
//! a key, `set` with a key and a value text, `list` with nothing.

use vstd::prelude::*;
use crate::error::{CommandError, Error, LookupError};
use crate::grammar::{parse, parse_chars};
use crate::path::{parse_index, parse_index_chars, set_value};
use crate::round_trip::lemma_parse_total;
use crate::text::{chars_of, extend_chars, same_text, string_of, texts};
use crate::utils::{smart_split, words};
use crate::value::{
    contents, found_content, keys_of, lemma_array_content, lemma_upsert_order, upsert, value_of,
    DataType, Document, Value,
};

verus! {

/// What a command line asks for.
pub enum Action {
    /// The value under a key.
    Get(Seq<char>),
    /// To store, under a key, the value that a text denotes.
    Put(Seq<char>, Seq<char>),
    /// The keys.
    List,
}

/// A command, read from a line.
#[derive(Debug, PartialEq, Eq)]
pub enum Command {
    Get(String),
    Put(String, String),
    List,
}

impl View for Command {
    type V = Action;

    open spec fn view(&self) -> Action {
        match self {
            Command::Get(key) => Action::Get(key@),
            Command::Put(key, text) => Action::Put(key@, text@),
            Command::List => Action::List,
        }
    }
}

/// The name of the action that reads.
pub open spec fn word_get() -> Seq<char> {
    seq!['g', 'e', 't']
}

/// The name of the action that writes.
pub open spec fn word_set() -> Seq<char> {
    seq!['s', 'e', 't']
}

/// The name of the action that lists the keys.
pub open spec fn word_list() -> Seq<char> {
    seq!['l', 'i', 's', 't']
}

/// The words from position `from` on, with one space between each two.
pub open spec fn joined(parts: Seq<Seq<char>>, from: int) -> Seq<char>
    decreases parts.len() - from,
{
    if from < 0 || from >= parts.len() {
        Seq::empty()
    } else if from == parts.len() - 1 {
        parts[from]
    } else {
        parts[from] + seq![' '] + joined(parts, from + 1)
    }
}

/// The action that the words of a command line ask for. `get` takes one word, the key;
/// `set` takes a key and, as the value text, all the words after it; `list` takes none.
pub open spec fn action_of(parts: Seq<Seq<char>>) -> Result<Action, CommandError> {
    if parts.len() == 0 {
        Err(CommandError::Malformed)
    } else if parts[0] == word_get() {
        if parts.len() == 2 {
            Ok(Action::Get(parts[1]))
        } else {
            Err(CommandError::Malformed)
        }
    } else if parts[0] == word_set() {
        if parts.len() >= 3 {
            Ok(Action::Put(parts[1], joined(parts, 2)))
        } else {
            Err(CommandError::Malformed)
        }
    } else if parts[0] == word_list() {
        if parts.len() == 1 {
            Ok(Action::List)
        } else {
            Err(CommandError::Malformed)
        }
    } else {
        Err(CommandError::UnknownCommand)
    }
}

/// What is found in `root` under `key`: in a document, what the key holds; in an
/// array, the element at the position that the key denotes.
pub open spec fn lookup(root: Value, key: Seq<char>) -> Option<Value> {
    match root {
        Value::Document(entries) => value_of(entries, key),
        Value::Array(items) => match parse_index(key) {
            Some(i) => if i < items.len() {
                Some(items[i as int])
            } else {
                None
            },
            None => None,
        },
        _ => None,
    }
}

/// The keys of `root` as an array of texts: the keys of a document in insertion order,
/// and nothing for any other value.
pub open spec fn listing(root: Value) -> Value {
    match root {
        Value::Document(entries) => Value::Array(
            Seq::new(entries.len(), |i: int| Value::Text(entries[i].0)),
        ),
        _ => Value::Array(Seq::empty()),
    }
}

/// What running `action` on `root` leaves as the root.
pub open spec fn root_after(root: Value, action: Action) -> Value {
    match action {
        Action::Put(key, text) => match parse(text) {
            Some(value) => match set_value(root, key, value) {
                Ok(after) => after,
                Err(_) => root,
            },
            None => root,
        },
        _ => root,
    }
}

/// What running `action` on `root` answers.
pub open spec fn answer(root: Value, action: Action) -> Result<Value, Error> {
    match action {
        Action::Get(key) => match lookup(root, key) {
            Some(value) => Ok(value),
            None => Err(Error::Lookup(LookupError::KeyNotFound)),
        },
        Action::Put(key, text) => match parse(text) {
            Some(value) => match set_value(root, key, value) {
                Ok(_) => Ok(Value::Boolean(true)),
                Err(e) => Err(Error::Path(e)),
            },
            None => Err(Error::Parse),
        },
        Action::List => Ok(listing(root)),
    }
}

/// What running the command line `line` on `root` leaves as the root.
pub open spec fn run_root(root: Value, line: Seq<char>) -> Value {
    match action_of(words(line)) {
        Ok(action) => root_after(root, action),
        Err(_) => root,
    }
}

/// What running the command line `line` on `root` answers.
pub open spec fn run_answer(root: Value, line: Seq<char>) -> Result<Value, Error> {
    match action_of(words(line)) {
        Ok(action) => answer(root, action),
        Err(e) => Err(Error::Command(e)),
    }
}

/// The content of an answer.
pub open spec fn answer_content(r: Result<DataType, Error>) -> Result<Value, Error> {
    match r {
        Ok(datum) => Ok(datum@),
        Err(e) => Err(e),
    }
}

/// Joins the words from position `from` on with one space between each two.
pub fn join_words(parts: &Vec<String>, from: usize) -> (text: String)
    ensures
        text@ == joined(texts(parts@), from as int),
{
    let ghost all = texts(parts@);
    let mut out: Vec<char> = Vec::new();
    let mut i: usize = from;
    while i < parts.len()
        invariant
            all == texts(parts@),
            out@ + joined(all, i as int) == joined(all, from as int),
        decreases parts.len() - i,
    {
        let word = chars_of(parts[i].as_str());
        extend_chars(&mut out, &word);
        if i + 1 < parts.len() {
            out.push(' ');
        }
        i += 1;
    }
    string_of(&out)
}

/// Tests whether `word` spells `name`.
fn is_name(word: &String, name: &str) -> (same: bool)
    ensures
        same == (word@ == name@),
{
    same_text(word.as_str(), name)
}

impl Command {
    /// Reads a command from a line.
    pub fn parse(line: &str) -> (r: Result<Command, CommandError>)
        ensures
            match r {
                Ok(command) => action_of(words(line@)) == Ok::<Action, CommandError>(command@),
                Err(e) => action_of(words(line@)) == Err::<Action, CommandError>(e),
            },
    {
        let mut parts = smart_split(line.to_owned());
        proof {
            reveal_strlit("get");
            reveal_strlit("set");
            reveal_strlit("list");
            assert("get"@ =~= word_get());
            assert("set"@ =~= word_set());
            assert("list"@ =~= word_list());
        }
        let n = parts.len();
        if n == 0 {
            return Err(CommandError::Malformed);
        }
        if is_name(&parts[0], "get") {
            if n == 2 {
                let key = parts.pop().unwrap();
                Ok(Command::Get(key))
            } else {
                Err(CommandError::Malformed)
            }
        } else if is_name(&parts[0], "set") {
            if n >= 3 {
                let text = join_words(&parts, 2);
                let key = parts[1].clone();
                Ok(Command::Put(key, text))
            } else {
                Err(CommandError::Malformed)
            }
        } else if is_name(&parts[0], "list") {
            if n == 1 {
                Ok(Command::List)
            } else {
                Err(CommandError::Malformed)
            }
        } else {
            Err(CommandError::UnknownCommand)
        }
    }
}

/// A named root value.
#[derive(Debug)]
pub struct Collection {
    name: String,
    root: DataType,
}

impl Collection {
    /// Whether no document of the root stores a key twice.
    pub open spec fn well_formed(&self) -> bool {
        self.root_content().well_formed()
    }

    /// The name.
    pub closed spec fn name_text(&self) -> Seq<char> {
        self.name@
    }

    /// The content of the root.
    pub closed spec fn root_content(&self) -> Value {
        self.root@
    }

    /// An empty collection: its root is a document without entries.
    pub fn new(name: &str) -> (collection: Collection)
        ensures
            collection.name_text() == name@,
            collection.root_content() == Value::Document(Seq::empty()),
            collection.well_formed(),
    {
        Collection { name: name.to_owned(), root: DataType::Document(Document::new()) }
    }

    /// A collection around a root.
    pub fn from_root(name: String, root: DataType) -> (collection: Collection)
        ensures
            collection.name_text() == name@,
            collection.root_content() == root@,
    {
        Collection { name, root }
    }

    /// The name.
    pub fn name(&self) -> (name: &String)
        ensures
            name@ == self.name_text(),
    {
        &self.name
    }

    /// The root.
    pub fn root(&self) -> (root: &DataType)
        ensures
            root@ == self.root_content(),
    {
        &self.root
    }

    /// Reads what `key` denotes in the root.
    fn find(&self, key: &str) -> (found: Option<DataType>)
        ensures
            found_content(found) == lookup(self.root_content(), key@),
    {
        match &self.root {
            DataType::Document(document) => match document.get(key) {
                Some(value) => Some(value.clone()),
                None => None,
            },
            DataType::Array(array) => {
                proof {
                    lemma_array_content(*array);
                }
                let digits = chars_of(key);
                match parse_index_chars(&digits) {
                    Some(i) => if i < array.len() {
                        Some(array[i].clone())
                    } else {
                        None
                    },
                    None => None,
                }
            },
            _ => None,
        }
    }

    /// The keys of the root, as an array of texts.
    fn list(&self) -> (keys: DataType)
        ensures
            keys@ == listing(self.root_content()),
    {
        let mut items: Vec<DataType> = Vec::new();
        match &self.root {
            DataType::Document(document) => {
                let keys = document.keys();
                let ghost names = keys_of(document@);
                assert(texts(keys@).len() == keys.len() && names.len() == document@.len());
                let mut i: usize = 0;
                while i < keys.len()
                    invariant
                        i <= keys.len(),
                        items.len() == i,
                        forall|j: int|
                            0 <= j < i ==> (#[trigger] items[j])@ == Value::Text(keys[j]@),
                        forall|j: int|
                            0 <= j < keys.len() ==> (#[trigger] keys[j])@ == names[j],
                        names == keys_of(document@),
                        keys.len() == document@.len(),
                    decreases keys.len() - i,
                {
                    items.push(DataType::Text(keys[i].clone()));
                    i += 1;
                }
                proof {
                    lemma_array_content(items);
                    assert(contents(items@) =~= listing(self.root_content())->Array_0);
                }
            },
            _ => {
                proof {
                    lemma_array_content(items);
                    assert(contents(items@) =~= Seq::<Value>::empty());
                }
            },
        }
        DataType::Array(items)
    }

    /// Runs one command line against the root.
    ///
    /// `get <key>` answers what the key holds. `set <key> <value text>` stores the
    /// value that the text denotes and answers `true`. `list` answers the keys. A line
    /// that is no command, or a command that fails, leaves the root as it was.
    pub fn run(&mut self, command: &str) -> (r: Result<DataType, Error>)
        requires
            old(self).well_formed(),
        ensures
            final(self).well_formed(),
            final(self).name_text() == old(self).name_text(),
            final(self).root_content() == run_root(old(self).root_content(), command@),
            answer_content(r) == run_answer(old(self).root_content(), command@),
    {
        match Command::parse(command) {
            Err(e) => Err(Error::Command(e)),
            Ok(Command::List) => Ok(self.list()),
            Ok(Command::Get(key)) => match self.find(key.as_str()) {
                Some(value) => Ok(value),
                None => Err(Error::Lookup(LookupError::KeyNotFound)),
            },
            Ok(Command::Put(key, text)) => {
                let chars = chars_of(text.as_str());
                match parse_chars(&chars) {
                    None => Err(Error::Parse),
                    Some(value) => match self.root.set(key.as_str(), value) {
                        Ok(_) => Ok(DataType::Boolean(true)),
                        Err(e) => Err(Error::Path(e)),
                    },
                }
            },
        }
    }
}

/// A line that is no command is answered with the error of the line, and leaves the
/// root as it was.
pub proof fn lemma_bad_line(root: Value, line: Seq<char>)
    requires
        action_of(words(line)) is Err,
    ensures
        run_root(root, line) == root,
        run_answer(root, line) == Err::<Value, Error>(
            Error::Command(action_of(words(line))->Err_0),
        ),
{
}

/// Writing into a document never fails: the answer is `true`, and the key then holds
/// the value that the text denotes.
pub proof fn lemma_put(entries: Seq<(Seq<char>, Value)>, key: Seq<char>, text: Seq<char>)
    ensures
        parse(text) is Some,
        answer(Value::Document(entries), Action::Put(key, text)) == Ok::<Value, Error>(
            Value::Boolean(true),
        ),
        root_after(Value::Document(entries), Action::Put(key, text)) == Value::Document(
            upsert(entries, key, parse(text)->Some_0),
        ),
{
    lemma_parse_total(text);
}

/// Two writes under two keys, run one after the other in either order, both succeed,
/// and afterwards each key holds the value that its text denotes.
pub proof fn lemma_two_writes(
    entries: Seq<(Seq<char>, Value)>,
    first: Seq<char>,
    second: Seq<char>,
    key1: Seq<char>,
    text1: Seq<char>,
    key2: Seq<char>,
    text2: Seq<char>,
)
    requires
        action_of(words(first)) == Ok::<Action, CommandError>(Action::Put(key1, text1)),
        action_of(words(second)) == Ok::<Action, CommandError>(Action::Put(key2, text2)),
        key1 != key2,
    ensures
        ({
            let root = Value::Document(entries);
            let yes = Ok::<Value, Error>(Value::Boolean(true));
            let one_way = run_root(run_root(root, first), second);
            let other_way = run_root(run_root(root, second), first);
            &&& run_answer(root, first) == yes
            &&& run_answer(run_root(root, first), second) == yes
            &&& run_answer(root, second) == yes
            &&& run_answer(run_root(root, second), first) == yes
            &&& one_way is Document
            &&& other_way is Document
            &&& value_of(one_way->Document_0, key1) == parse(text1)
            &&& value_of(one_way->Document_0, key2) == parse(text2)
            &&& value_of(other_way->Document_0, key1) == parse(text1)
            &&& value_of(other_way->Document_0, key2) == parse(text2)
        }),
{
    let v1 = parse(text1)->Some_0;
    let v2 = parse(text2)->Some_0;
    lemma_put(entries, key1, text1);
    lemma_put(entries, key2, text2);
    let after1 = upsert(entries, key1, v1);
    let after2 = upsert(entries, key2, v2);
    lemma_put(after1, key2, text2);
    lemma_put(after2, key1, text1);
    lemma_upsert_order(entries, key1, v1);
    lemma_upsert_order(entries, key2, v2);
    lemma_upsert_order(after1, key2, v2);
    lemma_upsert_order(after2, key1, v1);
}

} // verus!
