//! The recursive value model: scalars, arrays and ordered documents.

use vstd::prelude::*;
use crate::error::KindError;
use crate::text::{same_text, texts};
use vstd::std_specs::cmp::PartialEqSpecImpl;
use vstd::std_specs::convert::FromSpecImpl;

verus! {

/// The mathematical content of a stored datum.
pub enum Value {
    Id(u128),
    Text(Seq<char>),
    Number(i32),
    Boolean(bool),
    Array(Seq<Value>),
    Document(Seq<(Seq<char>, Value)>),
}

/// A stored datum.
#[derive(Debug)]
pub enum DataType {
    Id(u128),
    Text(String),
    Number(i32),
    Boolean(bool),
    Array(Vec<DataType>),
    Document(Document),
}

/// An ordered mapping from string keys to values, in insertion order.
#[derive(Debug)]
pub struct Document {
    entries: Vec<(String, DataType)>,
}

/// Position of the first entry of `entries` stored under `key`, or the length if there is none.
pub open spec fn key_position(entries: Seq<(Seq<char>, Value)>, key: Seq<char>) -> int
    decreases entries.len(),
{
    if entries.len() == 0 {
        0
    } else if entries[0].0 == key {
        0
    } else {
        1 + key_position(entries.drop_first(), key)
    }
}

/// No key is stored twice.
pub open spec fn keys_unique(entries: Seq<(Seq<char>, Value)>) -> bool {
    forall|i: int, j: int|
        0 <= i < j < entries.len() ==> (#[trigger] entries[i]).0 != (#[trigger] entries[j]).0
}

/// The mathematical content of a datum.
pub open spec fn content(datum: DataType) -> Value
    decreases datum,
{
    match datum {
        DataType::Id(id) => Value::Id(id),
        DataType::Text(text) => Value::Text(text@),
        DataType::Number(number) => Value::Number(number),
        DataType::Boolean(boolean) => Value::Boolean(boolean),
        DataType::Array(array) => Value::Array(
            Seq::new(
                array.len() as nat,
                |i: int|
                    if 0 <= i < array.len() {
                        content(array[i])
                    } else {
                        Value::Boolean(false)
                    },
            ),
        ),
        DataType::Document(document) => Value::Document(entries_content(document)),
    }
}

/// The entries of a document: each key with the content of what is stored under it.
pub closed spec fn entries_content(document: Document) -> Seq<(Seq<char>, Value)>
    decreases document,
{
    Seq::new(
        document.entries.len() as nat,
        |i: int|
            if 0 <= i < document.entries.len() {
                (document.entries[i].0@, content(document.entries[i].1))
            } else {
                (Seq::empty(), Value::Boolean(false))
            },
    )
}

/// The content of what was found, if anything was.
pub open spec fn found_content(found: Option<DataType>) -> Option<Value> {
    match found {
        Some(datum) => Some(datum@),
        None => None,
    }
}

/// The contents of a sequence of data, in order.
pub open spec fn contents(data: Seq<DataType>) -> Seq<Value> {
    Seq::new(data.len(), |i: int| content(data[i]))
}

/// The content of an array is the contents of its elements.
pub proof fn lemma_array_content(array: Vec<DataType>)
    ensures
        DataType::Array(array)@ == Value::Array(contents(array@)),
{
    assert(DataType::Array(array)@->Array_0 =~= contents(array@));
}

impl View for DataType {
    type V = Value;

    open spec fn view(&self) -> Value {
        content(*self)
    }
}

impl View for Document {
    type V = Seq<(Seq<char>, Value)>;

    open spec fn view(&self) -> Seq<(Seq<char>, Value)> {
        entries_content(*self)
    }
}

/// Whether `entries` stores something under `key`.
pub open spec fn has_key(entries: Seq<(Seq<char>, Value)>, key: Seq<char>) -> bool {
    key_position(entries, key) < entries.len()
}

/// What `entries` stores under `key`, if anything.
pub open spec fn value_of(entries: Seq<(Seq<char>, Value)>, key: Seq<char>) -> Option<Value> {
    if has_key(entries, key) {
        Some(entries[key_position(entries, key)].1)
    } else {
        None
    }
}

/// `entries` with `value` stored under `key`: in the place of what was stored
/// under `key` before, or at the end if nothing was.
pub open spec fn upsert(entries: Seq<(Seq<char>, Value)>, key: Seq<char>, value: Value) -> Seq<
    (Seq<char>, Value),
> {
    if has_key(entries, key) {
        entries.update(key_position(entries, key), (key, value))
    } else {
        entries.push((key, value))
    }
}

/// The keys of `entries`, in order.
pub open spec fn keys_of(entries: Seq<(Seq<char>, Value)>) -> Seq<Seq<char>> {
    Seq::new(entries.len(), |i: int| entries[i].0)
}

/// The position of a key is that of the first entry stored under it.
pub proof fn lemma_key_position(entries: Seq<(Seq<char>, Value)>, key: Seq<char>)
    ensures
        0 <= key_position(entries, key) <= entries.len(),
        forall|j: int| 0 <= j < key_position(entries, key) ==> (#[trigger] entries[j]).0 != key,
        has_key(entries, key) ==> entries[key_position(entries, key)].0 == key,
    decreases entries.len(),
{
    if entries.len() > 0 && entries[0].0 != key {
        let rest = entries.drop_first();
        lemma_key_position(rest, key);
        assert forall|j: int| 0 <= j < key_position(entries, key) implies (#[trigger] entries[j]).0
            != key by {
            if j > 0 {
                assert(entries[j] == rest[j - 1]);
            }
        }
    }
}

/// A position before which no entry is stored under `key`, and which holds `key` or is
/// the end, is the position of `key`.
pub proof fn lemma_key_position_is(entries: Seq<(Seq<char>, Value)>, key: Seq<char>, i: int)
    requires
        0 <= i <= entries.len(),
        forall|j: int| 0 <= j < i ==> (#[trigger] entries[j]).0 != key,
        i < entries.len() ==> entries[i].0 == key,
    ensures
        key_position(entries, key) == i,
    decreases entries.len(),
{
    if i > 0 {
        let rest = entries.drop_first();
        lemma_key_position_is(rest, key, i - 1);
    }
}

/// Storing under a key keeps the keys distinct.
pub proof fn lemma_upsert_keeps_keys_unique(
    entries: Seq<(Seq<char>, Value)>,
    key: Seq<char>,
    value: Value,
)
    requires
        keys_unique(entries),
    ensures
        keys_unique(upsert(entries, key, value)),
{
    lemma_key_position(entries, key);
}

/// Storing under a key that is there keeps every key in its place; storing under a
/// new key puts it last. Either way the key then holds the value, and every other key
/// holds what it held.
pub proof fn lemma_upsert_order(entries: Seq<(Seq<char>, Value)>, key: Seq<char>, value: Value)
    ensures
        has_key(entries, key) ==> keys_of(upsert(entries, key, value)) == keys_of(entries),
        !has_key(entries, key) ==> keys_of(upsert(entries, key, value)) == keys_of(entries).push(
            key,
        ),
        key_position(upsert(entries, key, value), key) == key_position(entries, key),
        value_of(upsert(entries, key, value), key) == Some(value),
        forall|other: Seq<char>|
            other != key ==> #[trigger] value_of(upsert(entries, key, value), other) == value_of(
                entries,
                other,
            ),
{
    let after = upsert(entries, key, value);
    let p = key_position(entries, key);
    lemma_key_position(entries, key);
    assert(key_position(after, key) == p) by {
        lemma_key_position_is(after, key, p);
    }
    assert forall|other: Seq<char>| other != key implies #[trigger] value_of(after, other)
        == value_of(entries, other) by {
        let q = key_position(entries, other);
        lemma_key_position(entries, other);
        if q < entries.len() {
            lemma_key_position_is(after, other, q);
        } else {
            lemma_key_position_is(after, other, after.len() as int);
        }
    }
}

/// Storing a well-formed value in a well-formed document gives a well-formed document.
pub proof fn lemma_upsert_well_formed(
    entries: Seq<(Seq<char>, Value)>,
    key: Seq<char>,
    value: Value,
)
    requires
        Value::Document(entries).well_formed(),
        value.well_formed(),
    ensures
        Value::Document(upsert(entries, key, value)).well_formed(),
{
    lemma_key_position(entries, key);
    lemma_upsert_keeps_keys_unique(entries, key, value);
}

impl Value {
    /// Whether no document in the value, at any depth, stores a key twice.
    pub open spec fn well_formed(self) -> bool
        decreases self,
    {
        match self {
            Value::Array(items) => forall|i: int|
                0 <= i < items.len() ==> (#[trigger] items[i]).well_formed(),
            Value::Document(entries) => keys_unique(entries) && forall|i: int|
                0 <= i < entries.len() ==> (#[trigger] entries[i]).1.well_formed(),
            _ => true,
        }
    }
}

impl DataType {
    /// Whether no document in the datum, at any depth, stores a key twice.
    pub open spec fn well_formed(&self) -> bool {
        self@.well_formed()
    }
}

impl Document {
    /// Whether no key is stored twice, here or in a document further down.
    pub open spec fn well_formed(&self) -> bool {
        Value::Document(self@).well_formed()
    }

    /// An empty document.
    pub fn new() -> (document: Document)
        ensures
            document@ == Seq::<(Seq<char>, Value)>::empty(),
            document.well_formed(),
    {
        Document { entries: Vec::new() }
    }

    /// The number of entries.
    pub fn len(&self) -> (n: usize)
        ensures
            n == self@.len(),
    {
        self.entries.len()
    }

    /// Whether there is no entry.
    pub fn is_empty(&self) -> (b: bool)
        ensures
            b == (self@.len() == 0),
    {
        self.entries.len() == 0
    }

    /// The entries, in insertion order.
    pub fn entries(&self) -> (entries: &Vec<(String, DataType)>)
        ensures
            entries.len() == self@.len(),
            forall|i: int|
                0 <= i < entries.len() ==> (#[trigger] entries[i]).0@ == self@[i].0 && entries[i].1@
                    == self@[i].1,
            forall|i: int|
                0 <= i < entries.len() ==> decreases_to!(*self => (#[trigger] entries[i]).1),
    {
        &self.entries
    }

    /// The position of the entry stored under `key`, or the number of entries if there is none.
    fn position(&self, key: &str) -> (i: usize)
        ensures
            i == key_position(self@, key@),
            i <= self@.len(),
    {
        let mut i: usize = 0;
        while i < self.entries.len()
            invariant
                i <= self.entries.len(),
                forall|j: int| 0 <= j < i ==> (#[trigger] self@[j]).0 != key@,
            decreases self.entries.len() - i,
        {
            if same_text(self.entries[i].0.as_str(), key) {
                proof {
                    lemma_key_position_is(self@, key@, i as int);
                }
                return i;
            }
            i += 1;
        }
        proof {
            lemma_key_position_is(self@, key@, i as int);
        }
        i
    }

    /// Whether something is stored under `key`.
    pub fn contains_key(&self, key: &str) -> (b: bool)
        ensures
            b == has_key(self@, key@),
    {
        self.position(key) < self.entries.len()
    }

    /// What is stored under `key`, if anything.
    pub fn get(&self, key: &str) -> (found: Option<&DataType>)
        ensures
            match found {
                Some(value) => value_of(self@, key@) == Some(value@),
                None => value_of(self@, key@) is None,
            },
    {
        let i = self.position(key);
        if i < self.entries.len() {
            Some(&self.entries[i].1)
        } else {
            None
        }
    }

    /// Stores `value` under `key`: in the place of what was stored under `key` before,
    /// which is handed back, or at the end if nothing was.
    pub fn insert(&mut self, key: String, value: DataType) -> (previous: Option<DataType>)
        requires
            old(self).well_formed(),
            value.well_formed(),
        ensures
            final(self).well_formed(),
            final(self)@ == upsert(old(self)@, key@, value@),
            match previous {
                Some(before) => value_of(old(self)@, key@) == Some(before@),
                None => value_of(old(self)@, key@) is None,
            },
    {
        proof {
            lemma_upsert_well_formed(self@, key@, value@);
        }
        let i = self.position(key.as_str());
        if i < self.entries.len() {
            let mut entry = (key, value);
            std::mem::swap(&mut self.entries[i], &mut entry);
            assert(self@ =~= upsert(old(self)@, key@, value@));
            Some(entry.1)
        } else {
            self.entries.push((key, value));
            assert(self@ =~= upsert(old(self)@, key@, value@));
            None
        }
    }

    /// The keys, in insertion order.
    pub fn keys(&self) -> (keys: Vec<String>)
        ensures
            texts(keys@) == keys_of(self@),
    {
        let mut keys: Vec<String> = Vec::new();
        let mut i: usize = 0;
        while i < self.entries.len()
            invariant
                i <= self.entries.len(),
                keys.len() == i,
                forall|j: int| 0 <= j < i ==> (#[trigger] keys[j])@ == self@[j].0,
            decreases self.entries.len() - i,
        {
            keys.push(self.entries[i].0.clone());
            i += 1;
        }
        keys
    }
}

impl Clone for Document {
    fn clone(&self) -> (copy: Document)
        ensures
            copy@ == self@,
        decreases self,
    {
        let mut entries: Vec<(String, DataType)> = Vec::new();
        let mut i: usize = 0;
        while i < self.entries.len()
            invariant
                i <= self.entries.len(),
                entries.len() == i,
                forall|j: int|
                    0 <= j < i ==> (#[trigger] entries[j]).0@ == self.entries[j].0@ && entries[j].1@
                        == self.entries[j].1@,
            decreases self.entries.len() - i,
        {
            let key = self.entries[i].0.clone();
            let value = self.entries[i].1.clone();
            entries.push((key, value));
            i += 1;
        }
        let copy = Document { entries };
        copy
    }
}

impl Clone for DataType {
    fn clone(&self) -> (copy: DataType)
        ensures
            copy@ == self@,
        decreases self,
    {
        match self {
            DataType::Id(id) => DataType::Id(*id),
            DataType::Text(text) => DataType::Text(text.clone()),
            DataType::Number(number) => DataType::Number(*number),
            DataType::Boolean(boolean) => DataType::Boolean(*boolean),
            DataType::Array(array) => {
                let mut items: Vec<DataType> = Vec::new();
                let mut i: usize = 0;
                while i < array.len()
                    invariant
                        i <= array.len(),
                        items.len() == i,
                        *self == DataType::Array(*array),
                        forall|j: int| 0 <= j < i ==> (#[trigger] items[j])@ == array[j]@,
                    decreases array.len() - i,
                {
                    assert(decreases_to!(*self => self->Array_0));
                    items.push(array[i].clone());
                    i += 1;
                }
                let copy = DataType::Array(items);
                assert(copy@->Array_0 =~= self@->Array_0);
                copy
            },
            DataType::Document(document) => DataType::Document(document.clone()),
        }
    }
}

/// The name of the kind of a value.
pub open spec fn kind_name(v: Value) -> Seq<char> {
    match v {
        Value::Id(_) => "id"@,
        Value::Text(_) => "text"@,
        Value::Number(_) => "number"@,
        Value::Boolean(_) => "boolean"@,
        Value::Array(_) => "array"@,
        Value::Document(_) => "document"@,
    }
}

impl DataType {
    /// The name of the kind of the value.
    pub fn get_type(&self) -> (name: &'static str)
        ensures
            name@ == kind_name(self@),
    {
        match self {
            DataType::Id(_) => "id",
            DataType::Text(_) => "text",
            DataType::Number(_) => "number",
            DataType::Boolean(_) => "boolean",
            DataType::Array(_) => "array",
            DataType::Document(_) => "document",
        }
    }

    /// The identifier, if the value is one.
    pub fn to_id(&self) -> (r: Result<u128, KindError>)
        ensures
            r == match self@ {
                Value::Id(id) => Ok::<u128, KindError>(id),
                _ => Err(KindError::NotAnId),
            },
    {
        match self {
            DataType::Id(id) => Ok(*id),
            _ => Err(KindError::NotAnId),
        }
    }

    /// The text, if the value is one.
    pub fn to_text(&self) -> (r: Result<&String, KindError>)
        ensures
            match self@ {
                Value::Text(text) => r is Ok && r->Ok_0@ == text,
                _ => r == Err::<&String, KindError>(KindError::NotAText),
            },
    {
        match self {
            DataType::Text(text) => Ok(text),
            _ => Err(KindError::NotAText),
        }
    }

    /// The number, if the value is one.
    pub fn to_number(&self) -> (r: Result<i32, KindError>)
        ensures
            r == match self@ {
                Value::Number(number) => Ok::<i32, KindError>(number),
                _ => Err(KindError::NotANumber),
            },
    {
        match self {
            DataType::Number(number) => Ok(*number),
            _ => Err(KindError::NotANumber),
        }
    }

    /// The boolean, if the value is one.
    pub fn to_boolean(&self) -> (r: Result<bool, KindError>)
        ensures
            r == match self@ {
                Value::Boolean(boolean) => Ok::<bool, KindError>(boolean),
                _ => Err(KindError::NotABoolean),
            },
    {
        match self {
            DataType::Boolean(boolean) => Ok(*boolean),
            _ => Err(KindError::NotABoolean),
        }
    }

    /// The elements, if the value is an array.
    pub fn to_array(&self) -> (r: Result<&Vec<DataType>, KindError>)
        ensures
            match self@ {
                Value::Array(items) => r is Ok && contents(r->Ok_0@) == items,
                _ => r == Err::<&Vec<DataType>, KindError>(KindError::NotAnArray),
            },
    {
        match self {
            DataType::Array(array) => {
                proof {
                    lemma_array_content(*array);
                }
                Ok(array)
            },
            _ => Err(KindError::NotAnArray),
        }
    }

    /// The document, if the value is one.
    pub fn to_document(&self) -> (r: Result<&Document, KindError>)
        ensures
            match self@ {
                Value::Document(entries) => r is Ok && r->Ok_0@ == entries,
                _ => r == Err::<&Document, KindError>(KindError::NotADocument),
            },
    {
        match self {
            DataType::Document(document) => Ok(document),
            _ => Err(KindError::NotADocument),
        }
    }
}

impl PartialEq for Document {
    fn eq(&self, other: &Document) -> (same: bool)
        decreases self,
    {
        if self.entries.len() != other.entries.len() {
            assert(self@.len() != other@.len());
            return false;
        }
        let mut i: usize = 0;
        while i < self.entries.len()
            invariant
                i <= self.entries.len() == other.entries.len(),
                forall|j: int| 0 <= j < i ==> self@[j] == other@[j],
            decreases self.entries.len() - i,
        {
            if !(self.entries[i].0 == other.entries[i].0 && self.entries[i].1 == other.entries[i].1) {
                assert(self@[i as int] != other@[i as int]);
                return false;
            }
            i += 1;
        }
        assert(self@ =~= other@);
        true
    }
}

impl PartialEqSpecImpl for Document {
    open spec fn obeys_eq_spec() -> bool {
        true
    }

    open spec fn eq_spec(&self, other: &Document) -> bool {
        self@ == other@
    }
}

impl PartialEq for DataType {
    fn eq(&self, other: &DataType) -> (same: bool)
        decreases self,
    {
        match (self, other) {
            (DataType::Id(a), DataType::Id(b)) => *a == *b,
            (DataType::Text(a), DataType::Text(b)) => *a == *b,
            (DataType::Number(a), DataType::Number(b)) => *a == *b,
            (DataType::Boolean(a), DataType::Boolean(b)) => *a == *b,
            (DataType::Array(a), DataType::Array(b)) => {
                proof {
                    lemma_array_content(*a);
                    lemma_array_content(*b);
                }
                if a.len() != b.len() {
                    assert(contents(a@).len() != contents(b@).len());
                    return false;
                }
                let mut i: usize = 0;
                while i < a.len()
                    invariant
                        i <= a.len() == b.len(),
                        *self == DataType::Array(*a),
                        self@ == Value::Array(contents(a@)),
                        other@ == Value::Array(contents(b@)),
                        forall|j: int| 0 <= j < i ==> (#[trigger] a[j])@ == b[j]@,
                    decreases a.len() - i,
                {
                    if !(a[i] == b[i]) {
                        assert(contents(a@)[i as int] != contents(b@)[i as int]);
                        return false;
                    }
                    i += 1;
                }
                assert(contents(a@) =~= contents(b@));
                true
            },
            (DataType::Document(a), DataType::Document(b)) => *a == *b,
            _ => false,
        }
    }
}

impl PartialEqSpecImpl for DataType {
    open spec fn obeys_eq_spec() -> bool {
        true
    }

    open spec fn eq_spec(&self, other: &DataType) -> bool {
        self@ == other@
    }
}

impl From<u128> for DataType {
    fn from(value: u128) -> (datum: DataType) {
        DataType::Id(value)
    }
}

impl FromSpecImpl<u128> for DataType {
    open spec fn obeys_from_spec() -> bool {
        true
    }

    open spec fn from_spec(value: u128) -> DataType {
        DataType::Id(value)
    }
}

impl From<String> for DataType {
    fn from(value: String) -> (datum: DataType) {
        DataType::Text(value)
    }
}

impl FromSpecImpl<String> for DataType {
    open spec fn obeys_from_spec() -> bool {
        true
    }

    open spec fn from_spec(value: String) -> DataType {
        DataType::Text(value)
    }
}

impl From<&str> for DataType {
    fn from(value: &str) -> (datum: DataType)
        ensures
            datum@ == Value::Text(value@),
    {
        DataType::Text(value.to_owned())
    }
}

impl FromSpecImpl<&str> for DataType {
    open spec fn obeys_from_spec() -> bool {
        false
    }

    open spec fn from_spec(value: &str) -> DataType {
        DataType::Boolean(false)
    }
}

impl From<i32> for DataType {
    fn from(value: i32) -> (datum: DataType) {
        DataType::Number(value)
    }
}

impl FromSpecImpl<i32> for DataType {
    open spec fn obeys_from_spec() -> bool {
        true
    }

    open spec fn from_spec(value: i32) -> DataType {
        DataType::Number(value)
    }
}

impl From<bool> for DataType {
    fn from(value: bool) -> (datum: DataType) {
        DataType::Boolean(value)
    }
}

impl FromSpecImpl<bool> for DataType {
    open spec fn obeys_from_spec() -> bool {
        true
    }

    open spec fn from_spec(value: bool) -> DataType {
        DataType::Boolean(value)
    }
}

impl From<Vec<DataType>> for DataType {
    fn from(value: Vec<DataType>) -> (datum: DataType) {
        DataType::Array(value)
    }
}

impl FromSpecImpl<Vec<DataType>> for DataType {
    open spec fn obeys_from_spec() -> bool {
        true
    }

    open spec fn from_spec(value: Vec<DataType>) -> DataType {
        DataType::Array(value)
    }
}

impl From<Document> for DataType {
    fn from(value: Document) -> (datum: DataType) {
        DataType::Document(value)
    }
}

impl FromSpecImpl<Document> for DataType {
    open spec fn obeys_from_spec() -> bool {
        true
    }

    open spec fn from_spec(value: Document) -> DataType {
        DataType::Document(value)
    }
}

} // verus!
