//! The database: named collections, and the text in which they are kept.
//!
//! The text of a database is that of a document whose keys are the names of the
//! collections and whose values are their roots.

use vstd::prelude::*;
use crate::collection::Collection;
use crate::error::{Error, LookupError};
use crate::grammar::{parse, parse_chars, render, render_entries};
use crate::round_trip::{lemma_round_trip, readable};
use crate::text::{chars_of, extend_chars, same_text, string_of, texts};
use crate::value::{
    has_key, key_position, keys_of, lemma_key_position, lemma_key_position_is, DataType, Value,
};

verus! {

/// The version of the library, as the greeting of a server gives it.
pub const VERSION: &'static str = "0.1.0";

/// The path at which a database is kept unless another is given.
pub const DEFAULT_PATH: &'static str = "default.mdb";

/// A set of named collections and the path of the file that keeps them.
#[derive(Debug)]
pub struct InfuseDB {
    path: String,
    collections: Vec<Collection>,
}

impl View for InfuseDB {
    type V = Seq<(Seq<char>, Value)>;

    /// The collections in order of creation: each name with the content of the root.
    closed spec fn view(&self) -> Seq<(Seq<char>, Value)> {
        Seq::new(
            self.collections.len() as nat,
            |i: int| (self.collections[i].name_text(), self.collections[i].root_content()),
        )
    }
}

/// The text in which the collections `entries` are kept.
pub open spec fn dump_text(entries: Seq<(Seq<char>, Value)>) -> Seq<char> {
    render(Value::Document(entries))
}

/// The collections that the text `text` keeps, if it is the text of a document.
pub open spec fn load_text(text: Seq<char>) -> Option<Seq<(Seq<char>, Value)>> {
    match parse(text) {
        Some(Value::Document(entries)) => Some(entries),
        _ => None,
    }
}

/// Replacing the root of one collection by a well-formed root keeps a database well-formed.
pub proof fn lemma_update_root(entries: Seq<(Seq<char>, Value)>, i: int, root: Value)
    requires
        Value::Document(entries).well_formed(),
        0 <= i < entries.len(),
        root.well_formed(),
    ensures
        Value::Document(entries.update(i, (entries[i].0, root))).well_formed(),
{
}

impl InfuseDB {
    /// Whether no two collections have one name, and no document in a root stores a
    /// key twice.
    pub open spec fn well_formed(&self) -> bool {
        Value::Document(self@).well_formed()
    }

    /// The path of the file that keeps the database.
    pub closed spec fn path_text(&self) -> Seq<char> {
        self.path@
    }

    /// The path of the file that keeps the database.
    pub fn path(&self) -> (path: &String)
        ensures
            path@ == self.path_text(),
    {
        &self.path
    }

    /// Changes the path of the file that keeps the database.
    pub fn set_path(&mut self, path: String)
        ensures
            final(self).path_text() == path@,
            final(self)@ == old(self)@,
    {
        self.path = path;
    }

    /// A database without collections, kept at the default path.
    pub fn new() -> (db: InfuseDB)
        ensures
            db@ == Seq::<(Seq<char>, Value)>::empty(),
            db.path_text() == DEFAULT_PATH@,
            db.well_formed(),
    {
        InfuseDB { path: DEFAULT_PATH.to_owned(), collections: Vec::new() }
    }

    /// The position of the collection named `name`, or the number of collections if
    /// there is none.
    fn position(&self, name: &str) -> (i: usize)
        ensures
            i == key_position(self@, name@),
            i <= self@.len(),
            i < self@.len() ==> self@[i as int].0 == name@,
    {
        let mut i: usize = 0;
        while i < self.collections.len()
            invariant
                i <= self.collections.len(),
                forall|j: int| 0 <= j < i ==> (#[trigger] self@[j]).0 != name@,
            decreases self.collections.len() - i,
        {
            if same_text(self.collections[i].name().as_str(), name) {
                proof {
                    lemma_key_position_is(self@, name@, i as int);
                }
                return i;
            }
            i += 1;
        }
        proof {
            lemma_key_position_is(self@, name@, i as int);
        }
        i
    }

    /// Adds an empty collection named `name`, unless there is one of that name.
    pub fn create_collection(&mut self, name: &str) -> (r: Result<(), Error>)
        requires
            old(self).well_formed(),
        ensures
            final(self).well_formed(),
            final(self).path_text() == old(self).path_text(),
            has_key(old(self)@, name@) ==> final(self)@ == old(self)@ && r == Err::<
                (),
                Error,
            >(Error::Lookup(LookupError::CollectionExists)),
            !has_key(old(self)@, name@) ==> final(self)@ == old(self)@.push(
                (name@, Value::Document(Seq::empty())),
            ) && r is Ok,
    {
        let i = self.position(name);
        if i < self.collections.len() {
            Err(Error::Lookup(LookupError::CollectionExists))
        } else {
            self.collections.push(Collection::new(name));
            proof {
                let after = old(self)@.push((name@, Value::Document(Seq::empty())));
                assert(self@ =~= after);
                lemma_key_position(old(self)@, name@);
            }
            Ok(())
        }
    }

    /// Removes the collection named `name`, and says whether there was one.
    pub fn remove_collection(&mut self, name: String) -> (removed: bool)
        requires
            old(self).well_formed(),
        ensures
            final(self).well_formed(),
            final(self).path_text() == old(self).path_text(),
            removed == has_key(old(self)@, name@),
            removed ==> final(self)@ == old(self)@.remove(key_position(old(self)@, name@)),
            !removed ==> final(self)@ == old(self)@,
    {
        let i = self.position(name.as_str());
        if i < self.collections.len() {
            self.collections.remove(i);
            proof {
                let before = old(self)@;
                let after = before.remove(i as int);
                assert(self@ =~= after);
            }
            true
        } else {
            false
        }
    }

    /// Whether there is a collection named `name`.
    pub fn has_collection(&self, name: &str) -> (b: bool)
        ensures
            b == has_key(self@, name@),
    {
        self.position(name) < self.collections.len()
    }

    /// The collection named `name`, if there is one, to read and to write.
    pub fn get_collection(&mut self, name: &str) -> (found: Option<&mut Collection>)
        ensures
            final(self).path_text() == old(self).path_text(),
            match found {
                Some(collection) => {
                    let i = key_position(old(self)@, name@);
                    &&& has_key(old(self)@, name@)
                    &&& collection.name_text() == name@
                    &&& collection.root_content() == old(self)@[i].1
                    &&& final(self)@ == old(self)@.update(
                        i,
                        (final(collection).name_text(), final(collection).root_content()),
                    )
                },
                None => !has_key(old(self)@, name@) && final(self)@ == old(self)@,
            },
    {
        let i = self.position(name);
        if i < self.collections.len() {
            Some(&mut self.collections[i])
        } else {
            None
        }
    }

    /// The names of the collections, in order of creation.
    pub fn get_collection_list(&self) -> (names: Vec<String>)
        ensures
            texts(names@) == keys_of(self@),
    {
        let mut names: Vec<String> = Vec::new();
        let mut i: usize = 0;
        while i < self.collections.len()
            invariant
                i <= self.collections.len(),
                names.len() == i,
                forall|j: int| 0 <= j < i ==> (#[trigger] names[j])@ == self@[j].0,
            decreases self.collections.len() - i,
        {
            names.push(self.collections[i].name().clone());
            i += 1;
        }
        names
    }

    /// The text in which the database is kept.
    pub fn dump_to_text(&self) -> (text: String)
        ensures
            text@ == dump_text(self@),
    {
        let ghost entries = self@;
        let mut out: Vec<char> = Vec::new();
        out.push('{');
        let n = self.collections.len();
        let mut i: usize = 0;
        assert(entries.skip(0) == entries);
        while i < n
            invariant
                i <= n == self.collections.len(),
                entries == self@,
                out@ + render_entries(entries.skip(i as int)) == seq!['{'] + render_entries(
                    entries,
                ),
            decreases n - i,
        {
            let name = chars_of(self.collections[i].name().as_str());
            extend_chars(&mut out, &name);
            out.push(':');
            out.push(' ');
            self.collections[i].root().render_into(&mut out);
            out.push(',');
            out.push(' ');
            proof {
                let rest = entries.skip(i as int);
                assert(rest.drop_first() == entries.skip(i + 1));
            }
            i += 1;
        }
        out.push('}');
        string_of(&out)
    }

    /// The database that the text `text` keeps, to be kept at `path`. The text must
    /// be that of a document.
    pub fn load_from_text(path: &str, text: &str) -> (r: Result<InfuseDB, Error>)
        ensures
            match load_text(text@) {
                Some(entries) => r is Ok && r->Ok_0@ == entries && r->Ok_0.path_text() == path@
                    && r->Ok_0.well_formed(),
                None => r == Err::<InfuseDB, Error>(Error::Parse),
            },
    {
        let chars = chars_of(text);
        match parse_chars(&chars) {
            Some(DataType::Document(document)) => {
                let pairs = document.entries();
                let mut collections: Vec<Collection> = Vec::new();
                let mut i: usize = 0;
                while i < pairs.len()
                    invariant
                        i <= pairs.len(),
                        collections.len() == i,
                        forall|j: int|
                            0 <= j < i ==> (#[trigger] collections[j]).name_text() == pairs[j].0@
                                && collections[j].root_content() == pairs[j].1@,
                    decreases pairs.len() - i,
                {
                    collections.push(
                        Collection::from_root(pairs[i].0.clone(), pairs[i].1.clone()),
                    );
                    i += 1;
                }
                let db = InfuseDB { path: path.to_owned(), collections };
                Ok(db)
            },
            _ => Err(Error::Parse),
        }
    }
}

/// The text that keeps a database gives the database back, and so is written again,
/// letter for letter, when what was loaded from it is dumped without a change: for every
/// database whose names and values can be read back from their own text.
pub proof fn lemma_load_after_dump(entries: Seq<(Seq<char>, Value)>)
    requires
        Value::Document(entries).well_formed(),
        readable(Value::Document(entries)),
    ensures
        load_text(dump_text(entries)) == Some(entries),
        dump_text(load_text(dump_text(entries))->Some_0) == dump_text(entries),
{
    lemma_round_trip(Value::Document(entries));
}

} // verus!
