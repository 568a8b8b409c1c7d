//! The decisions of the interactive shell: what a line that was typed does to
//! the database and to the selection, and what is shown for it. The caller
//! reads the lines and prints what is to be shown.

use vstd::prelude::*;
use crate::collection::{run_answer, run_root};
use crate::database::{lemma_update_root, InfuseDB};
use crate::error::{Error, LookupError};
use crate::format::{format_data_type, format_value};
use crate::text::{chars_of, extend_chars, same_text, string_of, texts};
use crate::utils::{smart_split, words};
use crate::value::{has_key, key_position, keys_of, lemma_key_position, Value};

verus! {

/// What the caller is to do after a line.
#[derive(Debug, PartialEq, Eq)]
pub enum ReplAction {
    /// Print the text.
    Print(String),
    /// Print nothing.
    Nothing,
    /// Print the help text.
    Help,
    /// Write the database to its file and leave.
    Exit,
}

/// The content of an action of the shell.
pub enum Shown {
    Print(Seq<char>),
    Nothing,
    Help,
    Exit,
}

impl View for ReplAction {
    type V = Shown;

    open spec fn view(&self) -> Shown {
        match self {
            ReplAction::Print(text) => Shown::Print(text@),
            ReplAction::Nothing => Shown::Nothing,
            ReplAction::Help => Shown::Help,
            ReplAction::Exit => Shown::Exit,
        }
    }
}

/// A text is printed unless it is empty.
pub open spec fn shown(text: Seq<char>) -> Shown {
    if text.len() == 0 {
        Shown::Nothing
    } else {
        Shown::Print(text)
    }
}

/// The names of the collections, each behind an arrow.
pub open spec fn names_text(entries: Seq<(Seq<char>, Value)>) -> Seq<char>
    decreases entries.len(),
{
    if entries.len() == 0 {
        Seq::empty()
    } else {
        names_text(entries.drop_last()) + "-> "@ + entries.last().0
    }
}

/// What the shell itself answers to the words of a line, if the line is one of its own
/// commands: `list`, `select`, `new`, and `del` while no collection is selected.
pub open spec fn shell_text(
    entries: Seq<(Seq<char>, Value)>,
    selected: Seq<char>,
    parts: Seq<Seq<char>>,
) -> Option<Seq<char>> {
    if parts.len() == 0 {
        None
    } else if parts[0] == "list"@ {
        Some(names_text(entries))
    } else if parts[0] == "select"@ {
        if parts.len() < 2 {
            Some("usage: select <collection name>"@)
        } else if has_key(entries, parts[1]) {
            Some(Seq::empty())
        } else {
            Some("Collection "@ + parts[1] + " dont exists"@)
        }
    } else if parts[0] == "new"@ {
        if parts.len() < 2 {
            Some("usage: new <collection name>"@)
        } else if has_key(entries, parts[1]) {
            Some("Collection "@ + parts[1] + " already exists"@)
        } else {
            Some("Collection "@ + parts[1] + " created"@)
        }
    } else if parts[0] == "del"@ && selected.len() == 0 {
        if parts.len() < 2 {
            Some("usage: select <collection name>"@)
        } else if has_key(entries, parts[1]) {
            Some(Seq::empty())
        } else {
            Some("Collection "@ + parts[1] + " dont exists"@)
        }
    } else {
        None
    }
}

/// What the selected collection answers to a line.
pub open spec fn collection_text(
    entries: Seq<(Seq<char>, Value)>,
    selected: Seq<char>,
    line: Seq<char>,
) -> Seq<char> {
    if has_key(entries, selected) {
        match run_answer(entries[key_position(entries, selected)].1, line) {
            Ok(value) => format_value(value, 0),
            Err(e) => "error: \""@ + e.text() + "\""@,
        }
    } else {
        "error: \""@ + Error::Lookup(LookupError::CollectionNotFound).text() + "\""@
    }
}

/// What is shown for a line. `help` and `exit` come first, then the commands of the
/// shell; any other line goes to the selected collection, if one is selected.
pub open spec fn line_shown(
    entries: Seq<(Seq<char>, Value)>,
    selected: Seq<char>,
    line: Seq<char>,
) -> Shown {
    let parts = words(line);
    if parts.len() == 0 {
        Shown::Nothing
    } else if parts[0] == "help"@ {
        Shown::Help
    } else if parts[0] == "exit"@ {
        Shown::Exit
    } else {
        match shell_text(entries, selected, parts) {
            Some(text) => shown(text),
            None => if selected.len() > 0 {
                shown(collection_text(entries, selected, line))
            } else {
                Shown::Nothing
            },
        }
    }
}

/// Whether a line goes to the selected collection.
pub open spec fn goes_to_collection(
    entries: Seq<(Seq<char>, Value)>,
    selected: Seq<char>,
    line: Seq<char>,
) -> bool {
    let parts = words(line);
    &&& parts.len() > 0
    &&& parts[0] != "help"@
    &&& parts[0] != "exit"@
    &&& shell_text(entries, selected, parts) is None
    &&& selected.len() > 0
}

/// The collections after a line: `new` adds an empty one, `del` takes one away, and a
/// line that goes to the selected collection leaves there what the command leaves.
pub open spec fn line_entries(
    entries: Seq<(Seq<char>, Value)>,
    selected: Seq<char>,
    line: Seq<char>,
) -> Seq<(Seq<char>, Value)> {
    let parts = words(line);
    if goes_to_collection(entries, selected, line) {
        if has_key(entries, selected) {
            let i = key_position(entries, selected);
            entries.update(i, (entries[i].0, run_root(entries[i].1, line)))
        } else {
            entries
        }
    } else if parts.len() >= 2 && parts[0] == "new"@ && !has_key(entries, parts[1]) {
        entries.push((parts[1], Value::Document(Seq::empty())))
    } else if parts.len() >= 2 && parts[0] == "del"@ && selected.len() == 0 && has_key(
        entries,
        parts[1],
    ) {
        entries.remove(key_position(entries, parts[1]))
    } else {
        entries
    }
}

/// The selection after a line: `select` with the name of a collection changes it.
pub open spec fn line_selected(
    entries: Seq<(Seq<char>, Value)>,
    selected: Seq<char>,
    line: Seq<char>,
) -> Seq<char> {
    let parts = words(line);
    if parts.len() >= 2 && parts[0] == "select"@ && has_key(entries, parts[1]) {
        parts[1]
    } else {
        selected
    }
}

/// The names of the commands of the shell differ from one another.
proof fn lemma_command_names()
    ensures
        "help"@.len() == 4 && "help"@[0] == 'h',
        "exit"@.len() == 4 && "exit"@[0] == 'e',
        "list"@.len() == 4 && "list"@[0] == 'l',
        "select"@.len() == 6,
        "new"@.len() == 3 && "new"@[0] == 'n',
        "del"@.len() == 3 && "del"@[0] == 'd',
{
    reveal_strlit("help");
    reveal_strlit("exit");
    reveal_strlit("list");
    reveal_strlit("select");
    reveal_strlit("new");
    reveal_strlit("del");
}

/// The text made of `before`, `name` and `after`.
fn message(before: &str, name: &String, after: &str) -> (text: String)
    ensures
        text@ == before@ + name@ + after@,
{
    let mut out = chars_of(before);
    let middle = chars_of(name.as_str());
    extend_chars(&mut out, &middle);
    let end = chars_of(after);
    extend_chars(&mut out, &end);
    string_of(&out)
}

/// An interactive shell over a database.
#[derive(Debug)]
pub struct Commander {
    db: InfuseDB,
    selected: String,
}

impl Commander {
    /// The collections of the database.
    pub closed spec fn entries(&self) -> Seq<(Seq<char>, Value)> {
        self.db@
    }

    /// The name of the selected collection; empty if none is selected.
    pub closed spec fn selection(&self) -> Seq<char> {
        self.selected@
    }

    /// Whether the database is well-formed.
    pub closed spec fn well_formed(&self) -> bool {
        self.db.well_formed()
    }

    /// A shell over `db`, with no collection selected.
    pub fn new(db: InfuseDB) -> (commander: Commander)
        ensures
            commander.entries() == db@,
            commander.selection() == Seq::<char>::empty(),
            db.well_formed() ==> commander.well_formed(),
    {
        Commander { db, selected: String::new() }
    }

    /// The database.
    pub fn db(&self) -> (db: &InfuseDB)
        ensures
            db@ == self.entries(),
            self.well_formed() ==> db.well_formed(),
    {
        &self.db
    }

    /// The prompt: the name of the selected collection, `>` and a space.
    pub fn prompt(&self) -> (text: String)
        ensures
            text@ == self.selection() + "> "@,
    {
        let mut out = chars_of(self.selected.as_str());
        let end = chars_of("> ");
        extend_chars(&mut out, &end);
        string_of(&out)
    }

    /// The names of the collections, each behind an arrow.
    fn names(&self) -> (text: String)
        ensures
            text@ == names_text(self.entries()),
    {
        let names = self.db.get_collection_list();
        let ghost entries = self.db@;
        assert(texts(names@).len() == names.len() && keys_of(entries).len() == entries.len());
        assert(forall|j: int|
            0 <= j < names.len() ==> (#[trigger] names[j])@ == texts(names@)[j]);
        let mut out: Vec<char> = Vec::new();
        let mut i: usize = 0;
        while i < names.len()
            invariant
                i <= names.len() == entries.len(),
                forall|j: int| 0 <= j < names.len() ==> (#[trigger] names[j])@ == entries[j].0,
                out@ == names_text(entries.take(i as int)),
            decreases names.len() - i,
        {
            let arrow = chars_of("-> ");
            extend_chars(&mut out, &arrow);
            let name = chars_of(names[i].as_str());
            extend_chars(&mut out, &name);
            proof {
                let longer = entries.take(i + 1);
                assert(longer.drop_last() == entries.take(i as int));
            }
            i += 1;
        }
        assert(entries.take(names.len() as int) == entries);
        string_of(&out)
    }

    /// What the selected collection answers to `line`.
    fn run_selected(&mut self, line: &str) -> (text: String)
        requires
            old(self).well_formed(),
        ensures
            final(self).well_formed(),
            final(self).selection() == old(self).selection(),
            text@ == collection_text(old(self).entries(), old(self).selection(), line@),
            final(self).entries() == (if has_key(old(self).entries(), old(self).selection()) {
                let i = key_position(old(self).entries(), old(self).selection());
                old(self).entries().update(
                    i,
                    (old(self).entries()[i].0, run_root(old(self).entries()[i].1, line@)),
                )
            } else {
                old(self).entries()
            }),
    {
        proof {
            lemma_key_position(self.db@, self.selected@);
        }
        let ghost i = key_position(self.db@, self.selected@);
        let result = match self.db.get_collection(self.selected.as_str()) {
            Some(collection) => {
                let r = collection.run(line);
                proof {
                    lemma_update_root(old(self).db@, i, collection.root_content());
                }
                r
            },
            None => Err(Error::Lookup(LookupError::CollectionNotFound)),
        };
        match result {
            Ok(value) => format_data_type(value, 0),
            Err(e) => {
                let mut out = chars_of("error: \"");
                let text = chars_of(e.message());
                extend_chars(&mut out, &text);
                let end = chars_of("\"");
                extend_chars(&mut out, &end);
                string_of(&out)
            },
        }
    }

    /// Takes one line that was typed, and says what is to be shown for it.
    pub fn step(&mut self, line: &str) -> (action: ReplAction)
        requires
            old(self).well_formed(),
        ensures
            final(self).well_formed(),
            action@ == line_shown(old(self).entries(), old(self).selection(), line@),
            final(self).entries() == line_entries(
                old(self).entries(),
                old(self).selection(),
                line@,
            ),
            final(self).selection() == line_selected(
                old(self).entries(),
                old(self).selection(),
                line@,
            ),
    {
        proof {
            lemma_command_names();
        }
        let parts = smart_split(line.to_owned());
        if parts.len() == 0 {
            return ReplAction::Nothing;
        }
        let action = parts[0].as_str();
        if same_text(action, "help") {
            return ReplAction::Help;
        }
        if same_text(action, "exit") {
            return ReplAction::Exit;
        }
        let output: Option<String> = if same_text(action, "list") {
            Some(self.names())
        } else if same_text(action, "select") {
            if parts.len() < 2 {
                Some("usage: select <collection name>".to_owned())
            } else if self.db.has_collection(parts[1].as_str()) {
                self.selected = parts[1].clone();
                Some(String::new())
            } else {
                Some(message("Collection ", &parts[1], " dont exists"))
            }
        } else if same_text(action, "new") {
            if parts.len() < 2 {
                Some("usage: new <collection name>".to_owned())
            } else if self.db.has_collection(parts[1].as_str()) {
                Some(message("Collection ", &parts[1], " already exists"))
            } else {
                let _ = self.db.create_collection(parts[1].as_str());
                Some(message("Collection ", &parts[1], " created"))
            }
        } else if same_text(action, "del") && self.selected.as_str().is_empty() {
            if parts.len() < 2 {
                Some("usage: select <collection name>".to_owned())
            } else if self.db.has_collection(parts[1].as_str()) {
                self.db.remove_collection(parts[1].clone());
                Some(String::new())
            } else {
                Some(message("Collection ", &parts[1], " dont exists"))
            }
        } else {
            None
        };
        let text = match output {
            Some(text) => text,
            None => if !self.selected.as_str().is_empty() {
                self.run_selected(line)
            } else {
                String::new()
            },
        };
        if text.as_str().is_empty() {
            ReplAction::Nothing
        } else {
            ReplAction::Print(text)
        }
    }
}

} // verus!
