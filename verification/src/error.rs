//! The ways in which an operation of the library fails.

use vstd::prelude::*;

verus! {

/// A datum is not of the kind that was asked for.
#[derive(Clone, Copy, Debug, PartialEq, Eq, Structural)]
pub enum KindError {
    NotAnId,
    NotAText,
    NotANumber,
    NotABoolean,
    NotAnArray,
    NotADocument,
}

/// A value cannot be written at a path.
#[derive(Clone, Copy, Debug, PartialEq, Eq, Structural)]
pub enum PathError {
    /// The index of an array element is no number.
    InvalidIndex,
    /// The root is neither an array nor a document.
    NotSupported,
}

/// Something that was looked up is not there.
#[derive(Clone, Copy, Debug, PartialEq, Eq, Structural)]
pub enum LookupError {
    KeyNotFound,
    CollectionNotFound,
    /// A collection of that name is there already.
    CollectionExists,
}

/// A command line cannot be run.
#[derive(Clone, Copy, Debug, PartialEq, Eq, Structural)]
pub enum CommandError {
    /// The action is none of the known ones.
    UnknownCommand,
    /// The line is empty, or the action lacks an argument.
    Malformed,
}

/// Any failure of the library.
#[derive(Clone, Copy, Debug, PartialEq, Eq, Structural)]
pub enum Error {
    /// A text denotes no value.
    Parse,
    Path(PathError),
    Lookup(LookupError),
    Command(CommandError),
}

impl KindError {
    /// The message of the error.
    pub open spec fn text(self) -> Seq<char> {
        match self {
            KindError::NotAnId => "Not an ID"@,
            KindError::NotAText => "Not a Text"@,
            KindError::NotANumber => "Not a Number"@,
            KindError::NotABoolean => "Not a Boolean"@,
            KindError::NotAnArray => "Not an Array"@,
            KindError::NotADocument => "Not a Document"@,
        }
    }

    /// The message of the error.
    pub fn message(&self) -> (m: &'static str)
        ensures
            m@ == self.text(),
    {
        match self {
            KindError::NotAnId => "Not an ID",
            KindError::NotAText => "Not a Text",
            KindError::NotANumber => "Not a Number",
            KindError::NotABoolean => "Not a Boolean",
            KindError::NotAnArray => "Not an Array",
            KindError::NotADocument => "Not a Document",
        }
    }
}

impl PathError {
    /// The message of the error.
    pub open spec fn text(self) -> Seq<char> {
        match self {
            PathError::InvalidIndex => "Invalid index"@,
            PathError::NotSupported => "Not supported"@,
        }
    }

    /// The message of the error.
    pub fn message(&self) -> (m: &'static str)
        ensures
            m@ == self.text(),
    {
        match self {
            PathError::InvalidIndex => "Invalid index",
            PathError::NotSupported => "Not supported",
        }
    }
}

impl LookupError {
    /// The message of the error.
    pub open spec fn text(self) -> Seq<char> {
        match self {
            LookupError::KeyNotFound => "Key not found"@,
            LookupError::CollectionNotFound => "Collection does not exist"@,
            LookupError::CollectionExists => "Collection already exists"@,
        }
    }

    /// The message of the error.
    pub fn message(&self) -> (m: &'static str)
        ensures
            m@ == self.text(),
    {
        match self {
            LookupError::KeyNotFound => "Key not found",
            LookupError::CollectionNotFound => "Collection does not exist",
            LookupError::CollectionExists => "Collection already exists",
        }
    }
}

impl CommandError {
    /// The message of the error.
    pub open spec fn text(self) -> Seq<char> {
        match self {
            CommandError::UnknownCommand => "Unknown command"@,
            CommandError::Malformed => "Malformed command"@,
        }
    }

    /// The message of the error.
    pub fn message(&self) -> (m: &'static str)
        ensures
            m@ == self.text(),
    {
        match self {
            CommandError::UnknownCommand => "Unknown command",
            CommandError::Malformed => "Malformed command",
        }
    }
}

impl Error {
    /// The message of the error.
    pub open spec fn text(self) -> Seq<char> {
        match self {
            Error::Parse => "Invalid value"@,
            Error::Path(e) => e.text(),
            Error::Lookup(e) => e.text(),
            Error::Command(e) => e.text(),
        }
    }

    /// The message of the error.
    pub fn message(&self) -> (m: &'static str)
        ensures
            m@ == self.text(),
    {
        match self {
            Error::Parse => "Invalid value",
            Error::Path(e) => e.message(),
            Error::Lookup(e) => e.message(),
            Error::Command(e) => e.message(),
        }
    }

    /// The message of the error, as an owned string.
    pub fn to_string(&self) -> (m: String)
        ensures
            m@ == self.text(),
    {
        self.message().to_owned()
    }
}

} // verus!
