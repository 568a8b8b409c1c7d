//! An embedded document database.
//!
//! A database holds named collections. A collection holds one root value,
//! by convention a document, which is read and written by short commands:
//! `get <key>`, `set <key> <value>` and `list`. Values are identifiers, texts,
//! numbers, booleans, arrays and documents, and have one textual form, which is
//! used on the wire, on the screen and in the file that keeps a database.
//!
//! The library computes and decides; it opens no file and no socket. A program
//! around it reads lines, bytes and files, hands them over, and carries out
//! what comes back.

pub mod client;
pub mod collection;
pub mod commander;
pub mod database;
pub mod error;
pub mod format;
pub mod grammar;
pub mod id;
pub mod path;
pub mod round_trip;
pub mod server;
pub mod text;
pub mod utils;
pub mod value;

pub use collection::Collection;
pub use database::{InfuseDB, VERSION};
pub use value::{DataType, Document};
