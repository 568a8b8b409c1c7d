use infusedb::collection::{Collection, Command};
use infusedb::error::{CommandError, Error, LookupError, PathError};
use infusedb::value::{DataType, Document};

#[test]
fn commands_are_read_from_lines() {
    assert_eq!(Command::parse("get name"), Ok(Command::Get("name".to_string())));
    assert_eq!(Command::parse("  list \n"), Ok(Command::List));
    assert_eq!(
        Command::parse("set k 1"),
        Ok(Command::Put("k".to_string(), "1".to_string()))
    );
    assert_eq!(
        Command::parse("set k [1,  2,   3]"),
        Ok(Command::Put("k".to_string(), "[1, 2, 3]".to_string()))
    );
    assert_eq!(
        Command::parse("set name \"Alberto  Ruiz\""),
        Ok(Command::Put("name".to_string(), "\"Alberto  Ruiz\"".to_string()))
    );
}

#[test]
fn bad_lines_are_refused() {
    assert_eq!(Command::parse(""), Err(CommandError::Malformed));
    assert_eq!(Command::parse("   "), Err(CommandError::Malformed));
    assert_eq!(Command::parse("get"), Err(CommandError::Malformed));
    assert_eq!(Command::parse("get a b"), Err(CommandError::Malformed));
    assert_eq!(Command::parse("set"), Err(CommandError::Malformed));
    assert_eq!(Command::parse("set k"), Err(CommandError::Malformed));
    assert_eq!(Command::parse("list all"), Err(CommandError::Malformed));
    assert_eq!(Command::parse("frobnicate"), Err(CommandError::UnknownCommand));
    assert_eq!(Command::parse("GET k"), Err(CommandError::UnknownCommand));
    assert_eq!(Command::parse("\"get\" k"), Err(CommandError::UnknownCommand));
}

#[test]
fn unknown_command() {
    let mut collection = Collection::new("c");
    collection.run("set k 1").unwrap();
    let before = collection.root().clone();
    let result = collection.run("frobnicate");
    assert_eq!(result, Err(Error::Command(CommandError::UnknownCommand)));
    assert_eq!(collection.root(), &before);
    assert_eq!(Error::Command(CommandError::UnknownCommand).to_string(), "Unknown command");
    assert_eq!(collection.run(""), Err(Error::Command(CommandError::Malformed)));
    assert_eq!(collection.root(), &before);
    assert_eq!(Error::Command(CommandError::Malformed).to_string(), "Malformed command");
}

#[test]
fn a_new_collection_is_an_empty_document() {
    let collection = Collection::new("people");
    assert_eq!(collection.name(), "people");
    assert_eq!(collection.root(), &DataType::Document(Document::new()));
}

#[test]
fn set_then_get() {
    let mut collection = Collection::new("c");
    assert_eq!(collection.run("set name \"Alberto Ruiz\""), Ok(DataType::Boolean(true)));
    assert_eq!(collection.run("set age 42"), Ok(DataType::Boolean(true)));
    assert_eq!(collection.run("set tags [1, \"two\", true]"), Ok(DataType::Boolean(true)));
    assert_eq!(collection.run("get name"), Ok(DataType::from("Alberto Ruiz")));
    assert_eq!(collection.run("get age"), Ok(DataType::from(42)));
    assert_eq!(
        collection.run("get tags"),
        Ok(DataType::Array(vec![DataType::from(1), DataType::from("two"), DataType::from(true)]))
    );
    assert_eq!(collection.run("set age 43"), Ok(DataType::Boolean(true)));
    assert_eq!(collection.run("get age"), Ok(DataType::from(43)));
    assert_eq!(
        collection.run("list"),
        Ok(DataType::Array(vec![
            DataType::from("name"),
            DataType::from("age"),
            DataType::from("tags")
        ]))
    );
}

#[test]
fn get_of_a_missing_key() {
    let mut collection = Collection::new("c");
    assert_eq!(collection.run("get nothing"), Err(Error::Lookup(LookupError::KeyNotFound)));
    assert_eq!(Error::Lookup(LookupError::KeyNotFound).to_string(), "Key not found");
}

#[test]
fn list_of_an_empty_collection() {
    let mut collection = Collection::new("c");
    assert_eq!(collection.run("list"), Ok(DataType::Array(Vec::new())));
    assert_eq!(collection.run("list").unwrap().to_string(), "[]");
}

#[test]
fn an_array_root_is_addressed_by_position() {
    let root = DataType::Array(vec![DataType::from(1)]);
    let mut collection = Collection::from_root("a".to_string(), root);
    assert_eq!(collection.run("get 0"), Ok(DataType::from(1)));
    assert_eq!(collection.run("get 1"), Err(Error::Lookup(LookupError::KeyNotFound)));
    assert_eq!(collection.run("get x"), Err(Error::Lookup(LookupError::KeyNotFound)));
    assert_eq!(collection.run("set 2 true"), Ok(DataType::Boolean(true)));
    assert_eq!(
        collection.root(),
        &DataType::Array(vec![DataType::from(1), DataType::from(""), DataType::from(true)])
    );
    assert_eq!(collection.run("set x 1"), Err(Error::Path(PathError::InvalidIndex)));
    assert_eq!(Error::Path(PathError::InvalidIndex).to_string(), "Invalid index");
    assert_eq!(collection.run("list"), Ok(DataType::Array(Vec::new())));
}

#[test]
fn a_scalar_root_cannot_be_written() {
    let mut collection = Collection::from_root("s".to_string(), DataType::from(5));
    assert_eq!(collection.run("set k 1"), Err(Error::Path(PathError::NotSupported)));
    assert_eq!(Error::Path(PathError::NotSupported).to_string(), "Not supported");
    assert_eq!(collection.run("get k"), Err(Error::Lookup(LookupError::KeyNotFound)));
    assert_eq!(collection.root(), &DataType::from(5));
}

fn run_all(lines: &[&str]) -> Collection {
    let mut collection = Collection::new("shared");
    for line in lines {
        assert_eq!(collection.run(line), Ok(DataType::Boolean(true)));
    }
    collection
}

#[test]
fn two_writers_in_either_order() {
    for order in [["set k1 1", "set k2 2"], ["set k2 2", "set k1 1"]] {
        let mut collection = run_all(&order);
        assert_eq!(collection.run("get k1"), Ok(DataType::from(1)));
        assert_eq!(collection.run("get k2"), Ok(DataType::from(2)));
    }
}
