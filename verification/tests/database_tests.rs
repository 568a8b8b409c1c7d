use infusedb::database::{InfuseDB, DEFAULT_PATH, VERSION};
use infusedb::error::{Error, LookupError};
use infusedb::value::DataType;

#[test]
fn a_new_database_is_empty() {
    let db = InfuseDB::new();
    assert_eq!(db.get_collection_list(), Vec::<String>::new());
    assert_eq!(db.path(), DEFAULT_PATH);
    assert_eq!(DEFAULT_PATH, "default.mdb");
    assert_eq!(VERSION, "0.1.0");
    assert_eq!(db.dump_to_text(), "{}");
}

#[test]
fn collections_come_and_go() {
    let mut db = InfuseDB::new();
    assert_eq!(db.create_collection("a"), Ok(()));
    assert_eq!(db.create_collection("b"), Ok(()));
    assert_eq!(db.create_collection("a"), Err(Error::Lookup(LookupError::CollectionExists)));
    assert_eq!(
        Error::Lookup(LookupError::CollectionExists).to_string(),
        "Collection already exists"
    );
    assert_eq!(db.get_collection_list(), vec!["a", "b"]);
    assert!(db.has_collection("a"));
    assert!(!db.has_collection("c"));
    assert!(db.get_collection("c").is_none());
    assert!(!db.remove_collection("c".to_string()));
    assert!(db.remove_collection("a".to_string()));
    assert_eq!(db.get_collection_list(), vec!["b"]);
    assert!(db.get_collection("a").is_none());
    assert_eq!(db.get_collection("b").unwrap().name(), "b");
}

#[test]
fn a_collection_is_written_through_the_database() {
    let mut db = InfuseDB::new();
    db.create_collection("a").unwrap();
    db.create_collection("b").unwrap();
    db.get_collection("b").unwrap().run("set k 1").unwrap();
    assert_eq!(db.get_collection("b").unwrap().run("get k"), Ok(DataType::from(1)));
    assert_eq!(
        db.get_collection("a").unwrap().run("get k"),
        Err(Error::Lookup(LookupError::KeyNotFound))
    );
    assert_eq!(db.dump_to_text(), "{a: {}, b: {k: 1, }, }");
}

#[test]
fn the_path_can_be_changed() {
    let mut db = InfuseDB::new();
    db.create_collection("a").unwrap();
    db.set_path("/tmp/other.mdb".to_string());
    assert_eq!(db.path(), "/tmp/other.mdb");
    assert_eq!(db.get_collection_list(), vec!["a"]);
}

#[test]
fn load_reads_what_dump_wrote() {
    let mut db = InfuseDB::new();
    db.create_collection("default").unwrap();
    db.create_collection("people").unwrap();
    db.get_collection("default").unwrap().run("set name \"Alberto Ruiz\"").unwrap();
    db.get_collection("default").unwrap().run("set tags [1, [2, 3], {a: b, }]").unwrap();
    db.get_collection("people").unwrap().run("set id 550e8400-e29b-41d4-a716-446655440000").unwrap();
    let text = db.dump_to_text();
    assert_eq!(
        text,
        "{default: {name: \"Alberto Ruiz\", tags: [1, [2, 3], {a: \"b\", }], }, \
         people: {id: 550e8400-e29b-41d4-a716-446655440000, }, }"
    );
    let mut loaded = InfuseDB::load_from_text("some.mdb", &text).unwrap();
    assert_eq!(loaded.path(), "some.mdb");
    assert_eq!(loaded.get_collection_list(), vec!["default", "people"]);
    assert_eq!(loaded.dump_to_text(), text);
    assert_eq!(
        loaded.get_collection("default").unwrap().run("get name"),
        Ok(DataType::from("Alberto Ruiz"))
    );
    assert_eq!(
        loaded.get_collection("people").unwrap().run("get id"),
        Ok(DataType::Id(0x550e8400_e29b_41d4_a716_446655440000))
    );
}

#[test]
fn load_of_an_empty_database() {
    let db = InfuseDB::load_from_text("p", "{}").unwrap();
    assert_eq!(db.get_collection_list(), Vec::<String>::new());
    let db = InfuseDB::load_from_text("p", "  {}\n").unwrap();
    assert_eq!(db.dump_to_text(), "{}");
}

#[test]
fn load_refuses_what_is_no_document() {
    for text in ["", "42", "[1, 2]", "hello", "{", "true"] {
        let result = InfuseDB::load_from_text("p", text);
        assert_eq!(result.err(), Some(Error::Parse), "for {}", text);
    }
    assert_eq!(Error::Parse.to_string(), "Invalid value");
}
