use infusedb::commander::{Commander, ReplAction};
use infusedb::database::InfuseDB;

fn print(text: &str) -> ReplAction {
    ReplAction::Print(text.to_string())
}

fn commander() -> Commander {
    let mut db = InfuseDB::new();
    db.create_collection("default").unwrap();
    Commander::new(db)
}

#[test]
fn a_new_shell_selects_nothing() {
    let shell = commander();
    assert_eq!(shell.prompt(), "> ");
    assert_eq!(shell.db().get_collection_list(), vec!["default"]);
}

#[test]
fn help_exit_and_empty_lines() {
    let mut shell = commander();
    assert_eq!(shell.step("help"), ReplAction::Help);
    assert_eq!(shell.step("  exit  "), ReplAction::Exit);
    assert_eq!(shell.step(""), ReplAction::Nothing);
    assert_eq!(shell.step("   "), ReplAction::Nothing);
}

#[test]
fn collections_are_made_listed_and_deleted() {
    let mut shell = commander();
    assert_eq!(shell.step("list"), print("-> default"));
    assert_eq!(shell.step("new people"), print("Collection people created"));
    assert_eq!(shell.step("new people"), print("Collection people already exists"));
    assert_eq!(shell.step("new"), print("usage: new <collection name>"));
    assert_eq!(shell.step("list"), print("-> default-> people"));
    assert_eq!(shell.step("del nothing"), print("Collection nothing dont exists"));
    assert_eq!(shell.step("del"), print("usage: select <collection name>"));
    assert_eq!(shell.step("del default"), ReplAction::Nothing);
    assert_eq!(shell.step("list"), print("-> people"));
    assert_eq!(shell.step("del people"), ReplAction::Nothing);
    assert_eq!(shell.step("list"), ReplAction::Nothing);
}

#[test]
fn lines_go_to_the_selected_collection() {
    let mut shell = commander();
    assert_eq!(shell.step("set k 1"), ReplAction::Nothing);
    assert_eq!(shell.step("select nothing"), print("Collection nothing dont exists"));
    assert_eq!(shell.step("select"), print("usage: select <collection name>"));
    assert_eq!(shell.prompt(), "> ");
    assert_eq!(shell.step("select default"), ReplAction::Nothing);
    assert_eq!(shell.prompt(), "default> ");
    assert_eq!(shell.step("set k 1"), print("true"));
    assert_eq!(shell.step("set doc {a: 1, b: {c: \"x\"}}"), print("true"));
    assert_eq!(shell.step("get k"), print("1"));
    assert_eq!(shell.step("get doc"), print("a: 1\nb: \n c: \"x\"\n\n"));
    assert_eq!(shell.step("get nothing"), print("error: \"Key not found\""));
    assert_eq!(shell.step("frobnicate"), print("error: \"Unknown command\""));
    assert_eq!(shell.step("del default"), print("error: \"Unknown command\""));
    assert_eq!(shell.step("list"), print("-> default"));
    assert_eq!(
        shell.db().dump_to_text(),
        "{default: {k: 1, doc: {a: 1, b: {c: \"x\", }, }, }, }"
    );
}
