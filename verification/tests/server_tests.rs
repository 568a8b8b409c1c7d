use infusedb::database::InfuseDB;
use infusedb::server::{
    process_request, ServerAction, ServerEvent, ServerState, DEFAULT_COLLECTION, LISTENER,
};

fn database() -> InfuseDB {
    let mut db = InfuseDB::new();
    db.create_collection(DEFAULT_COLLECTION).unwrap();
    db
}

fn received(token: usize, text: &str) -> ServerEvent {
    ServerEvent::Received { token, data: text.as_bytes().to_vec() }
}

fn reply(token: usize, text: &str) -> ServerAction {
    ServerAction::Reply { token, answer: text.to_string() }
}

#[test]
fn requests_are_answered_as_text() {
    let mut db = database();
    assert_eq!(process_request(&mut db, "list"), "[]");
    assert_eq!(process_request(&mut db, "set name \"Alberto Ruiz\""), "true");
    assert_eq!(process_request(&mut db, "get name\n"), "\"Alberto Ruiz\"");
    assert_eq!(process_request(&mut db, "list\n"), "[\"name\"]");
    assert_eq!(process_request(&mut db, "get other"), "Key not found");
    assert_eq!(process_request(&mut db, "frobnicate"), "Unknown command");
    assert_eq!(process_request(&mut db, ""), "Malformed command");
    assert_eq!(db.dump_to_text(), "{default: {name: \"Alberto Ruiz\", }, }");
}

#[test]
fn a_request_without_the_default_collection() {
    let mut db = InfuseDB::new();
    db.create_collection("other").unwrap();
    assert_eq!(process_request(&mut db, "list"), "Collection does not exist");
    assert_eq!(db.dump_to_text(), "{other: {}, }");
}

#[test]
fn smoke() {
    let mut server = ServerState::new(database());
    let greeted = server.step(ServerEvent::Accepted);
    assert_eq!(
        greeted,
        ServerAction::Greet { token: 1, banner: "InfuseDB 0.1.0\r\n".to_string() }
    );
    assert_eq!(server.step(received(1, "list\n")), reply(1, "[]\r\n"));
    let second = server.step(ServerEvent::Accepted);
    assert_eq!(
        second,
        ServerAction::Greet { token: 2, banner: "InfuseDB 0.1.0\r\n".to_string() }
    );
    assert_eq!(server.step(received(2, "set k 1\n")), reply(2, "true\r\n"));
    assert_eq!(server.step(ServerEvent::Closed { token: 2 }), ServerAction::Drop { token: 2 });
    assert_eq!(server.step(received(1, "get k\n")), reply(1, "1\r\n"));
    assert_eq!(server.step(received(2, "get k\n")), ServerAction::Wait);
}

#[test]
fn tokens_are_never_given_twice() {
    let mut server = ServerState::new(database());
    assert_eq!(LISTENER, 0);
    for expected in 1..5usize {
        match server.step(ServerEvent::Accepted) {
            ServerAction::Greet { token, .. } => assert_eq!(token, expected),
            other => panic!("{:?}", other),
        }
        assert_eq!(
            server.step(ServerEvent::Closed { token: expected }),
            ServerAction::Drop { token: expected }
        );
    }
}

#[test]
fn bytes_that_are_no_text_close_the_connection() {
    let mut server = ServerState::new(database());
    server.step(ServerEvent::Accepted);
    server.step(ServerEvent::Accepted);
    let bad = ServerEvent::Received { token: 1, data: vec![0x67, 0x65, 0x74, 0xff, 0xfe] };
    assert_eq!(server.step(bad), ServerAction::Drop { token: 1 });
    assert_eq!(server.step(received(1, "list")), ServerAction::Wait);
    assert_eq!(server.step(received(2, "list")), reply(2, "[]\r\n"));
}

#[test]
fn text_beyond_ascii_is_decoded() {
    let mut server = ServerState::new(database());
    server.step(ServerEvent::Accepted);
    assert_eq!(server.step(received(1, "set k \"ñandú €\"")), reply(1, "true\r\n"));
    assert_eq!(server.step(received(1, "get k")), reply(1, "\"ñandú €\"\r\n"));
}

#[test]
fn failures_and_idle_connections() {
    let mut server = ServerState::new(database());
    server.step(ServerEvent::Accepted);
    server.step(ServerEvent::Accepted);
    assert_eq!(server.step(ServerEvent::WouldBlock { token: 1 }), ServerAction::Wait);
    assert_eq!(server.step(ServerEvent::Failed { token: 1 }), ServerAction::Drop { token: 1 });
    assert_eq!(server.step(ServerEvent::Failed { token: 1 }), ServerAction::Wait);
    assert_eq!(server.step(ServerEvent::Closed { token: 9 }), ServerAction::Wait);
    assert_eq!(server.step(received(2, "frobnicate")), reply(2, "Unknown command\r\n"));
    assert_eq!(server.step(received(2, "list")), reply(2, "[]\r\n"));
}

#[test]
fn two_connections_write_in_either_order() {
    for order in [[(1usize, "set k1 1"), (2usize, "set k2 2")], [(2, "set k2 2"), (1, "set k1 1")]] {
        let mut server = ServerState::new(database());
        server.step(ServerEvent::Accepted);
        server.step(ServerEvent::Accepted);
        for (token, line) in order {
            assert_eq!(server.step(received(token, line)), reply(token, "true\r\n"));
        }
        assert_eq!(server.step(received(1, "get k2")), reply(1, "2\r\n"));
        assert_eq!(server.step(received(2, "get k1")), reply(2, "1\r\n"));
        assert_eq!(server.db().get_collection_list(), vec!["default"]);
    }
}
