use infusedb::client::{read_response, stored, write_get, write_list, write_set};
use infusedb::database::InfuseDB;
use infusedb::server::{ServerAction, ServerEvent, ServerState};
use infusedb::value::DataType;

/// A server over a database whose default collection holds a name.
fn server() -> ServerState {
    let mut db = InfuseDB::new();
    db.create_collection("default").unwrap();
    db.get_collection("default").unwrap().run("set name \"Alberto Ruiz\"").unwrap();
    ServerState::new(db)
}

/// Connects, as a client does: the server greets and hands out a token.
fn connect(server: &mut ServerState) -> Result<usize, &'static str> {
    match server.step(ServerEvent::Accepted) {
        ServerAction::Greet { token, banner } if banner.starts_with("InfuseDB ") => Ok(token),
        _ => Err("Error connecting to host"),
    }
}

/// Sends one request and reads the answer, as a client does.
fn call(server: &mut ServerState, token: usize, request: String) -> Result<DataType, &'static str> {
    match server.step(ServerEvent::Received { token, data: request.into_bytes() }) {
        ServerAction::Reply { answer, .. } => read_response(answer),
        _ => Err("Error reading socket"),
    }
}

#[test]
fn test_basic() {
    let mut server = server();
    let client = connect(&mut server);
    assert!(client.is_ok());
    let token = client.unwrap();
    assert_eq!(server.step(ServerEvent::Closed { token }), ServerAction::Drop { token });
}

#[test]
fn test_get() {
    let mut server = server();
    let client = connect(&mut server);
    assert!(client.is_ok());
    let token = client.unwrap();
    let name = call(&mut server, token, write_get("name"));
    assert!(name.is_ok());
    let name = name.unwrap();
    let name = name.to_text().unwrap();
    assert_eq!(name, "Alberto Ruiz");
    assert_eq!(server.step(ServerEvent::Closed { token }), ServerAction::Drop { token });
}

#[test]
fn a_client_sets_and_lists() {
    let mut server = server();
    let token = connect(&mut server).unwrap();
    let answer = call(&mut server, token, write_set("age", &DataType::from(42))).unwrap();
    assert_eq!(stored(&answer), Ok(()));
    assert_eq!(call(&mut server, token, write_get("age")), Ok(DataType::from(42)));
    assert_eq!(
        call(&mut server, token, write_list()),
        Ok(DataType::Array(vec![DataType::from("name"), DataType::from("age")]))
    );
}

#[test]
fn requests_end_with_a_line_break() {
    assert_eq!(write_get("name"), "get name\n");
    assert_eq!(write_list(), "list\n");
    assert_eq!(write_set("name", &DataType::from("Alberto Ruiz")), "set name \"Alberto Ruiz\"\n");
    assert_eq!(
        write_set("tags", &DataType::Array(vec![DataType::from(1), DataType::from(true)])),
        "set tags [1, true]\n"
    );
}

#[test]
fn responses_are_read_as_values() {
    assert_eq!(read_response("\"Alberto Ruiz\"\r\n".to_string()), Ok(DataType::from("Alberto Ruiz")));
    assert_eq!(read_response("true\r\n".to_string()), Ok(DataType::from(true)));
    assert_eq!(
        read_response("[\"a\", \"b\"]\r\n".to_string()),
        Ok(DataType::Array(vec![DataType::from("a"), DataType::from("b")]))
    );
    assert_eq!(read_response("Key not found\r\n".to_string()), Ok(DataType::from("Key not found")));
    assert_eq!(read_response("\r\n".to_string()), Ok(DataType::from("")));
    assert_eq!(read_response("".to_string()), Err("No data readed"));
}

#[test]
fn only_true_says_that_a_value_was_stored() {
    assert_eq!(stored(&DataType::from(true)), Ok(()));
    assert_eq!(stored(&DataType::from(false)), Err(""));
    assert_eq!(stored(&DataType::from("true")), Err(""));
    assert_eq!(stored(&DataType::from(1)), Err(""));
}
