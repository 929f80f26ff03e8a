use nanodb::command::process_command;
use nanodb::store::InMemoryDB;

#[test]
fn test_set_command() {
    let mut db = InMemoryDB::new();
    let key = "test_key";
    let value = "{\"age\":30,\"name\":\"Alice\"}";
    let command = format!("set {} {}", key, value);

    let response = process_command(&command, &mut db, 0);
    assert!(response.contains("Set key 'test_key'"));

    // Check that the key was actually set in the database
    let stored_value = db.get(key, 0).expect("Value should be present");
    assert_eq!(stored_value, value);
}

#[test]
fn test_get_command_existing_key() {
    let mut db = InMemoryDB::new();
    let key = "existing_key";
    let value = "{\"data\":\"sample\"}";
    db.set(key.to_string(), value.to_string(), None, 0);

    let command = format!("get {}", key);
    let response = process_command(&command, &mut db, 0);
    assert!(response.contains("Value for 'existing_key': {\"data\":\"sample\"}"));
}

#[test]
fn test_get_command_non_existing_key() {
    let mut db = InMemoryDB::new();
    let command = "get non_existing_key";
    let response = process_command(command, &mut db, 0);
    assert!(response.contains("Key 'non_existing_key' not found or expired"));
}

#[test]
fn test_delete_command_existing_key() {
    let mut db = InMemoryDB::new();
    let key = "delete_key";
    db.set(key.to_string(), "value".to_string(), None, 0);

    let command = format!("delete {}", key);
    let response = process_command(&command, &mut db, 0);
    assert!(response.contains("Deleted key 'delete_key'"));

    // Ensure the key is actually deleted
    let deleted_value = db.get(key, 0);
    assert!(deleted_value.is_none());
}

#[test]
fn test_delete_command_non_existing_key() {
    let mut db = InMemoryDB::new();
    let command = "delete non_existing_key";
    let response = process_command(command, &mut db, 0);
    assert!(response.contains("Key 'non_existing_key' not found"));
}

#[test]
fn set_then_get_round_trip() {
    let mut db = InMemoryDB::new();
    let set_response = process_command("set foo {\"a\":1}", &mut db, 7);
    assert_eq!(set_response, "Set key 'foo' with JSON value '{\"a\":1}'\n");
    let get_response = process_command("get foo", &mut db, 99);
    assert!(get_response.contains("Value for 'foo': {\"a\":1}"));
}

#[test]
fn delete_missing_exact_response() {
    let mut db = InMemoryDB::new();
    let response = process_command("delete missing", &mut db, 0);
    assert_eq!(response, "Key 'missing' not found\n");
}

#[test]
fn empty_line_is_invalid_command() {
    let mut db = InMemoryDB::new();
    assert_eq!(process_command("", &mut db, 0), "Invalid command\n");
    assert_eq!(process_command("   \t \n", &mut db, 0), "Invalid command\n");
}

#[test]
fn unknown_command_response() {
    let mut db = InMemoryDB::new();
    assert_eq!(process_command("bogus thing", &mut db, 0), "Unknown command\n");
}

#[test]
fn exit_says_goodbye() {
    let mut db = InMemoryDB::new();
    assert_eq!(process_command("exit", &mut db, 0), "Goodbye!\n");
}

#[test]
fn usage_errors() {
    let mut db = InMemoryDB::new();
    assert_eq!(
        process_command("set onlykey", &mut db, 0),
        "Usage: set <key> <json_value> [ttl]\n"
    );
    assert_eq!(process_command("get", &mut db, 0), "Usage: get <key>\n");
    assert_eq!(process_command("delete", &mut db, 0), "Usage: delete <key>\n");
}

#[test]
fn invalid_json_is_rejected_without_mutation() {
    let mut db = InMemoryDB::new();
    let response = process_command("set k {broken", &mut db, 0);
    assert_eq!(response, "Invalid JSON format\n");
    let get_response = process_command("get k", &mut db, 0);
    assert_eq!(get_response, "Key 'k' not found or expired\n");
}

#[test]
fn json_value_is_canonicalized() {
    // The stored and reported value is serde_json's compact rendering, not
    // the client's spelling: keys sorted, separators tightened.
    let mut db = InMemoryDB::new();
    let response = process_command("set k {\"b\":1, \"a\":2}", &mut db, 0);
    assert_eq!(response, "Set key 'k' with JSON value '{\"a\":2,\"b\":1}'\n");
    let stored = db.get("k", 0).expect("value should be present");
    assert_eq!(stored, "{\"a\":2,\"b\":1}");
}

#[test]
fn trailing_integer_is_a_ttl() {
    let mut db = InMemoryDB::new();
    let response = process_command("set k 5 10", &mut db, 100);
    assert_eq!(response, "Set key 'k' with JSON value '5'\n");
    assert_eq!(db.get("k", 109), Some("5".to_string()));
    assert_eq!(db.get("k", 110), None);
}

#[test]
fn non_integer_tail_is_part_of_the_value() {
    let mut db = InMemoryDB::new();
    let response = process_command("set k [1, 2]", &mut db, 0);
    assert_eq!(response, "Set key 'k' with JSON value '[1,2]'\n");
    assert_eq!(db.get("k", u64::MAX), Some("[1,2]".to_string()));
}

#[test]
fn set_with_zero_ttl_expires_immediately() {
    let mut db = InMemoryDB::new();
    let response = process_command("set k true 0", &mut db, 42);
    assert_eq!(response, "Set key 'k' with JSON value 'true'\n");
    let get_response = process_command("get k", &mut db, 42);
    assert_eq!(get_response, "Key 'k' not found or expired\n");
}

#[test]
fn re_set_clears_previous_ttl() {
    let mut db = InMemoryDB::new();
    process_command("set k 1 5", &mut db, 0);
    process_command("set k 2", &mut db, 0);
    assert_eq!(db.get("k", 1000), Some("2".to_string()));
}

#[test]
fn delete_of_an_expired_key_reports_not_found() {
    let mut db = InMemoryDB::new();
    process_command("set k 1 0", &mut db, 5);
    let response = process_command("delete k", &mut db, 5);
    assert_eq!(response, "Key 'k' not found\n");
}
