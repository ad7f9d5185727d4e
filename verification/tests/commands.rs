// The command table and the result documents it produces.

use oxide::command::{Command, find, getlog, insert, listcollections, listdatabases};
use oxide::doc::{Array, Document, Value};
use oxide::header::MsgHeader;
use oxide::wire::{BodySection, OpCode, OpMsg, Section};

const ONE_BITS: u64 = 0x3FF0000000000000;

fn doc(fields: Vec<(&str, Value)>) -> Document {
    Document(fields.into_iter().map(|(k, v)| (k.to_string(), v)).collect())
}

fn msg(payload: Document) -> OpCode {
    OpCode::OpMsg(OpMsg {
        header: MsgHeader { message_length: 0, request_id: 0, response_to: 0, op_code: 2013 },
        flags: 0,
        sections: vec![Section::Body(BodySection { payload })],
        checksum: None,
    })
}

fn get<'a>(d: &'a Document, key: &str) -> &'a Value {
    d.get(key).unwrap_or_else(|| panic!("missing field {key}"))
}

fn find_request() -> OpCode {
    msg(doc(vec![
        ("find", Value::Text("test".to_string())),
        ("filter", Value::Document(Document(vec![]))),
        ("$db", Value::Text("test".to_string())),
    ]))
}

#[test]
fn test_find_simple() {
    let row = doc(vec![("a", Value::Int64(1))]);
    let rows = vec![row.to_bytes()];
    let response = find::run(&find_request(), rows).unwrap();
    assert_eq!(get(&response, "ok"), &Value::Int32(1));
    let Value::Document(cursor) = get(&response, "cursor") else {
        panic!("expected a cursor document");
    };
    let Value::Array(first_batch) = get(cursor, "firstBatch") else {
        panic!("expected a batch array");
    };
    assert_eq!(first_batch.0.len(), 1);
    let Value::Document(got) = &first_batch.0[0] else {
        panic!("expected a document row");
    };
    assert_eq!(got.get("a").unwrap(), &Value::Int64(1));
    assert_eq!(get(cursor, "ns"), &Value::Text("test.test".to_string()));
}

#[test]
fn test_find_missing_table() {
    // a collection with nothing stored yields an empty batch
    let response = find::run(&find_request(), vec![]).unwrap();
    assert_eq!(get(&response, "ok"), &Value::Int32(1));
    let Value::Document(cursor) = get(&response, "cursor") else {
        panic!("expected a cursor document");
    };
    let Value::Array(first_batch) = get(cursor, "firstBatch") else {
        panic!("expected a batch array");
    };
    assert_eq!(first_batch.0.len(), 0);
}

#[test]
fn test_insert_simple() {
    let request = msg(doc(vec![
        ("insert", Value::Text("test".to_string())),
        ("$db", Value::Text("test".to_string())),
        ("documents", Value::Array(Array(vec![Value::Document(doc(vec![(
            "a",
            Value::Int32(1),
        )]))]))),
    ]));
    let (db, coll, rows, reply) = insert::run(&request).unwrap();
    assert_eq!(db, "test");
    assert_eq!(coll, "test");
    assert_eq!(get(&reply, "ok"), &Value::Int32(1));
    // what was handed out for storage feeds straight back into a query
    let response = find::run(&find_request(), rows).unwrap();
    let Value::Document(cursor) = get(&response, "cursor") else {
        panic!("expected a cursor document");
    };
    let Value::Array(first_batch) = get(cursor, "firstBatch") else {
        panic!("expected a batch array");
    };
    assert_eq!(first_batch.0.len(), 1);
}

#[test]
fn test_getlog() {
    let response = getlog::run(&"2024-01-01T00:00:00Z".to_string()).unwrap();
    assert_eq!(get(&response, "ok"), &Value::Double(ONE_BITS));
    assert_eq!(get(&response, "totalLinesWritten"), &Value::Int32(8));
    let Value::Array(log) = get(&response, "log") else {
        panic!("expected a log array");
    };
    assert_eq!(log.0.len(), 8);
    let Value::Text(line) = &log.0[0] else {
        panic!("expected a text line");
    };
    assert!(line.contains("2024-01-01T00:00:00Z"));
    assert!(line.contains("startupWarnings"));
}

fn listcollections_request() -> OpCode {
    msg(doc(vec![
        ("listCollections", Value::Int32(1)),
        ("$db", Value::Text("test".to_string())),
    ]))
}

#[test]
fn test_list_collections_non_empty() {
    let tables = vec!["test".to_string(), "other_test".to_string()];
    let response = listcollections::run(&listcollections_request(), tables).unwrap();
    assert_eq!(get(&response, "ok"), &Value::Int32(1));
    let Value::Document(cursor) = get(&response, "cursor") else {
        panic!("expected a cursor document");
    };
    let Value::Array(first_batch) = get(cursor, "firstBatch") else {
        panic!("expected a batch array");
    };
    assert_eq!(first_batch.0.len(), 2);
    let Value::Document(first) = &first_batch.0[0] else {
        panic!("expected a document");
    };
    assert_eq!(first.get("name").unwrap(), &Value::Text("test".to_string()));
    assert_eq!(first.get("type").unwrap(), &Value::Text("collection".to_string()));
    let Value::Document(second) = &first_batch.0[1] else {
        panic!("expected a document");
    };
    assert_eq!(second.get("name").unwrap(), &Value::Text("other_test".to_string()));
}

#[test]
fn test_list_collections_empty() {
    let response = listcollections::run(&listcollections_request(), vec![]).unwrap();
    assert_eq!(get(&response, "ok"), &Value::Int32(1));
    let Value::Document(cursor) = get(&response, "cursor") else {
        panic!("expected a cursor document");
    };
    let Value::Array(first_batch) = get(cursor, "firstBatch") else {
        panic!("expected a batch array");
    };
    assert_eq!(first_batch.0.len(), 0);
}

fn listdatabases_request() -> OpCode {
    msg(doc(vec![
        ("listDatabases", Value::Int32(1)),
        ("$db", Value::Text("admin".to_string())),
    ]))
}

#[test]
fn test_list_databases_empty() {
    let response = listdatabases::run(&listdatabases_request(), vec![]).unwrap();
    assert_eq!(get(&response, "ok"), &Value::Int32(1));
    let Value::Array(databases) = get(&response, "databases") else {
        panic!("expected a databases array");
    };
    assert_eq!(databases.0.len(), 0);
}

#[test]
fn test_list_databases_non_empty() {
    let response = listdatabases::run(&listdatabases_request(), vec!["test".to_string()]).unwrap();
    let Value::Array(databases) = get(&response, "databases") else {
        panic!("expected a databases array");
    };
    assert_eq!(databases.0.len(), 1);
    let Value::Document(first) = &databases.0[0] else {
        panic!("expected a document");
    };
    assert_eq!(first.get("name").unwrap(), &Value::Text("test".to_string()));
    assert_eq!(first.get("sizeOnDisk").unwrap(), &Value::Int32(0));
}

#[test]
fn test_buildinfo_needs_modern_shape() {
    let request = msg(doc(vec![("buildInfo", Value::Int32(1))]));
    let response = Command::BuildInfo.execute(&request, 0).unwrap();
    assert_eq!(get(&response, "version"), &Value::Text("5.0.42".to_string()));
    assert_eq!(get(&response, "bits"), &Value::Int32(64));
    assert_eq!(get(&response, "ok"), &Value::Double(ONE_BITS));
}

#[test]
fn test_command_lookup_is_case_insensitive() {
    assert_eq!(Command::from_command_str("IsMaster"), Some(Command::IsMaster));
    assert_eq!(Command::from_command_str("PING"), Some(Command::Ping));
    assert_eq!(Command::from_command_str("listDatabases"), Some(Command::ListDatabases));
    assert_eq!(Command::from_command_str("frobnicate"), None);
    assert!(Command::Find.is_storage_backed());
    assert!(!Command::Ping.is_storage_backed());
}
