// The session state machine: framing decisions, dispatch, and replies.

use oxide::doc::{Document, Value};
use oxide::header::MsgHeader;
use oxide::reply::OpReply;
use oxide::session::{FrameDecision, FrameResult, Session, storage_reply};
use oxide::wire::{BodySection, OpCode, Section, OpMsg};

const ONE_BITS: u64 = 0x3FF0000000000000;

fn doc(fields: Vec<(&str, Value)>) -> Document {
    Document(fields.into_iter().map(|(k, v)| (k.to_string(), v)).collect())
}

fn msg_request(request_id: u32, payload: Document) -> Vec<u8> {
    let m = OpMsg {
        header: MsgHeader { message_length: 0, request_id, response_to: 0, op_code: 2013 },
        flags: 0,
        sections: vec![Section::Body(BodySection { payload })],
        checksum: None,
    };
    m.to_bytes()
}

fn reply_doc(bytes: &Vec<u8>) -> Document {
    let parsed = OpReply::parse(bytes).unwrap();
    let mut docs = parsed.documents();
    assert_eq!(docs.len(), 1);
    docs.remove(0)
}

fn get<'a>(d: &'a Document, key: &str) -> &'a Value {
    d.get(key).unwrap_or_else(|| panic!("missing field {key}"))
}

#[test]
fn test_clean_shutdown() {
    // a peer closing its write side with no pending bytes ends the session
    // without any error
    let mut session = Session::new(1);
    assert!(session.open);
    let decision = session.plan_frame(0, 0);
    assert_eq!(decision, FrameDecision::Close);
    assert!(!session.open);

    // a zero length field likewise
    let mut session2 = Session::new(2);
    let decision2 = session2.plan_frame(4, 0);
    assert_eq!(decision2, FrameDecision::Close);
    assert!(!session2.open);

    // a normal peek asks for the frame and keeps the session open
    let mut session3 = Session::new(3);
    assert_eq!(session3.plan_frame(4, 57), FrameDecision::Read(57));
    assert!(session3.open);
}

#[test]
fn test_reply_correlation() {
    // for any request id, the reply's response-to echoes it
    let request = msg_request(7714, doc(vec![("ping", Value::Int32(1))]));
    let mut session = Session::new(1);
    let FrameResult::Reply(rep) = session.handle_frame(request, 0) else {
        panic!("expected a reply");
    };
    let response_to = u32::from_le_bytes([rep[8], rep[9], rep[10], rep[11]]);
    assert_eq!(response_to, 7714);
    assert!(session.open);
}

#[test]
fn test_unknown_command() {
    let request = msg_request(3, doc(vec![("frobnicate", Value::Int32(1))]));
    let mut session = Session::new(1);
    let FrameResult::Reply(rep) = session.handle_frame(request, 0) else {
        panic!("expected a reply");
    };
    let d = reply_doc(&rep);
    assert_eq!(get(&d, "ok"), &Value::Double(0));
    assert_eq!(get(&d, "code"), &Value::Int32(59));
    assert_eq!(get(&d, "codeName"), &Value::Text("CommandNotFound".to_string()));
    assert_eq!(
        get(&d, "errmsg"),
        &Value::Text("unknown command: frobnicate".to_string())
    );
    // the connection remains open for the next frame
    assert!(session.open);
    let next = msg_request(4, doc(vec![("ping", Value::Int32(1))]));
    let FrameResult::Reply(rep2) = session.handle_frame(next, 0) else {
        panic!("expected a reply");
    };
    let d2 = reply_doc(&rep2);
    assert_eq!(get(&d2, "ok"), &Value::Double(ONE_BITS));
}

#[test]
fn test_command_extraction() {
    // a message without sections names the handshake command
    let empty = OpMsg {
        header: MsgHeader { message_length: 0, request_id: 0, response_to: 0, op_code: 2013 },
        flags: 0,
        sections: vec![],
        checksum: None,
    };
    assert_eq!(empty.command(), "ismaster");
    // a ping body names ping, case-insensitively
    let m = OpMsg {
        header: MsgHeader { message_length: 0, request_id: 0, response_to: 0, op_code: 2013 },
        flags: 0,
        sections: vec![Section::Body(BodySection {
            payload: doc(vec![
                ("Ping", Value::Int32(1)),
                ("$db", Value::Text("admin".to_string())),
            ]),
        })],
        checksum: None,
    };
    assert_eq!(m.command(), "Ping");
    assert_eq!(
        oxide::command::Command::from_command_str(&m.command()),
        Some(oxide::command::Command::Ping)
    );
}

#[test]
fn test_ismaster_dispatch() {
    let request = msg_request(11, doc(vec![("isMaster", Value::Int32(1))]));
    let mut session = Session::new(1);
    let FrameResult::Reply(rep) = session.handle_frame(request, 1700000000000) else {
        panic!("expected a reply");
    };
    let d = reply_doc(&rep);
    assert_eq!(get(&d, "ismaster"), &Value::Boolean(true));
    assert_eq!(get(&d, "localTime"), &Value::UtcDateTime(1700000000000));
    assert_eq!(get(&d, "maxWireVersion"), &Value::Int32(13));
    assert_eq!(get(&d, "ok"), &Value::Double(ONE_BITS));
}

#[test]
fn test_malformed_frame_closes_session() {
    let mut session = Session::new(1);
    let result = session.handle_frame(vec![1, 2, 3], 0);
    assert!(matches!(result, FrameResult::Abort(_)));
    assert!(!session.open);
}

#[test]
fn test_storage_dispatch() {
    let request = msg_request(
        21,
        doc(vec![
            ("insert", Value::Text("things".to_string())),
            ("$db", Value::Text("test".to_string())),
            ("documents", Value::Array(oxide::doc::Array(vec![Value::Document(doc(vec![(
                "a",
                Value::Int32(1),
            )]))]))),
        ]),
    );
    let mut session = Session::new(1);
    let FrameResult::Storage(call) = session.handle_frame(request, 0) else {
        panic!("expected a storage call");
    };
    assert_eq!(call.command, oxide::command::Command::Insert);
    let (db, coll, rows, reply) = oxide::command::insert::run(&call.request).unwrap();
    assert_eq!(db, "test");
    assert_eq!(coll, "things");
    assert_eq!(rows.len(), 1);
    assert!(reply.is_wf());
    let bytes = storage_reply(&call.request, Ok(reply));
    let d = reply_doc(&bytes);
    assert_eq!(get(&d, "ok"), &Value::Int32(1));
    let response_to = u32::from_le_bytes([bytes[8], bytes[9], bytes[10], bytes[11]]);
    assert_eq!(response_to, 21);
}

fn legacy_request(request_id: u32, payload: Document) -> Vec<u8> {
    let qbytes = payload.to_bytes();
    let mut body: Vec<u8> = Vec::new();
    body.extend_from_slice(&0u32.to_le_bytes());
    body.extend_from_slice(b"admin.$cmd\x00");
    body.extend_from_slice(&0u32.to_le_bytes());
    body.extend_from_slice(&0u32.to_le_bytes());
    body.extend_from_slice(&qbytes);
    let total = (body.len() + 16) as u32;
    let mut out: Vec<u8> = Vec::new();
    out.extend_from_slice(&total.to_le_bytes());
    out.extend_from_slice(&request_id.to_le_bytes());
    out.extend_from_slice(&0u32.to_le_bytes());
    out.extend_from_slice(&2004u32.to_le_bytes());
    out.extend_from_slice(&body);
    out
}

#[test]
fn test_legacy_query_scenario() {
    // a legacy handshake gets a legacy reply with a one-document batch
    let request = legacy_request(7, doc(vec![("isMaster", Value::Int32(1))]));
    let mut session = Session::new(1);
    let FrameResult::Reply(rep) = session.handle_frame(request, 5) else {
        panic!("expected a reply");
    };
    let parsed = OpReply::parse(&rep).unwrap();
    let OpReply::OpQuery(reply) = parsed else {
        panic!("expected a legacy reply");
    };
    assert_eq!(reply.header.op_code, 1);
    assert_eq!(reply.header.response_to, 7);
    assert_eq!(reply.number_returned, 1);
    assert_eq!(
        reply.documents[0].get("ismaster").unwrap(),
        &Value::Boolean(true)
    );
}

#[test]
fn test_modern_only_command_over_legacy_shape() {
    // a command that demands the modern shape degrades to an error document
    let request = legacy_request(8, doc(vec![("buildInfo", Value::Int32(1))]));
    let mut session = Session::new(1);
    let FrameResult::Reply(rep) = session.handle_frame(request, 0) else {
        panic!("expected a reply");
    };
    let d = reply_doc(&rep);
    assert_eq!(get(&d, "ok"), &Value::Double(0));
    assert_eq!(
        get(&d, "errmsg"),
        &Value::Text("invalid op code".to_string())
    );
    assert!(session.open);
}
