// The byte-level codec, exercised end to end: documents, requests, replies.

use oxide::bson::Bson;
use oxide::doc::{Array, Document, Value};
use oxide::header::MsgHeader;
use oxide::reply::{OpMsgReply, OpQueryReply, OpReply, ResponseFlag};
use oxide::wire::{BodySection, OpCode, OpMsg, ParserError, Section, parse, parse_header};

fn doc(fields: Vec<(&str, Value)>) -> Document {
    Document(fields.into_iter().map(|(k, v)| (k.to_string(), v)).collect())
}

fn ping_request(request_id: u32) -> OpMsg {
    OpMsg {
        header: MsgHeader { message_length: 0, request_id, response_to: 0, op_code: 2013 },
        flags: 0,
        sections: vec![Section::Body(BodySection {
            payload: doc(vec![
                ("ping", Value::Int32(1)),
                ("$db", Value::Text("admin".to_string())),
            ]),
        })],
        checksum: None,
    }
}

#[test]
fn test_simple_bson() {
    let data = vec![
        0x16, 0x00, 0x00, 0x00, // total document size
        0x02, // type String
        0x68, 0x65, 0x6c, 0x6c, 0x6f, 0x00, // field name "hello"
        0x06, 0x00, 0x00, 0x00, 0x77, 0x6f, 0x72, 0x6c, 0x64, 0x00, // field value "world"
        0x00, // end of object
    ];
    let parsed = Bson::new(data).parse().unwrap();
    assert_eq!(parsed.0.len(), 1);
    assert_eq!(parsed.0[0].0, "hello");
    assert_eq!(parsed.0[0].1, Value::Text("world".to_string()));
}

#[test]
fn test_nested_bson() {
    let data = vec![
        0x2a, 0x00, 0x00, 0x00, // total document size
        0x03, // type embedded document
        0x6e, 0x65, 0x73, 0x74, 0x65, 0x64, 0x00, // field name "nested"
        0x1d, 0x00, 0x00, 0x00, // size of the nested document
        0x02, // type String
        0x6e, 0x61, 0x6d, 0x65, 0x00, // field name "name"
        0x05, 0x00, 0x00, 0x00, // string size
        0x42, 0x53, 0x4f, 0x4e, 0x00, // field value "BSON"
        0x10, // type 32-bit integer
        0x61, 0x67, 0x65, 0x00, // field name "age"
        0x1e, 0x00, 0x00, 0x00, // field value 30
        0x00, // end of the nested document
        0x00, // end of the outer document
    ];
    let parsed = Bson::new(data).parse().unwrap();
    assert_eq!(parsed.0.len(), 1);
    assert_eq!(parsed.0[0].0, "nested");
    match &parsed.0[0].1 {
        Value::Document(inner) => {
            assert_eq!(inner.0.len(), 2);
            assert_eq!(inner.0[0], ("name".to_string(), Value::Text("BSON".to_string())));
            assert_eq!(inner.0[1], ("age".to_string(), Value::Int32(30)));
        },
        other => panic!("expected a nested document, got {:?}", other),
    }
}

#[test]
fn test_document_round_trip() {
    let d = doc(vec![
        ("a", Value::Int32(-7)),
        ("b", Value::Text("text".to_string())),
        ("c", Value::Boolean(true)),
        ("d", Value::Int64(1 << 40)),
        ("e", Value::Array(Array(vec![Value::Int32(1), Value::Int32(2)]))),
        ("f", Value::Document(Document(vec![("x".to_string(), Value::Null)]))),
        ("g", Value::Binary(vec![1, 2, 3])),
        ("h", Value::UtcDateTime(123456789)),
    ]);
    let bytes = d.to_bytes();
    assert_eq!(bytes.len() as u32, u32::from_le_bytes([bytes[0], bytes[1], bytes[2], bytes[3]]));
    let (parsed, end) = Bson::new(bytes.clone()).parse_document(0).unwrap();
    assert_eq!(end, bytes.len());
    assert_eq!(parsed, d);
}

#[test]
fn test_op_msg_round_trip() {
    let request = ping_request(42);
    let bytes = request.to_bytes();
    let decoded = parse(bytes.clone()).unwrap();
    match decoded {
        OpCode::OpMsg(m) => {
            // every header field but the recomputed length matches exactly
            assert_eq!(m.header.message_length as usize, bytes.len());
            assert_eq!(m.header.request_id, 42);
            assert_eq!(m.header.response_to, 0);
            assert_eq!(m.header.op_code, 2013);
            assert_eq!(m.flags, 0);
            assert_eq!(m.checksum, None);
            assert_eq!(m.sections, request.sections);
        },
        other => panic!("expected a modern message, got {:?}", other),
    }
}

#[test]
fn test_parse_header() {
    let bytes = ping_request(5).to_bytes();
    let header = parse_header(&bytes).unwrap();
    assert_eq!(header.message_length as usize, bytes.len());
    assert_eq!(header.request_id, 5);
    assert_eq!(header.response_to, 0);
    assert_eq!(header.op_code, 2013);
    let short = MsgHeader::from_slice(&vec![1, 2, 3]);
    assert_eq!(short, Err(ParserError::Truncated));
}

#[test]
fn test_unsupported_opcode() {
    let mut bytes = ping_request(5).to_bytes();
    bytes[12] = 0xD2;
    bytes[13] = 0x07;  // opcode 2002
    assert_eq!(parse(bytes), Err(ParserError::UnsupportedOpcode(2002)));
}

#[test]
fn test_document_sequence_section_refused() {
    let mut bytes = ping_request(5).to_bytes();
    bytes[20] = 1;
    assert_eq!(parse(bytes), Err(ParserError::UnimplementedSectionKind(1)));
    let payload = doc(vec![("k", Value::Int32(1))]).to_bytes();
    assert!(matches!(
        Section::new(1, &payload),
        Err(ParserError::UnimplementedSectionKind(1))
    ));
    assert!(matches!(Section::new(0, &payload), Ok(Section::Body(_))));
}

#[test]
fn test_length_mismatch_is_refused() {
    let mut bytes = ping_request(5).to_bytes();
    bytes[0] = bytes[0].wrapping_add(1);
    assert!(parse(bytes).is_err());
}

#[test]
fn test_op_msg_reply_parsing() {
    // a reply built by the encoder decodes to the same fields
    let request = ping_request(1447);
    let mut reply = OpMsgReply::from_msg(&request);
    reply.add_document(&doc(vec![("version", Value::Text("6.0.4".to_string()))]));
    let bytes = reply.to_bytes();
    let parsed = OpReply::parse(&bytes).unwrap();
    let OpReply::OpMsg(rep) = parsed else {
        panic!("expected a modern reply");
    };
    assert_eq!(rep.header.response_to, 1447);
    assert_eq!(rep.header.op_code, 2013);
    assert_eq!(rep.flags, 0);
    assert_eq!(rep.sections.len(), 1);
    let docs = rep.documents();
    assert_eq!(docs[0].0[0], ("version".to_string(), Value::Text("6.0.4".to_string())));
}

#[test]
fn test_op_query_reply_parsing() {
    let fixture = is_master_fixture(1446);
    let decoded = parse(fixture).unwrap();
    let OpCode::OpQuery(query) = decoded else {
        panic!("expected a legacy query");
    };
    let mut reply = OpQueryReply::from_query(&query);
    reply.add_document(&doc(vec![
        ("helloOk", Value::Boolean(true)),
        ("ismaster", Value::Boolean(true)),
    ]));
    let bytes = reply.to_bytes();
    let parsed = OpReply::parse(&bytes).unwrap();
    let OpReply::OpQuery(rep) = parsed else {
        panic!("expected a legacy reply");
    };
    assert_eq!(rep.header.response_to, 1446);
    assert_eq!(rep.header.op_code, 1);
    assert_eq!(rep.cursor_id, 0);
    assert_eq!(rep.starting_from, 0);
    assert_eq!(rep.number_returned, 1);
    assert_eq!(
        rep.documents[0].0[0],
        ("helloOk".to_string(), Value::Boolean(true))
    );
    assert_eq!(
        rep.documents[0].0[1],
        ("ismaster".to_string(), Value::Boolean(true))
    );
}

#[test]
fn test_response_flags() {
    let fixture = is_master_fixture(9);
    let OpCode::OpQuery(query) = parse(fixture).unwrap() else {
        panic!("expected a legacy query");
    };
    let mut reply = OpQueryReply::from_query(&query);
    assert!(!reply.has_flag(&ResponseFlag::AwaitCapable));
    reply.set_flag(ResponseFlag::AwaitCapable);
    assert!(reply.has_flag(&ResponseFlag::AwaitCapable));
    assert!(!reply.has_flag(&ResponseFlag::QueryFailure));
}

/// The literal bytes of a legacy query for `admin.$cmd` carrying the
/// document `{isMaster: 1, helloOk: true}`.
fn is_master_fixture(request_id: u32) -> Vec<u8> {
    let mut body: Vec<u8> = Vec::new();
    body.extend_from_slice(&0u32.to_le_bytes()); // flags
    body.extend_from_slice(b"admin.$cmd\x00");
    body.extend_from_slice(&0u32.to_le_bytes()); // numberToSkip
    body.extend_from_slice(&0u32.to_le_bytes()); // numberToReturn
    // the query document
    let mut q: Vec<u8> = Vec::new();
    q.push(0x10);
    q.extend_from_slice(b"isMaster\x00");
    q.extend_from_slice(&1i32.to_le_bytes());
    q.push(0x08);
    q.extend_from_slice(b"helloOk\x00");
    q.push(1);
    let qlen = (q.len() + 5) as u32;
    body.extend_from_slice(&qlen.to_le_bytes());
    body.extend_from_slice(&q);
    body.push(0);
    let total = (body.len() + 16) as u32;
    let mut out: Vec<u8> = Vec::new();
    out.extend_from_slice(&total.to_le_bytes());
    out.extend_from_slice(&request_id.to_le_bytes());
    out.extend_from_slice(&0u32.to_le_bytes());
    out.extend_from_slice(&2004u32.to_le_bytes());
    out.extend_from_slice(&body);
    out
}

#[test]
fn test_parse_is_master() {
    let fixture = is_master_fixture(7);
    // the header invariant: the whole fixture is consumed
    assert_eq!(
        u32::from_le_bytes([fixture[0], fixture[1], fixture[2], fixture[3]]) as usize,
        fixture.len()
    );
    let decoded = parse(fixture).unwrap();
    let OpCode::OpQuery(query) = decoded else {
        panic!("expected a legacy query");
    };
    assert_eq!(query.full_collection_name, "admin.$cmd");
    assert_eq!(query.number_to_skip, 0);
    assert_eq!(query.number_to_return, 0);
    assert_eq!(query.query.0[0], ("isMaster".to_string(), Value::Int32(1)));
    assert_eq!(query.query.0[1], ("helloOk".to_string(), Value::Boolean(true)));
    assert_eq!(query.command(), "isMaster");
}

#[test]
fn test_mongosh_connect_message() {
    // a legacy connect message with a nested client document, as a shell sends
    let mut client = Document(vec![(
        "application".to_string(),
        Value::Document(doc(vec![("name", Value::Text("mongosh 2.0.2".to_string()))])),
    )]);
    client.0.push((
        "platform".to_string(),
        Value::Text("Node.js v20.8.1, LE".to_string()),
    ));
    let q = doc(vec![
        ("ismaster", Value::Int32(1)),
        ("helloOk", Value::Boolean(true)),
        ("client", Value::Document(client)),
    ]);
    let qbytes = q.to_bytes();
    let mut body: Vec<u8> = Vec::new();
    body.extend_from_slice(&0u32.to_le_bytes());
    body.extend_from_slice(b"admin.$cmd\x00");
    body.extend_from_slice(&0u32.to_le_bytes());
    body.extend_from_slice(&u32::MAX.to_le_bytes());
    body.extend_from_slice(&qbytes);
    let total = (body.len() + 16) as u32;
    let mut bytes: Vec<u8> = Vec::new();
    bytes.extend_from_slice(&total.to_le_bytes());
    bytes.extend_from_slice(&1u32.to_le_bytes());
    bytes.extend_from_slice(&0u32.to_le_bytes());
    bytes.extend_from_slice(&2004u32.to_le_bytes());
    bytes.extend_from_slice(&body);
    let OpCode::OpQuery(query) = parse(bytes).unwrap() else {
        panic!("expected a legacy query");
    };
    assert_eq!(query.flags, 0);
    assert_eq!(query.number_to_return, u32::MAX);
    assert_eq!(query.query, q);
}
