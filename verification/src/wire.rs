use vstd::prelude::*;

use crate::bson::{Bson, sp_first_nul, sp_parse_doc, lemma_parse_doc_bounds, lemma_parse_doc_of_bytes};
use crate::doc::{Document, doc_view, sp_doc_bytes, sp_first_key, wf_elems};
use crate::header::{MsgHeader, header_bytes, lemma_header_bytes, sp_header_at};
use crate::ints::{le32_at, read_u32_le, u32_le, lemma_u32_le};
use crate::text::{bytes_of, chars_of, string_of_range};

verus! {

// The request codec: framing and decoding of the two supported request
// shapes, and the spec-level grammar and encodings they are proved against.

/// Why a buffer failed to decode.
#[derive(Clone, Copy, Debug, PartialEq, Eq, Structural)]
pub enum ParserError {
    /// Fewer bytes than a header or a field needs.
    Truncated,
    /// The header-claimed length does not match the bytes present.
    LengthMismatch,
    /// An opcode this codec does not speak.
    UnsupportedOpcode(u32),
    /// A section kind that is recognized but deliberately not parsed.
    UnimplementedSectionKind(u8),
    /// A document payload that does not follow the document grammar.
    InvalidDocument,
}

#[derive(Debug, PartialEq)]
pub enum OpCode {
    OpMsg(OpMsg),
    OpQuery(OpQuery),
}

#[derive(Debug, PartialEq)]
pub struct OpQuery {
    pub header: MsgHeader,
    pub flags: u32,
    pub full_collection_name: String,
    pub number_to_skip: u32,
    pub number_to_return: u32,
    pub query: Document,
    pub return_field_selector: Option<Document>,
}

#[derive(Debug, PartialEq)]
pub struct OpMsg {
    pub header: MsgHeader,
    pub flags: u32,
    pub sections: Vec<Section>,
    pub checksum: Option<u32>,
}

#[derive(Debug, PartialEq)]
pub enum Section {
    Body(BodySection),
    DocumentSequence(DocumentSequenceSection),
}

#[derive(Debug, PartialEq)]
pub struct BodySection {
    pub payload: Document,
}

#[derive(Debug, PartialEq)]
pub struct DocumentSequenceSection {
    pub identifier: String,
    pub documents: Vec<Vec<u8>>,
}

/// The body document of a single-section message.
pub open spec fn msg_payload(m: OpMsg) -> Document {
    m.sections@[0]->Body_0.payload
}

/// A well-formed single-section request: the modern opcode, one body
/// section, a well-formed payload, and a checksum exactly when the checksum
/// flag bit is set.
pub open spec fn op_msg_wf(m: OpMsg) -> bool {
    &&& m.header.op_code == 2013
    &&& m.sections@.len() == 1
    &&& m.sections@[0] is Body
    &&& wf_elems(doc_view(msg_payload(m)))
    &&& (m.checksum is Some <==> m.flags & 1 == 1)
}

/// The exact length of a message's encoding.
pub open spec fn op_msg_len(m: OpMsg) -> int {
    21 + sp_doc_bytes(doc_view(msg_payload(m))).len() + if m.checksum is Some {
        4int
    } else {
        0int
    }
}

/// The on-wire form of a single-section message: header, flags, the body
/// section's kind byte, the document, and the optional checksum.
pub open spec fn op_msg_bytes(m: OpMsg) -> Seq<u8> {
    header_bytes(m.header) + u32_le(m.flags) + seq![0u8] + sp_doc_bytes(doc_view(msg_payload(m)))
        + (match m.checksum {
        Some(c) => u32_le(c),
        None => Seq::empty(),
    })
}

/// What a successful decode of a single-section message says about the
/// buffer: every field was read at its place, and the bytes consumed equal
/// the header-claimed length.
pub open spec fn op_msg_consumed(b: Seq<u8>, m: OpMsg) -> bool {
    &&& b.len() >= 21
    &&& m.header == sp_header_at(b, 0)
    &&& m.header.op_code == 2013
    &&& m.flags == le32_at(b, 16)
    &&& b[20] == 0
    &&& m.sections@.len() == 1
    &&& m.sections@[0] is Body
    &&& match sp_parse_doc(b, 21) {
        Some((es, end)) => {
            &&& doc_view(msg_payload(m)) == es
            &&& if m.flags & 1 == 1 {
                m.checksum == Some(le32_at(b, end)) && end + 4 == m.header.message_length as int
            } else {
                m.checksum is None && end == m.header.message_length as int
            }
        },
        None => false,
    }
    &&& m.header.message_length as int <= b.len()
}

/// What a successful decode of a legacy query says about the buffer.
pub open spec fn op_query_consumed(b: Seq<u8>, q: OpQuery) -> bool {
    &&& b.len() >= 21
    &&& q.header == sp_header_at(b, 0)
    &&& q.header.op_code == 2004
    &&& q.flags == le32_at(b, 16)
    &&& match sp_first_nul(b, 20) {
        Some(n) => {
            &&& q.full_collection_name@ == chars_of(b.subrange(20, n))
            &&& q.number_to_skip == le32_at(b, n + 1)
            &&& q.number_to_return == le32_at(b, n + 5)
            &&& match sp_parse_doc(b, n + 9) {
                Some((qd, qend)) => {
                    &&& doc_view(q.query) == qd
                    &&& if q.flags & 1 == 1 {
                        match q.return_field_selector {
                            Some(s) => match sp_parse_doc(b, qend) {
                                Some((sd, send)) => doc_view(s) == sd && send
                                    == q.header.message_length as int,
                                None => false,
                            },
                            None => false,
                        }
                    } else {
                        q.return_field_selector is None && qend == q.header.message_length as int
                    }
                },
                None => false,
            }
        },
        None => false,
    }
    &&& q.header.message_length as int <= b.len()
}

pub open spec fn op_code_consumed(b: Seq<u8>, c: OpCode) -> bool {
    match c {
        OpCode::OpMsg(m) => op_msg_consumed(b, m),
        OpCode::OpQuery(q) => op_query_consumed(b, q),
    }
}

/// The buffers the decoder accepts as a single-section message.
pub open spec fn op_msg_parseable(b: Seq<u8>) -> bool {
    &&& b.len() >= 21
    &&& le32_at(b, 12) == 2013
    &&& le32_at(b, 0) as int <= b.len()
    &&& b[20] == 0
    &&& match sp_parse_doc(b, 21) {
        Some((es, end)) => if le32_at(b, 16) & 1 == 1 {
            end + 4 == le32_at(b, 0) as int
        } else {
            end == le32_at(b, 0) as int
        },
        None => false,
    }
}

/// The buffers the decoder accepts as a legacy query.
pub open spec fn op_query_parseable(b: Seq<u8>) -> bool {
    &&& b.len() >= 20
    &&& le32_at(b, 12) == 2004
    &&& le32_at(b, 0) as int <= b.len()
    &&& match sp_first_nul(b, 20) {
        Some(n) => match sp_parse_doc(b, n + 9) {
            Some((qd, qend)) => if le32_at(b, 16) & 1 == 1 {
                match sp_parse_doc(b, qend) {
                    Some((sd, send)) => send == le32_at(b, 0) as int,
                    None => false,
                }
            } else {
                qend == le32_at(b, 0) as int
            },
            None => false,
        },
        None => false,
    }
}

pub open spec fn msg_parseable(b: Seq<u8>) -> bool {
    op_msg_parseable(b) || op_query_parseable(b)
}

/// An encoded well-formed message decodes again, and anything a decode of it
/// reports agrees with the original message: the round trip of the request
/// codec.
pub proof fn lemma_op_msg_encoding_parses(m: OpMsg, b: Seq<u8>)
    requires
        op_msg_wf(m),
        m.header.message_length as int == op_msg_len(m),
        op_msg_len(m) < 0x80000000,
        b == op_msg_bytes(m),
    ensures
        op_msg_parseable(b),
        msg_parseable(b),
        forall|res: OpMsg|
            #[trigger] op_msg_consumed(b, res) ==> res.header == m.header && res.flags == m.flags
                && res.checksum == m.checksum && doc_view(msg_payload(res)) == doc_view(
                msg_payload(m),
            ),
{
    let db = sp_doc_bytes(doc_view(msg_payload(m)));
    lemma_header_bytes(m.header);
    lemma_u32_le(m.flags);
    assert forall|j: int| 0 <= j < 16 implies b[j] == header_bytes(m.header)[j] by {}
    assert(le32_at(b, 0) == le32_at(header_bytes(m.header), 0)) by {
        assert(b[0] == header_bytes(m.header)[0]);
        assert(b[1] == header_bytes(m.header)[1]);
        assert(b[2] == header_bytes(m.header)[2]);
        assert(b[3] == header_bytes(m.header)[3]);
    }
    assert(sp_header_at(b, 0) == m.header) by {
        assert(le32_at(b, 4) == le32_at(header_bytes(m.header), 4));
        assert(le32_at(b, 8) == le32_at(header_bytes(m.header), 8));
        assert(le32_at(b, 12) == le32_at(header_bytes(m.header), 12));
    }
    assert(le32_at(b, 16) == m.flags) by {
        assert(b[16] == u32_le(m.flags)[0]);
        assert(b[17] == u32_le(m.flags)[1]);
        assert(b[18] == u32_le(m.flags)[2]);
        assert(b[19] == u32_le(m.flags)[3]);
    }
    assert(b[20] == 0);
    assert(b.subrange(21, 21 + db.len() as int) =~= db);
    lemma_parse_doc_of_bytes(b, 21, doc_view(msg_payload(m)));
    let end = 21 + db.len() as int;
    if m.flags & 1 == 1 {
        let c = m.checksum->Some_0;
        lemma_u32_le(c);
        assert(le32_at(b, end) == c) by {
            assert(b[end] == u32_le(c)[0]);
            assert(b[end + 1] == u32_le(c)[1]);
            assert(b[end + 2] == u32_le(c)[2]);
            assert(b[end + 3] == u32_le(c)[3]);
        }
    }
    assert(op_msg_parseable(b));
    assert forall|res: OpMsg| #[trigger] op_msg_consumed(b, res) implies res.header == m.header
        && res.flags == m.flags && res.checksum == m.checksum && doc_view(msg_payload(res))
        == doc_view(msg_payload(m)) by {
        assert(sp_parse_doc(b, 21) == Some((doc_view(msg_payload(m)), end)));
    }
}

/// Decodes one message from the buffer: the header, then the shape the
/// opcode selects.  Succeeds exactly on the buffers the grammar accepts, and
/// a success consumed exactly the header-claimed number of bytes.
pub fn parse(input: Vec<u8>) -> (r: Result<OpCode, ParserError>)
    ensures
        r is Ok <==> msg_parseable(input@),
        r matches Ok(c) ==> op_code_consumed(input@, c),
        input@.len() < 16 ==> r == Err::<OpCode, ParserError>(ParserError::Truncated),
        input@.len() >= 16 && le32_at(input@, 12) != 2013 && le32_at(input@, 12) != 2004 ==> r
            == Err::<OpCode, ParserError>(ParserError::UnsupportedOpcode(le32_at(input@, 12))),
{
    parse_op_code(&input)
}

/// Decodes one message from the front of the buffer.
pub fn parse_op_code(input: &Vec<u8>) -> (r: Result<OpCode, ParserError>)
    ensures
        r is Ok <==> msg_parseable(input@),
        r matches Ok(c) ==> op_code_consumed(input@, c),
        input@.len() < 16 ==> r == Err::<OpCode, ParserError>(ParserError::Truncated),
        input@.len() >= 16 && le32_at(input@, 12) != 2013 && le32_at(input@, 12) != 2004 ==> r
            == Err::<OpCode, ParserError>(ParserError::UnsupportedOpcode(le32_at(input@, 12))),
{
    let header = match parse_header(input) {
        Ok(h) => h,
        Err(e) => {
            return Err(e);
        },
    };
    if header.op_code == 2013 {
        match parse_op_msg(input, header) {
            Ok(m) => Ok(OpCode::OpMsg(m)),
            Err(e) => Err(e),
        }
    } else if header.op_code == 2004 {
        match parse_op_query(input, header) {
            Ok(q) => Ok(OpCode::OpQuery(q)),
            Err(e) => Err(e),
        }
    } else {
        Err(ParserError::UnsupportedOpcode(header.op_code))
    }
}

/// Decodes the fixed sixteen-byte header at the front of the buffer.
pub fn parse_header(input: &Vec<u8>) -> (r: Result<MsgHeader, ParserError>)
    ensures
        input@.len() >= 16 ==> r == Ok::<MsgHeader, ParserError>(sp_header_at(input@, 0)),
        input@.len() < 16 ==> r == Err::<MsgHeader, ParserError>(ParserError::Truncated),
{
    MsgHeader::from_slice(input)
}

/// Decodes the body of a single-section message, after its header.
pub fn parse_op_msg(input: &Vec<u8>, header: MsgHeader) -> (r: Result<OpMsg, ParserError>)
    requires
        input@.len() >= 16,
        header == sp_header_at(input@, 0),
        header.op_code == 2013,
    ensures
        r is Ok <==> op_msg_parseable(input@),
        r matches Ok(m) ==> op_msg_consumed(input@, m),
{
    let blen = input.len();
    if blen < 21 {
        return Err(ParserError::Truncated);
    }
    let mlen = header.message_length as usize;
    if mlen > blen {
        return Err(ParserError::LengthMismatch);
    }
    let flags = read_u32_le(input, 16);
    let kind = input[20];
    if kind != 0 {
        return Err(ParserError::UnimplementedSectionKind(kind));
    }
    let bson = Bson::new(copy_vec(input));
    let (payload, end) = match bson.parse_document(21) {
        Some(p) => p,
        None => {
            return Err(ParserError::InvalidDocument);
        },
    };
    proof {
        lemma_parse_doc_bounds(input@, 21);
    }
    if flags & 1 == 1 {
        if end > blen || blen - end < 4 || end + 4 != mlen {
            return Err(ParserError::LengthMismatch);
        }
        let checksum = read_u32_le(input, end);
        let mut sections: Vec<Section> = Vec::new();
        sections.push(Section::Body(BodySection { payload }));
        Ok(OpMsg { header, flags, sections, checksum: Some(checksum) })
    } else {
        if end != mlen {
            return Err(ParserError::LengthMismatch);
        }
        let mut sections: Vec<Section> = Vec::new();
        sections.push(Section::Body(BodySection { payload }));
        Ok(OpMsg { header, flags, sections, checksum: None })
    }
}

/// Decodes the body of a legacy query, after its header.
pub fn parse_op_query(input: &Vec<u8>, header: MsgHeader) -> (r: Result<OpQuery, ParserError>)
    requires
        input@.len() >= 16,
        header == sp_header_at(input@, 0),
        header.op_code == 2004,
    ensures
        r is Ok <==> op_query_parseable(input@),
        r matches Ok(q) ==> op_query_consumed(input@, q),
{
    let blen = input.len();
    if blen < 20 {
        return Err(ParserError::Truncated);
    }
    let mlen = header.message_length as usize;
    if mlen > blen {
        return Err(ParserError::LengthMismatch);
    }
    let flags = read_u32_le(input, 16);
    let nul = match find_nul_vec(input, 20) {
        Some(n) => n,
        None => {
            return Err(ParserError::Truncated);
        },
    };
    let full_collection_name = string_of_range(input, 20, nul);
    if blen - nul < 9 {
        proof {
            lemma_parse_doc_bounds(input@, nul + 9);
        }
        return Err(ParserError::Truncated);
    }
    let number_to_skip = read_u32_le(input, nul + 1);
    let number_to_return = read_u32_le(input, nul + 5);
    let bson = Bson::new(copy_vec(input));
    let (query, qend) = match bson.parse_document(nul + 9) {
        Some(p) => p,
        None => {
            return Err(ParserError::InvalidDocument);
        },
    };
    proof {
        lemma_parse_doc_bounds(input@, nul + 9);
    }
    if flags & 1 == 1 {
        let (selector, send) = match bson.parse_document(qend) {
            Some(p) => p,
            None => {
                return Err(ParserError::InvalidDocument);
            },
        };
        proof {
            lemma_parse_doc_bounds(input@, qend as int);
        }
        if send != mlen {
            return Err(ParserError::LengthMismatch);
        }
        Ok(
            OpQuery {
                header,
                flags,
                full_collection_name,
                number_to_skip,
                number_to_return,
                query,
                return_field_selector: Some(selector),
            },
        )
    } else {
        if qend != mlen {
            return Err(ParserError::LengthMismatch);
        }
        Ok(
            OpQuery {
                header,
                flags,
                full_collection_name,
                number_to_skip,
                number_to_return,
                query,
                return_field_selector: None,
            },
        )
    }
}

pub(crate) fn copy_vec(b: &Vec<u8>) -> (out: Vec<u8>)
    ensures
        out@ == b@,
{
    let mut out: Vec<u8> = Vec::new();
    let n = b.len();
    let mut i: usize = 0;
    while i < n
        invariant
            n == b@.len(),
            0 <= i <= n,
            out@ == b@.subrange(0, i as int),
        decreases n - i,
    {
        out.push(b[i]);
        i += 1;
        proof {
            assert(out@ =~= b@.subrange(0, i as int));
        }
    }
    proof {
        assert(b@.subrange(0, b@.len() as int) =~= b@);
    }
    out
}

fn find_nul_vec(b: &Vec<u8>, i: usize) -> (r: Option<usize>)
    ensures
        match r {
            Some(n) => sp_first_nul(b@, i as int) == Some(n as int) && i <= n < b@.len()
                && b@[n as int] == 0,
            None => sp_first_nul(b@, i as int) is None,
        },
{
    let blen = b.len();
    if i >= blen {
        return None;
    }
    let mut j: usize = i;
    while j < blen && b[j] != 0
        invariant
            i <= j <= blen,
            blen == b@.len(),
            sp_first_nul(b@, i as int) == sp_first_nul(b@, j as int),
        decreases blen - j,
    {
        j += 1;
    }
    if j < blen {
        Some(j)
    } else {
        None
    }
}


/// The message with its length field replaced by the exact length of its own
/// encoding, as the encoder recomputes it.
pub open spec fn msg_with_len(m: OpMsg) -> OpMsg {
    OpMsg {
        header: MsgHeader {
            message_length: (op_msg_len(m) % 0x100000000) as u32,
            request_id: m.header.request_id,
            response_to: m.header.response_to,
            op_code: m.header.op_code,
        },
        flags: m.flags,
        sections: m.sections,
        checksum: m.checksum,
    }
}

/// The command a request names: the first key of its primary document, with
/// a sectionless message defaulting to the handshake command, and a query
/// with an empty document likewise.
pub open spec fn sp_command_name(c: OpCode) -> Option<Seq<char>> {
    match c {
        OpCode::OpMsg(m) => if m.sections@.len() == 0 {
            Some("ismaster"@)
        } else if m.sections@[0] is Body {
            sp_first_key(doc_view(msg_payload(m)))
        } else {
            None
        },
        OpCode::OpQuery(q) => match sp_first_key(doc_view(q.query)) {
            Some(k) => Some(k),
            None => Some("ismaster"@),
        },
    }
}

/// The primary document of a request: the query document, or the first body
/// section's payload.
pub open spec fn sp_primary_doc(c: OpCode) -> Option<Document> {
    match c {
        OpCode::OpQuery(q) => Some(q.query),
        OpCode::OpMsg(m) => if m.sections@.len() >= 1 && m.sections@[0] is Body {
            Some(msg_payload(m))
        } else {
            None
        },
    }
}

impl OpCode {
    /// The command name this request carries.
    pub fn command(&self) -> (r: String)
        requires
            sp_command_name(*self) is Some,
        ensures
            r@ == sp_command_name(*self)->Some_0,
    {
        match self {
            OpCode::OpMsg(m) => m.command(),
            OpCode::OpQuery(q) => match q.query.first_key() {
                Some(k) => k.clone(),
                None => "ismaster".to_owned(),
            },
        }
    }

    /// The primary document of this request, if it has one.
    pub fn document(&self) -> (r: Option<&Document>)
        ensures
            match r {
                Some(d) => sp_primary_doc(*self) matches Some(d0) && doc_view(*d) == doc_view(d0),
                None => sp_primary_doc(*self) is None,
            },
    {
        match self {
            OpCode::OpQuery(q) => Some(&q.query),
            OpCode::OpMsg(m) => {
                if m.sections.len() >= 1 {
                    match &m.sections[0] {
                        Section::Body(body) => Some(&body.payload),
                        Section::DocumentSequence(_) => None,
                    }
                } else {
                    None
                }
            },
        }
    }
}

impl OpMsg {
    /// The command name: the first key of the body document, or the
    /// handshake command for a message without sections.
    pub fn command(&self) -> (r: String)
        requires
            sp_command_name(OpCode::OpMsg(*self)) is Some,
        ensures
            r@ == sp_command_name(OpCode::OpMsg(*self))->Some_0,
    {
        if self.sections.len() == 0 {
            return "ismaster".to_owned();
        }
        match &self.sections[0] {
            Section::Body(body) => match body.payload.first_key() {
                Some(k) => k.clone(),
                None => {
                    proof {
                        assert(false);
                    }
                    vstd::pervasive::unreached()
                },
            },
            Section::DocumentSequence(_) => {
                proof {
                    assert(false);
                }
                vstd::pervasive::unreached()
            },
        }
    }

    /// Copies of the body documents of this message's sections.
    pub fn as_documents(&self) -> (r: Vec<Document>)
        requires
            forall|j: int| 0 <= j < self.sections@.len() ==> self.sections@[j] is Body,
        ensures
            r@.len() == self.sections@.len(),
            forall|j: int|
                0 <= j < r@.len() ==> doc_view(#[trigger] r@[j]) == doc_view(
                    self.sections@[j]->Body_0.payload,
                ),
    {
        let mut out: Vec<Document> = Vec::new();
        let n = self.sections.len();
        let mut i: usize = 0;
        while i < n
            invariant
                n == self.sections@.len(),
                0 <= i <= n,
                forall|j: int| 0 <= j < n ==> self.sections@[j] is Body,
                out@.len() == i,
                forall|j: int|
                    0 <= j < i ==> doc_view(#[trigger] out@[j]) == doc_view(
                        self.sections@[j]->Body_0.payload,
                    ),
            decreases n - i,
        {
            match &self.sections[i] {
                Section::Body(body) => {
                    out.push(body.payload.duplicate());
                },
                Section::DocumentSequence(_) => {
                    proof {
                        assert(false);
                    }
                },
            }
            i += 1;
        }
        out
    }

    /// Encodes this message, recomputing the length field: header, flags,
    /// the body section's kind byte, the document, the optional checksum.
    pub fn to_bytes(&self) -> (out: Vec<u8>)
        requires
            self.sections@.len() == 1,
            self.sections@[0] is Body,
            wf_elems(doc_view(msg_payload(*self))),
        ensures
            out@ == op_msg_bytes(msg_with_len(*self)),
            out@.len() == op_msg_len(*self),
    {
        let mut tail: Vec<u8> = Vec::new();
        crate::ints::push_u32_le(&mut tail, self.flags);
        tail.push(0);
        let body = match &self.sections[0] {
            Section::Body(body) => body,
            Section::DocumentSequence(_) => {
                proof {
                    assert(false);
                }
                vstd::pervasive::unreached()
            },
        };
        let mut doc_bytes = body.payload.to_bytes();
        tail.append(&mut doc_bytes);
        match &self.checksum {
            Some(c) => {
                crate::ints::push_u32_le(&mut tail, *c);
            },
            None => {},
        }
        let mut out: Vec<u8> = Vec::new();
        crate::doc::push_len_add_le(&mut out, tail.len(), 16);
        crate::ints::push_u32_le(&mut out, self.header.request_id);
        crate::ints::push_u32_le(&mut out, self.header.response_to);
        crate::ints::push_u32_le(&mut out, self.header.op_code);
        out.append(&mut tail);
        proof {
            assert(out@ =~= op_msg_bytes(msg_with_len(*self)));
        }
        out
    }
}

impl OpQuery {
    /// The command name: the first key of the query document.
    pub fn command(&self) -> (r: String)
        requires
            sp_first_key(doc_view(self.query)) is Some,
        ensures
            r@ == sp_first_key(doc_view(self.query))->Some_0,
    {
        match self.query.first_key() {
            Some(k) => k.clone(),
            None => {
                proof {
                    assert(false);
                }
                vstd::pervasive::unreached()
            },
        }
    }

    /// A copy of the query document, as a one-element batch.
    pub fn as_documents(&self) -> (r: Vec<Document>)
        ensures
            r@.len() == 1,
            doc_view(r@[0]) == doc_view(self.query),
    {
        let mut out: Vec<Document> = Vec::new();
        out.push(self.query.duplicate());
        out
    }
}

impl Section {
    /// Builds one section from a kind byte and its payload bytes.  Only the
    /// body kind is parsed; the document-sequence kind is recognized but
    /// deliberately refused rather than guessed at.
    pub fn new(kind: u8, data: &Vec<u8>) -> (r: Result<Section, ParserError>)
        ensures
            kind != 0 ==> r == Err::<Section, ParserError>(
                ParserError::UnimplementedSectionKind(kind),
            ),
            kind == 0 ==> match r {
                Ok(s) => s matches Section::Body(body) && sp_parse_doc(data@, 0) matches Some(p)
                    && doc_view(body.payload) == p.0,
                Err(e) => e == ParserError::InvalidDocument && sp_parse_doc(data@, 0) is None,
            },
    {
        if kind != 0 {
            return Err(ParserError::UnimplementedSectionKind(kind));
        }
        let bson = Bson::new(copy_vec(data));
        match bson.parse_document(0) {
            Some((payload, _)) => Ok(Section::Body(BodySection { payload })),
            None => Err(ParserError::InvalidDocument),
        }
    }

    /// Reads one body section from the front of the buffer, and a trailing
    /// checksum when at least four bytes follow the document.
    pub fn from_slice(input: &Vec<u8>) -> (r: Result<(Section, Option<u32>), ParserError>)
        ensures
            match r {
                Ok(p) => {
                    &&& p.0 matches Section::Body(body)
                    &&& sp_parse_doc(input@, 0) matches Some(q) && doc_view(body.payload) == q.0
                        && (if q.1 + 4 <= input@.len() {
                        p.1 == Some(le32_at(input@, q.1))
                    } else {
                        p.1 is None
                    })
                },
                Err(e) => sp_parse_doc(input@, 0) is None,
            },
    {
        let blen = input.len();
        let bson = Bson::new(copy_vec(input));
        let (payload, end) = match bson.parse_document(0) {
            Some(p) => p,
            None => {
                return Err(ParserError::InvalidDocument);
            },
        };
        proof {
            lemma_parse_doc_bounds(input@, 0);
        }
        let checksum = if blen - end >= 4 {
            Some(read_u32_le(input, end))
        } else {
            None
        };
        Ok((Section::Body(BodySection { payload }), checksum))
    }

    /// The kind byte of this section.
    pub fn kind(&self) -> (r: u8)
        ensures
            r == 0 <==> *self is Body,
            r == 1 <==> *self is DocumentSequence,
    {
        match self {
            Section::Body(_) => 0,
            Section::DocumentSequence(_) => 1,
        }
    }

    /// A copy of the documents this section carries.
    pub fn documents(&self) -> (r: Vec<Document>)
        requires
            *self is Body,
        ensures
            r@.len() == 1,
            doc_view(r@[0]) == doc_view(self->Body_0.payload),
    {
        match self {
            Section::Body(body) => {
                let mut out: Vec<Document> = Vec::new();
                out.push(body.payload.duplicate());
                out
            },
            Section::DocumentSequence(_) => {
                proof {
                    assert(false);
                }
                vstd::pervasive::unreached()
            },
        }
    }
}

impl DocumentSequenceSection {
    /// Parses each raw document of the sequence; `None` if any fails.
    pub fn as_documents(&self) -> (r: Option<Vec<Document>>)
        ensures
            match r {
                Some(ds) => ds@.len() == self.documents@.len() && forall|j: int|
                    0 <= j < ds@.len() ==> (sp_parse_doc(#[trigger] self.documents@[j]@, 0) matches
                    Some(p) && doc_view(ds@[j]) == p.0),
                None => exists|j: int|
                    0 <= j < self.documents@.len() && sp_parse_doc(
                        #[trigger] self.documents@[j]@,
                        0,
                    ) is None,
            },
    {
        let mut out: Vec<Document> = Vec::new();
        let n = self.documents.len();
        let mut i: usize = 0;
        while i < n
            invariant
                n == self.documents@.len(),
                0 <= i <= n,
                out@.len() == i,
                forall|j: int|
                    0 <= j < i ==> (sp_parse_doc(#[trigger] self.documents@[j]@, 0) matches Some(
                    p) && doc_view(out@[j]) == p.0),
            decreases n - i,
        {
            let bson = Bson::new(copy_vec(&self.documents[i]));
            match bson.parse_document(0) {
                Some((d, _)) => {
                    out.push(d);
                },
                None => {
                    return None;
                },
            }
            i += 1;
        }
        Some(out)
    }
}

} // verus!
