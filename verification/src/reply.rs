use vstd::prelude::*;

use crate::bson::{Bson, sp_parse_doc, lemma_parse_doc_bounds};
use crate::doc::{Document, doc_view, sp_doc_bytes, wf_elems};
use crate::header::{MsgHeader, sp_header_at};
use crate::ints::{le32_at, le64_at, le32_int, read_u32_le, read_u64_le, u32_le, u64_le};
use crate::wire::{OpMsg, OpQuery, ParserError, Section, BodySection};

verus! {

// The reply codec: the encoder for the two reply shapes the server sends,
// and the decoder used to interpret a mirrored backend's raw reply.

#[derive(Debug, PartialEq)]
pub enum OpReply {
    OpQuery(OpQueryReply),
    OpMsg(OpMsgReply),
}

#[derive(Debug, PartialEq)]
pub struct OpQueryReply {
    pub header: MsgHeader,
    pub flags: u32,
    pub cursor_id: u64,
    pub starting_from: u32,
    pub number_returned: u32,
    pub documents: Vec<Document>,
}

#[derive(Debug, PartialEq)]
pub struct OpMsgReply {
    pub header: MsgHeader,
    pub flags: u32,
    pub sections: Vec<Section>,
    pub checksum: Option<u32>,
}

/// The bit a legacy reply's response-flags field can carry.
#[derive(Clone, Copy, Debug, PartialEq, Eq, Structural)]
pub enum ResponseFlag {
    CursorNotFound,
    QueryFailure,
    ShardConfigStale,
    AwaitCapable,
}

pub open spec fn flag_bit(f: ResponseFlag) -> u32 {
    match f {
        ResponseFlag::CursorNotFound => 1,
        ResponseFlag::QueryFailure => 2,
        ResponseFlag::ShardConfigStale => 4,
        ResponseFlag::AwaitCapable => 8,
    }
}

impl ResponseFlag {
    pub fn bit(&self) -> (r: u32)
        ensures
            r == flag_bit(*self),
    {
        match self {
            ResponseFlag::CursorNotFound => 1,
            ResponseFlag::QueryFailure => 2,
            ResponseFlag::ShardConfigStale => 4,
            ResponseFlag::AwaitCapable => 8,
        }
    }
}

pub open spec fn docs_view(ds: Seq<Document>) -> Seq<Seq<(Seq<char>, crate::doc::SpecValue)>>
    decreases ds,
{
    if ds.len() == 0 {
        Seq::empty()
    } else {
        seq![doc_view(ds[0])] + docs_view(ds.drop_first())
    }
}

pub proof fn lemma_docs_view_push(ds: Seq<Document>, d: Document)
    ensures
        docs_view(ds.push(d)) == docs_view(ds).push(doc_view(d)),
    decreases ds,
{
    if ds.len() == 0 {
        let ps = ds.push(d);
        assert(ps[0] == d);
        assert(ps.drop_first() =~= Seq::<Document>::empty());
        assert(docs_view(ps.drop_first()) =~= Seq::<Seq<(Seq<char>, crate::doc::SpecValue)>>::empty());
        assert(docs_view(ps) == seq![doc_view(d)] + docs_view(ps.drop_first()));
        assert(docs_view(ds.push(d)) =~= docs_view(ds).push(doc_view(d)));
    } else {
        assert(ds.push(d)[0] == ds[0]);
        assert(ds.push(d).drop_first() =~= ds.drop_first().push(d));
        lemma_docs_view_push(ds.drop_first(), d);
        assert(docs_view(ds.push(d)) =~= docs_view(ds).push(doc_view(d)));
    }
}

pub proof fn lemma_docs_view_len(ds: Seq<Document>)
    ensures
        docs_view(ds).len() == ds.len(),
        forall|j: int| 0 <= j < ds.len() ==> #[trigger] docs_view(ds)[j] == doc_view(ds[j]),
    decreases ds,
{
    if ds.len() > 0 {
        lemma_docs_view_len(ds.drop_first());
    }
}

/// Parses `n` documents laid end to end, returning their views and the
/// position just past the last one.
pub open spec fn sp_parse_docs(b: Seq<u8>, i: int, n: int) -> Option<
    (Seq<Seq<(Seq<char>, crate::doc::SpecValue)>>, int),
>
    decreases n,
{
    if n <= 0 {
        Some((Seq::empty(), i))
    } else {
        match sp_parse_doc(b, i) {
            Some((d, e)) => match sp_parse_docs(b, e, n - 1) {
                Some((ds, end)) => Some((seq![d] + ds, end)),
                None => None,
            },
            None => None,
        }
    }
}

/// What a successful decode of a legacy reply says about the buffer.
pub open spec fn op_query_reply_consumed(b: Seq<u8>, r: OpQueryReply) -> bool {
    &&& b.len() >= 36
    &&& r.header == sp_header_at(b, 0)
    &&& r.header.op_code == 1
    &&& r.flags == le32_at(b, 16)
    &&& r.cursor_id == le64_at(b, 20)
    &&& r.starting_from == le32_at(b, 28)
    &&& r.number_returned == le32_at(b, 32)
    &&& match sp_parse_docs(b, 36, r.number_returned as int) {
        Some((ds, end)) => {
            &&& docs_view(r.documents@) == ds
            &&& end == r.header.message_length as int
        },
        None => false,
    }
    &&& r.header.message_length as int <= b.len()
}

/// What a successful decode of a modern reply says about the buffer.
pub open spec fn op_msg_reply_consumed(b: Seq<u8>, r: OpMsgReply) -> bool {
    &&& b.len() >= 21
    &&& r.header == sp_header_at(b, 0)
    &&& r.header.op_code == 2013
    &&& r.flags == le32_at(b, 16)
    &&& b[20] == 0
    &&& r.sections@.len() == 1
    &&& r.sections@[0] is Body
    &&& match sp_parse_doc(b, 21) {
        Some((es, end)) => {
            &&& doc_view(r.sections@[0]->Body_0.payload) == es
            &&& if r.header.message_length as int - end >= 4 {
                r.checksum == Some(le32_at(b, end)) && end + 4 == r.header.message_length as int
            } else {
                r.checksum is None && end == r.header.message_length as int
            }
        },
        None => false,
    }
    &&& r.header.message_length as int <= b.len()
}

pub open spec fn op_query_reply_parseable(b: Seq<u8>) -> bool {
    &&& b.len() >= 36
    &&& le32_at(b, 12) == 1
    &&& le32_at(b, 0) as int <= b.len()
    &&& match sp_parse_docs(b, 36, le32_at(b, 32) as int) {
        Some((ds, end)) => end == le32_at(b, 0) as int,
        None => false,
    }
}

pub open spec fn op_msg_reply_parseable(b: Seq<u8>) -> bool {
    &&& b.len() >= 21
    &&& le32_at(b, 12) == 2013
    &&& le32_at(b, 0) as int <= b.len()
    &&& b[20] == 0
    &&& match sp_parse_doc(b, 21) {
        Some((es, end)) => end == le32_at(b, 0) as int || end + 4 == le32_at(b, 0) as int,
        None => false,
    }
}

pub open spec fn reply_parseable(b: Seq<u8>) -> bool {
    op_query_reply_parseable(b) || op_msg_reply_parseable(b)
}

impl OpReply {
    /// Decodes one reply from the buffer, keyed on the two reply opcodes.
    /// Used to interpret a mirrored backend's raw response; its result never
    /// drives the reply sent to the real client.
    pub fn parse(input: &Vec<u8>) -> (r: Result<OpReply, ParserError>)
        ensures
            r is Ok <==> reply_parseable(input@),
            r matches Ok(rep) ==> match rep {
                OpReply::OpQuery(q) => op_query_reply_consumed(input@, q),
                OpReply::OpMsg(m) => op_msg_reply_consumed(input@, m),
            },
            input@.len() < 16 ==> r == Err::<OpReply, ParserError>(ParserError::Truncated),
            input@.len() >= 16 && le32_at(input@, 12) != 1 && le32_at(input@, 12) != 2013 ==> r
                == Err::<OpReply, ParserError>(ParserError::UnsupportedOpcode(le32_at(input@, 12))),
    {
        let header = match MsgHeader::from_slice(input) {
            Ok(h) => h,
            Err(e) => {
                return Err(e);
            },
        };
        if header.op_code == 1 {
            match OpReply::parse_op_query_reply(header, input) {
                Ok(q) => Ok(OpReply::OpQuery(q)),
                Err(e) => Err(e),
            }
        } else if header.op_code == 2013 {
            match OpReply::parse_op_msg_reply(header, input) {
                Ok(m) => Ok(OpReply::OpMsg(m)),
                Err(e) => Err(e),
            }
        } else {
            Err(ParserError::UnsupportedOpcode(header.op_code))
        }
    }

    /// Decodes the body of a legacy reply, after its header.
    pub fn parse_op_query_reply(header: MsgHeader, input: &Vec<u8>) -> (r: Result<
        OpQueryReply,
        ParserError,
    >)
        requires
            input@.len() >= 16,
            header == sp_header_at(input@, 0),
            header.op_code == 1,
        ensures
            r is Ok <==> op_query_reply_parseable(input@),
            r matches Ok(q) ==> op_query_reply_consumed(input@, q),
    {
        let blen = input.len();
        if blen < 36 {
            return Err(ParserError::Truncated);
        }
        let mlen = header.message_length as usize;
        if mlen > blen {
            return Err(ParserError::LengthMismatch);
        }
        let flags = read_u32_le(input, 16);
        let cursor_id = read_u64_le(input, 20);
        let starting_from = read_u32_le(input, 28);
        let number_returned = read_u32_le(input, 32);
        let n = number_returned as usize;
        let bson = Bson::new(crate::wire::copy_vec(input));
        let mut documents: Vec<Document> = Vec::new();
        let mut i: usize = 36;
        let mut k: usize = 0;
        proof {
            lemma_docs_view_len(documents@);
            assert(docs_view(documents@) =~= Seq::<Seq<(Seq<char>, crate::doc::SpecValue)>>::empty());
            match sp_parse_docs(input@, 36, n as int) {
                Some((ds, end)) => {
                    assert(docs_view(documents@) + ds =~= ds);
                },
                None => {},
            }
        }
        while k < n
            invariant
                0 <= k <= n,
                36 <= i <= blen,
                blen == input@.len(),
                bson@ == input@,
                n == le32_at(input@, 32),
                header == sp_header_at(input@, 0),
                mlen == header.message_length,
                mlen <= blen,
                docs_view(documents@).len() == k,
                sp_parse_docs(input@, 36, n as int) == (match sp_parse_docs(
                    input@,
                    i as int,
                    n - k,
                ) {
                    Some((ds, end)) => Some((docs_view(documents@) + ds, end)),
                    None => None,
                }),
            decreases n - k,
        {
            let (d, end) = match bson.parse_document(i) {
                Some(p) => p,
                None => {
                    proof {
                        assert(sp_parse_docs(input@, i as int, n - k) is None);
                        assert(sp_parse_docs(input@, 36, n as int) is None);
                        assert(le32_at(input@, 32) == n);
                        assert(!op_query_reply_parseable(input@));
                    }
                    return Err(ParserError::InvalidDocument);
                },
            };
            proof {
                lemma_parse_doc_bounds(input@, i as int);
                let ghost old_docs = documents@;
                crate::reply::lemma_docs_view_push(old_docs, d);
            }
            let ghost old_docs = documents@;
            documents.push(d);
            proof {
                lemma_docs_view_push(old_docs, documents@[documents@.len() - 1]);
                match sp_parse_docs(input@, end as int, n - k - 1) {
                    Some((ds, e2)) => {
                        assert(docs_view(old_docs) + (seq![doc_view(documents@[documents@.len()
                            - 1])] + ds) =~= docs_view(documents@) + ds);
                    },
                    None => {},
                }
                lemma_docs_view_len(documents@);
            }
            i = end;
            k += 1;
        }
        proof {
            assert(sp_parse_docs(input@, i as int, 0) == Some(
                (Seq::<Seq<(Seq<char>, crate::doc::SpecValue)>>::empty(), i as int),
            ));
            assert(docs_view(documents@) + Seq::<Seq<(Seq<char>, crate::doc::SpecValue)>>::empty()
                =~= docs_view(documents@));
        }
        if i != mlen {
            return Err(ParserError::LengthMismatch);
        }
        Ok(OpQueryReply { header, flags, cursor_id, starting_from, number_returned, documents })
    }

    /// Decodes the body of a modern reply, after its header.  A trailing
    /// four bytes inside the claimed length are read as the checksum.
    pub fn parse_op_msg_reply(header: MsgHeader, input: &Vec<u8>) -> (r: Result<
        OpMsgReply,
        ParserError,
    >)
        requires
            input@.len() >= 16,
            header == sp_header_at(input@, 0),
            header.op_code == 2013,
        ensures
            r is Ok <==> op_msg_reply_parseable(input@),
            r matches Ok(m) ==> op_msg_reply_consumed(input@, m),
    {
        let blen = input.len();
        if blen < 21 {
            return Err(ParserError::Truncated);
        }
        let mlen = header.message_length as usize;
        if mlen > blen {
            return Err(ParserError::LengthMismatch);
        }
        let flags = read_u32_le(input, 16);
        let kind = input[20];
        if kind != 0 {
            return Err(ParserError::UnimplementedSectionKind(kind));
        }
        let bson = Bson::new(crate::wire::copy_vec(input));
        let (payload, end) = match bson.parse_document(21) {
            Some(p) => p,
            None => {
                return Err(ParserError::InvalidDocument);
            },
        };
        proof {
            lemma_parse_doc_bounds(input@, 21);
        }
        let mut sections: Vec<Section> = Vec::new();
        sections.push(Section::Body(BodySection { payload }));
        if end > mlen {
            return Err(ParserError::LengthMismatch);
        }
        if mlen - end >= 4 {
            if end + 4 != mlen {
                return Err(ParserError::LengthMismatch);
            }
            let checksum = read_u32_le(input, end);
            Ok(OpMsgReply { header, flags, sections, checksum: Some(checksum) })
        } else {
            if end != mlen {
                return Err(ParserError::LengthMismatch);
            }
            Ok(OpMsgReply { header, flags, sections, checksum: None })
        }
    }

    /// Copies of the documents this reply carries.
    pub fn documents(&self) -> (r: Vec<Document>)
        requires
            self matches OpReply::OpMsg(m) ==> forall|j: int|
                0 <= j < m.sections@.len() ==> m.sections@[j] is Body,
    {
        match self {
            OpReply::OpQuery(q) => duplicate_docs(&q.documents),
            OpReply::OpMsg(m) => m.documents(),
        }
    }
}

fn duplicate_docs(ds: &Vec<Document>) -> (r: Vec<Document>)
    ensures
        r@.len() == ds@.len(),
        forall|j: int| 0 <= j < ds@.len() ==> doc_view(#[trigger] r@[j]) == doc_view(ds@[j]),
{
    let mut out: Vec<Document> = Vec::new();
    let n = ds.len();
    let mut i: usize = 0;
    while i < n
        invariant
            n == ds@.len(),
            0 <= i <= n,
            out@.len() == i,
            forall|j: int| 0 <= j < i ==> doc_view(#[trigger] out@[j]) == doc_view(ds@[j]),
        decreases n - i,
    {
        out.push(ds[i].duplicate());
        i += 1;
    }
    out
}

/// The on-wire form of a modern reply: recomputed length, ids, opcode,
/// flags, a single body section.  No checksum is ever written.
pub open spec fn op_msg_reply_bytes(r: OpMsgReply) -> Seq<u8> {
    le32_int(21 + sp_doc_bytes(doc_view(r.sections@[0]->Body_0.payload)).len() as int) + u32_le(
        r.header.request_id,
    ) + u32_le(r.header.response_to) + u32_le(r.header.op_code) + u32_le(r.flags) + seq![0u8]
        + sp_doc_bytes(doc_view(r.sections@[0]->Body_0.payload))
}

/// The on-wire form of a legacy reply: recomputed length, ids, the legacy
/// reply opcode, flags, cursor, window, count, then the documents.
pub open spec fn op_query_reply_bytes(r: OpQueryReply) -> Seq<u8> {
    le32_int(36 + docs_bytes(r.documents@).len() as int) + u32_le(r.header.request_id) + u32_le(
        r.header.response_to,
    ) + u32_le(1) + u32_le(r.flags) + u64_le(r.cursor_id) + u32_le(r.starting_from) + u32_le(
        r.number_returned,
    ) + docs_bytes(r.documents@)
}

pub open spec fn docs_bytes(ds: Seq<Document>) -> Seq<u8>
    decreases ds,
{
    if ds.len() == 0 {
        Seq::empty()
    } else {
        sp_doc_bytes(doc_view(ds[0])) + docs_bytes(ds.drop_first())
    }
}

pub proof fn lemma_docs_bytes_push(ds: Seq<Document>, d: Document)
    ensures
        docs_bytes(ds.push(d)) == docs_bytes(ds) + sp_doc_bytes(doc_view(d)),
    decreases ds,
{
    if ds.len() == 0 {
        let ps = ds.push(d);
        assert(ps[0] == d);
        assert(ps.drop_first() =~= Seq::<Document>::empty());
        assert(docs_bytes(ps.drop_first()) == Seq::<u8>::empty());
        assert(docs_bytes(ps) =~= docs_bytes(ds) + sp_doc_bytes(doc_view(d)));
    } else {
        assert(ds.push(d)[0] == ds[0]);
        assert(ds.push(d).drop_first() =~= ds.drop_first().push(d));
        lemma_docs_bytes_push(ds.drop_first(), d);
        assert(docs_bytes(ds.push(d)) =~= docs_bytes(ds) + sp_doc_bytes(doc_view(d)));
    }
}

pub open spec fn wf_docs(ds: Seq<Document>) -> bool {
    forall|j: int| 0 <= j < ds.len() ==> wf_elems(doc_view(#[trigger] ds[j]))
}

impl OpMsgReply {
    /// The reply shell for a request: the response-to field echoes the
    /// request's id, the opcode and flags are echoed, and no document is
    /// attached yet.
    pub fn from_msg(msg: &OpMsg) -> (r: OpMsgReply)
        ensures
            r.header.message_length == 0,
            r.header.request_id == 0,
            r.header.response_to == msg.header.request_id,
            r.header.op_code == msg.header.op_code,
            r.flags == msg.flags,
            r.sections@.len() == 0,
            r.checksum == msg.checksum,
    {
        OpMsgReply {
            header: MsgHeader {
                message_length: 0,
                request_id: 0,
                response_to: msg.header.request_id,
                op_code: msg.header.op_code,
            },
            flags: msg.flags,
            sections: Vec::new(),
            checksum: msg.checksum,
        }
    }

    /// Appends one result document as a body section.
    pub fn add_document(&mut self, doc: &Document)
        ensures
            final(self).header == old(self).header,
            final(self).flags == old(self).flags,
            final(self).checksum == old(self).checksum,
            final(self).sections@.len() == old(self).sections@.len() + 1,
            forall|j: int|
                0 <= j < old(self).sections@.len() ==> final(self).sections@[j] == old(
                    self,
                ).sections@[j],
            final(self).sections@.last() matches Section::Body(body) && doc_view(body.payload)
                == doc_view(*doc),
    {
        self.sections.push(Section::Body(BodySection { payload: doc.duplicate() }));
    }

    /// Copies of the body documents of this reply's sections.
    pub fn documents(&self) -> (r: Vec<Document>)
        requires
            forall|j: int| 0 <= j < self.sections@.len() ==> self.sections@[j] is Body,
        ensures
            r@.len() == self.sections@.len(),
            forall|j: int|
                0 <= j < r@.len() ==> doc_view(#[trigger] r@[j]) == doc_view(
                    self.sections@[j]->Body_0.payload,
                ),
    {
        let mut out: Vec<Document> = Vec::new();
        let n = self.sections.len();
        let mut i: usize = 0;
        while i < n
            invariant
                n == self.sections@.len(),
                0 <= i <= n,
                forall|j: int| 0 <= j < n ==> self.sections@[j] is Body,
                out@.len() == i,
                forall|j: int|
                    0 <= j < i ==> doc_view(#[trigger] out@[j]) == doc_view(
                        self.sections@[j]->Body_0.payload,
                    ),
            decreases n - i,
        {
            match &self.sections[i] {
                Section::Body(body) => {
                    out.push(body.payload.duplicate());
                },
                Section::DocumentSequence(_) => {
                    proof {
                        assert(false);
                    }
                },
            }
            i += 1;
        }
        out
    }

    /// Encodes this reply with its true total length.
    pub fn to_bytes(&self) -> (out: Vec<u8>)
        requires
            self.sections@.len() >= 1,
            self.sections@[0] is Body,
            wf_elems(doc_view(self.sections@[0]->Body_0.payload)),
        ensures
            out@ == op_msg_reply_bytes(*self),
    {
        let body = match &self.sections[0] {
            Section::Body(body) => body,
            Section::DocumentSequence(_) => {
                proof {
                    assert(false);
                }
                vstd::pervasive::unreached()
            },
        };
        let mut doc_bytes = body.payload.to_bytes();
        let mut out: Vec<u8> = Vec::new();
        crate::doc::push_len_add_le(&mut out, doc_bytes.len(), 21);
        crate::ints::push_u32_le(&mut out, self.header.request_id);
        crate::ints::push_u32_le(&mut out, self.header.response_to);
        crate::ints::push_u32_le(&mut out, self.header.op_code);
        crate::ints::push_u32_le(&mut out, self.flags);
        out.push(0);
        out.append(&mut doc_bytes);
        proof {
            assert(out@ =~= op_msg_reply_bytes(*self));
        }
        out
    }
}

impl OpQueryReply {
    /// The reply shell for a legacy query: response-to echoes the request
    /// id, the opcode is the legacy reply opcode, flags are echoed, and the
    /// batch is empty.
    pub fn from_query(q: &OpQuery) -> (r: OpQueryReply)
        ensures
            r.header.message_length == 0,
            r.header.request_id == 0,
            r.header.response_to == q.header.request_id,
            r.header.op_code == 1,
            r.flags == q.flags,
            r.cursor_id == 0,
            r.starting_from == 0,
            r.number_returned == 0,
            r.documents@.len() == 0,
    {
        OpQueryReply {
            header: MsgHeader {
                message_length: 0,
                request_id: 0,
                response_to: q.header.request_id,
                op_code: 1,
            },
            flags: q.flags,
            cursor_id: 0,
            starting_from: 0,
            number_returned: 0,
            documents: Vec::new(),
        }
    }

    /// Makes the given document the reply's single-document batch.
    pub fn add_document(&mut self, doc: &Document)
        ensures
            final(self).header == old(self).header,
            final(self).flags == old(self).flags,
            final(self).cursor_id == old(self).cursor_id,
            final(self).starting_from == old(self).starting_from,
            final(self).number_returned == 1,
            final(self).documents@.len() == 1,
            doc_view(final(self).documents@[0]) == doc_view(*doc),
    {
        let mut documents: Vec<Document> = Vec::new();
        documents.push(doc.duplicate());
        self.documents = documents;
        self.number_returned = 1;
    }

    /// Copies of the documents in the batch.
    pub fn documents(&self) -> (r: Vec<Document>)
        ensures
            r@.len() == self.documents@.len(),
            forall|j: int|
                0 <= j < r@.len() ==> doc_view(#[trigger] r@[j]) == doc_view(self.documents@[j]),
    {
        duplicate_docs(&self.documents)
    }

    pub fn set_flag(&mut self, flag: ResponseFlag)
        ensures
            final(self).flags == (old(self).flags | flag_bit(flag)),
            final(self).header == old(self).header,
            final(self).documents@ == old(self).documents@,
            final(self).number_returned == old(self).number_returned,
            final(self).cursor_id == old(self).cursor_id,
            final(self).starting_from == old(self).starting_from,
    {
        self.flags = self.flags | flag.bit();
    }

    pub fn has_flag(&self, flag: &ResponseFlag) -> (r: bool)
        ensures
            r == (self.flags & flag_bit(*flag) == flag_bit(*flag)),
    {
        self.flags & flag.bit() == flag.bit()
    }

    /// Encodes this reply with its true total length.
    pub fn to_bytes(&self) -> (out: Vec<u8>)
        requires
            wf_docs(self.documents@),
        ensures
            out@ == op_query_reply_bytes(*self),
    {
        let mut body: Vec<u8> = Vec::new();
        let n = self.documents.len();
        let mut i: usize = 0;
        while i < n
            invariant
                n == self.documents@.len(),
                0 <= i <= n,
                wf_docs(self.documents@),
                body@ == docs_bytes(self.documents@.subrange(0, i as int)),
            decreases n - i,
        {
            proof {
                assert(wf_elems(doc_view(self.documents@[i as int])));
                assert(self.documents@.subrange(0, i as int).push(self.documents@[i as int])
                    =~= self.documents@.subrange(0, i as int + 1));
                lemma_docs_bytes_push(
                    self.documents@.subrange(0, i as int),
                    self.documents@[i as int],
                );
            }
            let mut db = self.documents[i].to_bytes();
            body.append(&mut db);
            i += 1;
        }
        proof {
            assert(self.documents@.subrange(0, n as int) =~= self.documents@);
        }
        let mut out: Vec<u8> = Vec::new();
        crate::doc::push_len_add_le(&mut out, body.len(), 36);
        crate::ints::push_u32_le(&mut out, self.header.request_id);
        crate::ints::push_u32_le(&mut out, self.header.response_to);
        crate::ints::push_u32_le(&mut out, 1);
        crate::ints::push_u32_le(&mut out, self.flags);
        crate::ints::push_u64_le(&mut out, self.cursor_id);
        crate::ints::push_u32_le(&mut out, self.starting_from);
        crate::ints::push_u32_le(&mut out, self.number_returned);
        out.append(&mut body);
        proof {
            assert(out@ =~= op_query_reply_bytes(*self));
        }
        out
    }
}

} // verus!
