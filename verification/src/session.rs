use vstd::prelude::*;

use crate::bson::{sp_first_nul, sp_parse_doc, lemma_parsed_doc_wf};
use crate::command::{Command, CommandResult, sp_from_command, sp_pure_doc, sp_storage_backed};
use crate::command::error::sp_error_doc;
use crate::doc::{SpecValue, doc_view, lemma_wf_elems_at, sp_doc_bytes, sp_first_key, wf_elems};
use crate::error::Error;
use crate::ints::{le32_at, le32_int, u32_le, u64_le};
use crate::reply::{OpMsgReply, OpQueryReply};
use crate::text::wf_string;
use crate::wire::{OpCode, ParserError, Section, msg_parseable, op_code_consumed, op_msg_parseable, op_query_parseable, parse};

verus! {

// The per-connection session: frames one message at a time off the stream,
// dispatches it, and produces the exact reply bytes.  The surrounding
// program performs the reads and writes; every decision is made here.

/// The document carried by a parseable request.
pub open spec fn sp_request_doc(b: Seq<u8>) -> Seq<(Seq<char>, SpecValue)> {
    if op_msg_parseable(b) {
        sp_parse_doc(b, 21)->Some_0.0
    } else {
        sp_parse_doc(b, sp_first_nul(b, 20)->Some_0 + 9)->Some_0.0
    }
}

/// The command a parseable request names: the first key of its document,
/// with an empty legacy query defaulting to the handshake command.
pub open spec fn sp_request_command(b: Seq<u8>) -> Option<Seq<char>> {
    if op_msg_parseable(b) {
        sp_first_key(sp_request_doc(b))
    } else {
        match sp_first_key(sp_request_doc(b)) {
            Some(k) => Some(k),
            None => Some("ismaster"@),
        }
    }
}

/// The reply document owed for a parseable request; `None` exactly when the
/// command needs the storage engine.
pub open spec fn sp_response_doc(b: Seq<u8>, now_millis: u64) -> Option<
    Seq<(Seq<char>, SpecValue)>,
> {
    match sp_request_command(b) {
        Some(name) => match sp_from_command(name) {
            Some(c) => if sp_storage_backed(c) {
                None
            } else {
                Some(sp_pure_doc(c, op_msg_parseable(b), now_millis))
            },
            None => Some(sp_error_doc("unknown command: "@ + name)),
        },
        None => Some(sp_error_doc("unknown command: "@)),
    }
}

/// The reply bytes for a modern request: recomputed length, a zero request
/// id, the request's id echoed as response-to, the opcode and flags echoed,
/// one body section.
pub open spec fn sp_msg_reply_of(req_id: u32, op_code: u32, flags: u32, doc: Seq<(Seq<char>, SpecValue)>) -> Seq<u8> {
    le32_int(21 + sp_doc_bytes(doc).len() as int) + u32_le(0) + u32_le(req_id) + u32_le(op_code)
        + u32_le(flags) + seq![0u8] + sp_doc_bytes(doc)
}

/// The reply bytes for a legacy query: the legacy reply opcode, no cursor,
/// a single-document batch.
pub open spec fn sp_query_reply_of(req_id: u32, flags: u32, doc: Seq<(Seq<char>, SpecValue)>) -> Seq<u8> {
    le32_int(36 + sp_doc_bytes(doc).len() as int) + u32_le(0) + u32_le(req_id) + u32_le(1)
        + u32_le(flags) + u64_le(0) + u32_le(0) + u32_le(1) + sp_doc_bytes(doc)
}

/// The exact bytes the session answers a parseable, core-handled request
/// with.
pub open spec fn sp_session_reply(b: Seq<u8>, now_millis: u64) -> Seq<u8> {
    if op_msg_parseable(b) {
        sp_msg_reply_of(
            le32_at(b, 4),
            le32_at(b, 12),
            le32_at(b, 16),
            sp_response_doc(b, now_millis)->Some_0,
        )
    } else {
        sp_query_reply_of(le32_at(b, 4), le32_at(b, 16), sp_response_doc(b, now_millis)->Some_0)
    }
}

/// The reply answers the request: its response-to field carries the
/// request's id.
pub open spec fn reply_correlated(req: Seq<u8>, rep: Seq<u8>) -> bool {
    rep.len() >= 12 && le32_at(rep, 8) == le32_at(req, 4)
}

/// What the session asks its caller to do after a peek at the stream.
#[derive(Clone, Copy, Debug, PartialEq, Eq, Structural)]
pub enum FrameDecision {
    /// Read and buffer a frame of this many bytes.
    Read(u32),
    /// The peer is done; close without error.
    Close,
}

/// A storage-backed command, handed out for the surrounding program to
/// execute against the storage engine.
pub struct StorageCall {
    pub command: Command,
    pub request: OpCode,
}

pub enum FrameResult {
    /// The exact bytes to write back.
    Reply(Vec<u8>),
    /// The storage engine must answer; see `storage_reply`.
    Storage(StorageCall),
    /// The frame is malformed; the session is closed.
    Abort(ParserError),
}

/// One client connection's state: requests are answered strictly in order,
/// and the session closes on clean end-of-stream or on a framing error.
pub struct Session {
    pub connection_id: u32,
    pub open: bool,
}

impl Session {
    pub fn new(connection_id: u32) -> (r: Session)
        ensures
            r.open,
            r.connection_id == connection_id,
    {
        Session { connection_id, open: true }
    }

    /// Decides what to do after peeking at the stream: a peer that closed
    /// its side, or a zero length field, ends the session cleanly; anything
    /// else asks for one frame of the peeked length.
    pub fn plan_frame(&mut self, peeked: usize, size: u32) -> (r: FrameDecision)
        requires
            old(self).open,
        ensures
            final(self).connection_id == old(self).connection_id,
            (peeked == 0 || size == 0) ==> r == FrameDecision::Close && !final(self).open,
            (peeked > 0 && size > 0) ==> r == FrameDecision::Read(size) && final(self).open,
    {
        if peeked == 0 || size == 0 {
            self.open = false;
            FrameDecision::Close
        } else {
            FrameDecision::Read(size)
        }
    }

    /// Handles one buffered frame: decodes it, answers a core command with
    /// the exact owed reply (an unknown command gets an ordinary error
    /// document and the session stays open), hands a storage-backed command
    /// out, and closes the session on a malformed frame.
    #[verifier::rlimit(100)]
    pub fn handle_frame(&mut self, data: Vec<u8>, now_millis: u64) -> (r: FrameResult)
        requires
            old(self).open,
        ensures
            final(self).connection_id == old(self).connection_id,
            r matches FrameResult::Abort(e) ==> !final(self).open && !msg_parseable(data@),
            !msg_parseable(data@) ==> r is Abort,
            r matches FrameResult::Reply(rep) ==> final(self).open && msg_parseable(data@) && rep@
                == sp_session_reply(data@, now_millis) && reply_correlated(data@, rep@),
            r matches FrameResult::Storage(call) ==> final(self).open && msg_parseable(data@)
                && op_code_consumed(data@, call.request) && (sp_request_command(data@) matches Some(
            n) && sp_from_command(n) == Some(call.command)) && sp_storage_backed(call.command),
            msg_parseable(data@) && sp_response_doc(data@, now_millis) is Some ==> r is Reply,
            msg_parseable(data@) && sp_response_doc(data@, now_millis) is None ==> r is Storage,
    {
        let ghost b = data@;
        let parsed = match parse(data) {
            Ok(c) => c,
            Err(e) => {
                self.open = false;
                return FrameResult::Abort(e);
            },
        };
        proof {
            if parsed is OpMsg {
                assert(op_msg_parseable(b));
                assert(doc_view(crate::wire::msg_payload(parsed->OpMsg_0)) == sp_request_doc(b));
            } else {
                assert(!op_msg_parseable(b)) by {
                    assert(le32_at(b, 12) == 2004);
                }
                assert(op_query_parseable(b));
                assert(doc_view(parsed->OpQuery_0.query) == sp_request_doc(b));
            }
        }
        // the command name
        let name_opt: Option<String> = match &parsed {
            OpCode::OpMsg(m) => {
                match &m.sections[0] {
                    Section::Body(body) => match body.payload.first_key() {
                        Some(k) => Some(k.clone()),
                        None => None,
                    },
                    Section::DocumentSequence(_) => {
                        proof {
                            assert(false);
                        }
                        vstd::pervasive::unreached()
                    },
                }
            },
            OpCode::OpQuery(q) => match q.query.first_key() {
                Some(k) => Some(k.clone()),
                None => Some("ismaster".to_owned()),
            },
        };
        proof {
            if name_opt is Some {
                assert(sp_request_command(b) == Some(name_opt->0@));
            } else {
                assert(sp_request_command(b) is None);
            }
        }
        let name = match name_opt {
            Some(n) => n,
            None => {
                // an empty request document names no command
                proof {
                    reveal_strlit("unknown command: ");
                    assert(wf_string("unknown command: "@));
                }
                let doc = match crate::command::error::run("unknown command: ".to_owned()) {
                    Ok(d) => d,
                    Err(_) => {
                        proof {
                            assert(false);
                        }
                        vstd::pervasive::unreached()
                    },
                };
                return self.encode_reply(&parsed, doc, Ghost(b), Ghost(now_millis));
            },
        };
        proof {
            reveal_strlit("ismaster");
            assert(wf_string("ismaster"@));
            if op_msg_parseable(b) {
                lemma_parsed_doc_wf(b, 21);
            } else {
                lemma_parsed_doc_wf(b, sp_first_nul(b, 20)->Some_0 + 9);
            }
            if sp_first_key(sp_request_doc(b)) is Some {
                lemma_wf_elems_at(sp_request_doc(b), 0);
            }
            assert(wf_string(name@));
        }
        match Command::from_command_str(name.as_str()) {
            Some(cmd) => {
                if cmd.is_storage_backed() {
                    FrameResult::Storage(StorageCall { command: cmd, request: parsed })
                } else {
                    let doc = match cmd.execute(&parsed, now_millis) {
                        Ok(d) => d,
                        Err(_) => {
                            proof {
                                assert(false);
                            }
                            vstd::pervasive::unreached()
                        },
                    };
                    self.encode_reply(&parsed, doc, Ghost(b), Ghost(now_millis))
                }
            },
            None => {
                let e = Error::UnknownCommand(name);
                proof {
                    reveal_strlit("unknown command: ");
                    assert(wf_string("unknown command: "@));
                    assert(wf_string(crate::error::sp_error_message(e)));
                }
                let doc = match crate::command::error::run(e.message()) {
                    Ok(d) => d,
                    Err(_) => {
                        proof {
                            assert(false);
                        }
                        vstd::pervasive::unreached()
                    },
                };
                self.encode_reply(&parsed, doc, Ghost(b), Ghost(now_millis))
            },
        }
    }

    /// Encodes the owed reply for a decoded request.
    fn encode_reply(
        &mut self,
        request: &OpCode,
        doc: crate::doc::Document,
        Ghost(b): Ghost<Seq<u8>>,
        Ghost(now_millis): Ghost<u64>,
    ) -> (r: FrameResult)
        requires
            old(self).open,
            wf_elems(doc_view(doc)),
            op_code_consumed(b, *request),
            msg_parseable(b),
            sp_response_doc(b, now_millis) matches Some(dv) && doc_view(doc) == dv,
        ensures
            *final(self) == *old(self),
            r matches FrameResult::Reply(rep) && rep@ == sp_session_reply(b, now_millis)
                && reply_correlated(b, rep@),
    {
        proof {
            crate::ints::lemma_u32_le(le32_at(b, 4));
        }
        match request {
            OpCode::OpMsg(m) => {
                let mut rep = OpMsgReply::from_msg(m);
                rep.add_document(&doc);
                let bytes = rep.to_bytes();
                proof {
                    assert(op_msg_parseable(b)) by {
                        assert(le32_at(b, 12) == 2013);
                    }
                    assert(bytes@ =~= sp_session_reply(b, now_millis));
                    assert(bytes@.len() >= 12);
                    assert(le32_at(bytes@, 8) == le32_at(b, 4)) by {
                        assert(bytes@[8] == u32_le(le32_at(b, 4))[0]);
                        assert(bytes@[9] == u32_le(le32_at(b, 4))[1]);
                        assert(bytes@[10] == u32_le(le32_at(b, 4))[2]);
                        assert(bytes@[11] == u32_le(le32_at(b, 4))[3]);
                    }
                }
                FrameResult::Reply(bytes)
            },
            OpCode::OpQuery(q) => {
                let mut rep = OpQueryReply::from_query(q);
                rep.add_document(&doc);
                let bytes = rep.to_bytes();
                proof {
                    assert(!op_msg_parseable(b)) by {
                        assert(le32_at(b, 12) == 2004);
                    }
                    assert(crate::reply::docs_bytes(rep.documents@) =~= sp_doc_bytes(doc_view(doc)))
                        by {
                        assert(rep.documents@.drop_first() =~= Seq::<crate::doc::Document>::empty());
                        assert(crate::reply::docs_bytes(rep.documents@.drop_first())
                            =~= Seq::<u8>::empty());
                        assert(doc_view(rep.documents@[0]) == doc_view(doc));
                        assert(crate::reply::docs_bytes(rep.documents@) == sp_doc_bytes(
                            doc_view(rep.documents@[0]),
                        ) + crate::reply::docs_bytes(rep.documents@.drop_first()));
                    }
                    assert(bytes@ =~= sp_session_reply(b, now_millis));
                    assert(bytes@.len() >= 12);
                    assert(le32_at(bytes@, 8) == le32_at(b, 4)) by {
                        assert(bytes@[8] == u32_le(le32_at(b, 4))[0]);
                        assert(bytes@[9] == u32_le(le32_at(b, 4))[1]);
                        assert(bytes@[10] == u32_le(le32_at(b, 4))[2]);
                        assert(bytes@[11] == u32_le(le32_at(b, 4))[3]);
                    }
                }
                FrameResult::Reply(bytes)
            },
        }
    }
}

/// Encodes the reply for a storage-backed command once the surrounding
/// program has run it: a result document, or an ordinary error document.
pub fn storage_reply(request: &OpCode, outcome: CommandResult) -> (r: Vec<u8>)
    requires
        outcome matches Ok(d) ==> wf_elems(doc_view(d)),
        outcome matches Err(e) ==> wf_string(crate::error::sp_error_message(e)),
    ensures
        r@ == (match request {
            OpCode::OpMsg(m) => sp_msg_reply_of(
                m.header.request_id,
                m.header.op_code,
                m.flags,
                match outcome {
                    Ok(d) => doc_view(d),
                    Err(e) => sp_error_doc(crate::error::sp_error_message(e)),
                },
            ),
            OpCode::OpQuery(q) => sp_query_reply_of(
                q.header.request_id,
                q.flags,
                match outcome {
                    Ok(d) => doc_view(d),
                    Err(e) => sp_error_doc(crate::error::sp_error_message(e)),
                },
            ),
        }),
{
    let doc = match outcome {
        Ok(d) => d,
        Err(e) => match crate::command::error::run(e.message()) {
            Ok(d) => d,
            Err(_) => {
                proof {
                    assert(false);
                }
                vstd::pervasive::unreached()
            },
        },
    };
    match request {
        OpCode::OpMsg(m) => {
            let mut rep = OpMsgReply::from_msg(m);
            rep.add_document(&doc);
            let bytes = rep.to_bytes();
            proof {
                assert(bytes@ =~= sp_msg_reply_of(
                    m.header.request_id,
                    m.header.op_code,
                    m.flags,
                    doc_view(doc),
                ));
            }
            bytes
        },
        OpCode::OpQuery(q) => {
            let mut rep = OpQueryReply::from_query(q);
            rep.add_document(&doc);
            let bytes = rep.to_bytes();
            proof {
                assert(crate::reply::docs_bytes(rep.documents@) =~= sp_doc_bytes(doc_view(doc)))
                    by {
                    assert(rep.documents@.drop_first() =~= Seq::<crate::doc::Document>::empty());
                    assert(crate::reply::docs_bytes(rep.documents@.drop_first())
                        =~= Seq::<u8>::empty());
                    assert(doc_view(rep.documents@[0]) == doc_view(doc));
                    assert(crate::reply::docs_bytes(rep.documents@) == sp_doc_bytes(
                        doc_view(rep.documents@[0]),
                    ) + crate::reply::docs_bytes(rep.documents@.drop_first()));
                }
                assert(bytes@ =~= sp_query_reply_of(q.header.request_id, q.flags, doc_view(doc)));
            }
            bytes
        },
    }
}

} // verus!
