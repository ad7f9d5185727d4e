use vstd::prelude::*;

use crate::ints::{le32_at, push_u32_le, read_u32_le, u32_le};
use crate::wire::ParserError;

verus! {

/// The fixed sixteen-byte message header: total length, request id,
/// response-to id, and opcode, all little-endian.
#[derive(Clone, Copy, Debug, PartialEq, Eq, Structural)]
pub struct MsgHeader {
    pub message_length: u32,
    pub request_id: u32,
    pub response_to: u32,
    pub op_code: u32,
}

pub open spec fn header_bytes(h: MsgHeader) -> Seq<u8> {
    u32_le(h.message_length) + u32_le(h.request_id) + u32_le(h.response_to) + u32_le(h.op_code)
}

/// The header whose four fields sit at offset `i`.
pub open spec fn sp_header_at(b: Seq<u8>, i: int) -> MsgHeader {
    MsgHeader {
        message_length: le32_at(b, i),
        request_id: le32_at(b, i + 4),
        response_to: le32_at(b, i + 8),
        op_code: le32_at(b, i + 12),
    }
}

pub proof fn lemma_header_bytes(h: MsgHeader)
    ensures
        header_bytes(h).len() == 16,
        sp_header_at(header_bytes(h), 0) == h,
{
    crate::ints::lemma_u32_le(h.message_length);
    crate::ints::lemma_u32_le(h.request_id);
    crate::ints::lemma_u32_le(h.response_to);
    crate::ints::lemma_u32_le(h.op_code);
    let hb = header_bytes(h);
    assert(le32_at(hb, 0) == h.message_length);
    assert(le32_at(hb, 4) == h.request_id);
    assert(le32_at(hb, 8) == h.response_to);
    assert(le32_at(hb, 12) == h.op_code);
}

impl MsgHeader {
    /// Decodes a header from the front of a buffer; anything shorter than
    /// sixteen bytes is a truncated frame.
    pub fn from_slice(input: &Vec<u8>) -> (r: Result<MsgHeader, ParserError>)
        ensures
            input@.len() >= 16 ==> r == Ok::<MsgHeader, ParserError>(sp_header_at(input@, 0)),
            input@.len() < 16 ==> r == Err::<MsgHeader, ParserError>(ParserError::Truncated),
    {
        if input.len() < 16 {
            return Err(ParserError::Truncated);
        }
        Ok(MsgHeader {
            message_length: read_u32_le(input, 0),
            request_id: read_u32_le(input, 4),
            response_to: read_u32_le(input, 8),
            op_code: read_u32_le(input, 12),
        })
    }

    /// Decodes a header from the front of a buffer known to hold one.
    pub fn new(bytes: &Vec<u8>) -> (r: MsgHeader)
        requires
            bytes@.len() >= 16,
        ensures
            r == sp_header_at(bytes@, 0),
    {
        MsgHeader {
            message_length: read_u32_le(bytes, 0),
            request_id: read_u32_le(bytes, 4),
            response_to: read_u32_le(bytes, 8),
            op_code: read_u32_le(bytes, 12),
        }
    }

    pub fn message_length(&self) -> (r: u32)
        ensures
            r == self.message_length,
    {
        self.message_length
    }

    pub fn request_id(&self) -> (r: u32)
        ensures
            r == self.request_id,
    {
        self.request_id
    }

    pub fn response_to(&self) -> (r: u32)
        ensures
            r == self.response_to,
    {
        self.response_to
    }

    pub fn op_code(&self) -> (r: u32)
        ensures
            r == self.op_code,
    {
        self.op_code
    }

    /// Appends the sixteen header bytes.
    pub fn push_bytes(&self, out: &mut Vec<u8>)
        ensures
            final(out)@ == old(out)@ + header_bytes(*self),
    {
        push_u32_le(out, self.message_length);
        push_u32_le(out, self.request_id);
        push_u32_le(out, self.response_to);
        push_u32_le(out, self.op_code);
        proof {
            assert(final(out)@ =~= old(out)@ + header_bytes(*self));
        }
    }
}

} // verus!
