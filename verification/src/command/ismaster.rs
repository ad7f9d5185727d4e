use vstd::prelude::*;

use crate::command::{CommandResult, DOUBLE_ONE_BITS};
use crate::doc::{Document, SpecValue, Value, doc_view, wf_elems};
use crate::text::wf_cstring;
use crate::wire::OpCode;

verus! {

pub open spec fn sp_ismaster_doc(now_millis: u64) -> Seq<(Seq<char>, SpecValue)> {
    seq![
        ("ismaster"@, SpecValue::Boolean(true)),
        ("maxBsonObjectSize"@, SpecValue::Int32(16777216)),
        ("maxMessageSizeBytes"@, SpecValue::Int32(48000000)),
        ("maxWriteBatchSize"@, SpecValue::Int32(100000)),
        ("localTime"@, SpecValue::UtcDateTime(now_millis)),
        ("minWireVersion"@, SpecValue::Int32(0)),
        ("maxWireVersion"@, SpecValue::Int32(13)),
        ("readOnly"@, SpecValue::Boolean(false)),
        ("ok"@, SpecValue::Double(0x3FF0000000000000)),
    ]
}

/// Answers the legacy handshake; the caller supplies the clock reading that
/// becomes the advertised local time.
pub fn run(_msg: &OpCode, now_millis: u64) -> (r: CommandResult)
    ensures
        r matches Ok(d) && doc_view(d) == sp_ismaster_doc(now_millis) && wf_elems(doc_view(d)),
{
    let mut d = Document::new();
    d.push_field("ismaster", Value::Boolean(true));
    d.push_field("maxBsonObjectSize", Value::Int32(16777216));
    d.push_field("maxMessageSizeBytes", Value::Int32(48000000));
    d.push_field("maxWriteBatchSize", Value::Int32(100000));
    d.push_field("localTime", Value::UtcDateTime(now_millis));
    d.push_field("minWireVersion", Value::Int32(0));
    d.push_field("maxWireVersion", Value::Int32(13));
    d.push_field("readOnly", Value::Boolean(false));
    d.push_field("ok", Value::Double(DOUBLE_ONE_BITS));
    proof {
        reveal_strlit("ismaster");
        reveal_strlit("maxBsonObjectSize");
        reveal_strlit("maxMessageSizeBytes");
        reveal_strlit("maxWriteBatchSize");
        reveal_strlit("localTime");
        reveal_strlit("minWireVersion");
        reveal_strlit("maxWireVersion");
        reveal_strlit("readOnly");
        reveal_strlit("ok");
        assert(wf_cstring("ismaster"@));
        assert(wf_cstring("maxBsonObjectSize"@));
        assert(wf_cstring("maxMessageSizeBytes"@));
        assert(wf_cstring("maxWriteBatchSize"@));
        assert(wf_cstring("localTime"@));
        assert(wf_cstring("minWireVersion"@));
        assert(wf_cstring("maxWireVersion"@));
        assert(wf_cstring("readOnly"@));
        assert(wf_cstring("ok"@));
        assert(doc_view(d) =~~= sp_ismaster_doc(now_millis));
    }
    Ok(d)
}

} // verus!
