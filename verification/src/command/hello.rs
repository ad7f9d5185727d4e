use vstd::prelude::*;

use crate::command::{CommandResult, DOUBLE_ONE_BITS};
use crate::doc::{Document, SpecValue, Value, doc_view, wf_elems};
use crate::text::wf_cstring;

verus! {

pub open spec fn sp_hello_doc(now_millis: u64) -> Seq<(Seq<char>, SpecValue)> {
    seq![
        ("isWritablePrimary"@, SpecValue::Boolean(true)),
        ("maxWireVersion"@, SpecValue::Int32(13)),
        ("minWireVersion"@, SpecValue::Int32(0)),
        ("localTime"@, SpecValue::UtcDateTime(now_millis)),
        ("ok"@, SpecValue::Double(0x3FF0000000000000)),
    ]
}

/// Answers the modern handshake.
pub fn run(now_millis: u64) -> (r: CommandResult)
    ensures
        r matches Ok(d) && doc_view(d) == sp_hello_doc(now_millis) && wf_elems(doc_view(d)),
{
    let mut d = Document::new();
    d.push_field("isWritablePrimary", Value::Boolean(true));
    d.push_field("maxWireVersion", Value::Int32(13));
    d.push_field("minWireVersion", Value::Int32(0));
    d.push_field("localTime", Value::UtcDateTime(now_millis));
    d.push_field("ok", Value::Double(DOUBLE_ONE_BITS));
    proof {
        reveal_strlit("isWritablePrimary");
        reveal_strlit("maxWireVersion");
        reveal_strlit("minWireVersion");
        reveal_strlit("localTime");
        reveal_strlit("ok");
        assert(wf_cstring("isWritablePrimary"@));
        assert(wf_cstring("maxWireVersion"@));
        assert(wf_cstring("minWireVersion"@));
        assert(wf_cstring("localTime"@));
        assert(wf_cstring("ok"@));
        assert(doc_view(d) =~~= sp_hello_doc(now_millis));
    }
    Ok(d)
}

} // verus!
