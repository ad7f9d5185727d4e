use vstd::prelude::*;

use crate::command::{CommandResult, DOUBLE_ONE_BITS};
use crate::doc::{Document, SpecValue, Value, doc_view};
use crate::text::wf_cstring;

verus! {

pub open spec fn sp_ping_doc() -> Seq<(Seq<char>, SpecValue)> {
    seq![("ok"@, SpecValue::Double(0x3FF0000000000000))]
}

/// Answers a liveness probe.
pub fn run() -> (r: CommandResult)
    ensures
        r matches Ok(d) && doc_view(d) == sp_ping_doc() && crate::doc::wf_elems(doc_view(d)),
{
    let mut d = Document::new();
    d.push_field("ok", Value::Double(DOUBLE_ONE_BITS));
    proof {
        reveal_strlit("ok");
        assert(wf_cstring("ok"@));
        assert(doc_view(d) =~~= sp_ping_doc());
    }
    Ok(d)
}

} // verus!
