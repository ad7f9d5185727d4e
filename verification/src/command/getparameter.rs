use vstd::prelude::*;

use crate::command::{CommandResult, DOUBLE_ONE_BITS};
use crate::doc::{Document, SpecValue, Value, doc_view, wf_elems};
use crate::error::Error;
use crate::text::wf_cstring;
use crate::wire::OpCode;

verus! {

pub open spec fn sp_getparameter_doc() -> Seq<(Seq<char>, SpecValue)> {
    seq![("ok"@, SpecValue::Double(0x3FF0000000000000))]
}

/// Acknowledges a parameter query; only the modern request shape is served.
pub fn run(msg: &OpCode) -> (r: CommandResult)
    ensures
        *msg is OpMsg ==> (r matches Ok(d) && doc_view(d) == sp_getparameter_doc() && wf_elems(
            doc_view(d),
        )),
        *msg is OpQuery ==> r == Err::<Document, Error>(Error::InvalidOpCode),
{
    match msg {
        OpCode::OpMsg(_) => {
            let mut d = Document::new();
            d.push_field("ok", Value::Double(DOUBLE_ONE_BITS));
            proof {
                reveal_strlit("ok");
                assert(wf_cstring("ok"@));
                assert(doc_view(d) =~~= sp_getparameter_doc());
            }
            Ok(d)
        },
        OpCode::OpQuery(_) => Err(Error::InvalidOpCode),
    }
}

} // verus!
