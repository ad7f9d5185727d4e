use vstd::prelude::*;

use crate::command::{CommandResult, DOUBLE_ONE_BITS};
use crate::doc::{Array, Document, SpecValue, Value, arr_view, doc_view, wf_elems};
use crate::error::Error;
use crate::text::{wf_cstring, wf_string};
use crate::wire::OpCode;

verus! {

pub open spec fn sp_getcmdlineopts_doc() -> Seq<(Seq<char>, SpecValue)> {
    seq![
        ("argv"@, SpecValue::Array(seq![SpecValue::Text("oxidedb"@)])),
        ("parsed"@, SpecValue::Document(Seq::empty())),
        ("ok"@, SpecValue::Double(0x3FF0000000000000)),
    ]
}

/// Reports the command line the server was started with; only the modern
/// request shape is served.
pub fn run(msg: &OpCode) -> (r: CommandResult)
    ensures
        *msg is OpMsg ==> (r matches Ok(d) && doc_view(d) == sp_getcmdlineopts_doc() && wf_elems(
            doc_view(d),
        )),
        *msg is OpQuery ==> r == Err::<Document, Error>(Error::InvalidOpCode),
{
    match msg {
        OpCode::OpMsg(_) => {
            let mut argv = Array::new();
            argv.push_item(Value::Text("oxidedb".to_owned()));
            let mut d = Document::new();
            d.push_field("argv", Value::Array(argv));
            d.push_field("parsed", Value::Document(Document::new()));
            d.push_field("ok", Value::Double(DOUBLE_ONE_BITS));
            proof {
                reveal_strlit("argv");
                reveal_strlit("parsed");
                reveal_strlit("ok");
                reveal_strlit("oxidedb");
                assert(wf_cstring("argv"@));
                assert(wf_cstring("parsed"@));
                assert(wf_cstring("ok"@));
                assert(wf_string("oxidedb"@));
                assert(doc_view(d) =~~= sp_getcmdlineopts_doc());
            }
            Ok(d)
        },
        OpCode::OpQuery(_) => Err(Error::InvalidOpCode),
    }
}

} // verus!
