use vstd::prelude::*;

use crate::command::CommandResult;
use crate::doc::{Document, SpecValue, Value, doc_view, wf_elems};
use crate::text::{wf_cstring, wf_string};

verus! {

/// The error reply document: command failures are ordinary documents with a
/// zero `ok` marker, never transport failures.
pub open spec fn sp_error_doc(msg: Seq<char>) -> Seq<(Seq<char>, SpecValue)> {
    seq![
        ("ok"@, SpecValue::Double(0)),
        ("errmsg"@, SpecValue::Text(msg)),
        ("code"@, SpecValue::Int32(59)),
        ("codeName"@, SpecValue::Text("CommandNotFound"@)),
    ]
}

/// Wraps a failure message as an error reply document.
pub fn run(message: String) -> (r: CommandResult)
    requires
        wf_string(message@),
    ensures
        r matches Ok(d) && doc_view(d) == sp_error_doc(message@) && wf_elems(doc_view(d)),
{
    let mut d = Document::new();
    let ghost msg = message@;
    d.push_field("ok", Value::Double(0));
    d.push_field("errmsg", Value::Text(message));
    d.push_field("code", Value::Int32(59));
    d.push_field("codeName", Value::Text("CommandNotFound".to_owned()));
    proof {
        reveal_strlit("ok");
        reveal_strlit("errmsg");
        reveal_strlit("code");
        reveal_strlit("codeName");
        reveal_strlit("CommandNotFound");
        assert(wf_cstring("ok"@));
        assert(wf_cstring("errmsg"@));
        assert(wf_cstring("code"@));
        assert(wf_cstring("codeName"@));
        assert(wf_string("CommandNotFound"@));
        assert(doc_view(d) =~~= sp_error_doc(msg));
    }
    Ok(d)
}

} // verus!
