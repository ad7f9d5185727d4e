use vstd::prelude::*;

use crate::command::{CommandResult, DOUBLE_ONE_BITS};
use crate::doc::{Array, Document, SpecValue, Value, arr_view, doc_view, wf_elems};
use crate::error::Error;
use crate::text::{wf_cstring, wf_string};
use crate::wire::OpCode;

verus! {

pub open spec fn sp_version_array() -> Seq<SpecValue> {
    seq![
        SpecValue::Int32(5),
        SpecValue::Int32(0),
        SpecValue::Int32(42),
        SpecValue::Int32(0),
    ]
}

pub open spec fn sp_buildinfo_doc() -> Seq<(Seq<char>, SpecValue)> {
    seq![
        ("version"@, SpecValue::Text("5.0.42"@)),
        ("gitVersion"@, SpecValue::Text("30cf72e1380e1732c0e24016f092ed58e38eeb58"@)),
        ("modules"@, SpecValue::Array(Seq::empty())),
        ("sysInfo"@, SpecValue::Text("deprecated"@)),
        ("versionArray"@, SpecValue::Array(sp_version_array())),
        ("bits"@, SpecValue::Int32(64)),
        ("debug"@, SpecValue::Boolean(false)),
        ("maxBsonObjectSize"@, SpecValue::Int32(16777216)),
        ("buildEnvironment"@, SpecValue::Document(Seq::empty())),
        ("ok"@, SpecValue::Double(0x3FF0000000000000)),
    ]
}

/// Describes the build; only the modern request shape is served.
pub fn run(msg: &OpCode) -> (r: CommandResult)
    ensures
        *msg is OpMsg ==> (r matches Ok(d) && doc_view(d) == sp_buildinfo_doc() && wf_elems(
            doc_view(d),
        )),
        *msg is OpQuery ==> r == Err::<Document, Error>(Error::InvalidOpCode),
{
    match msg {
        OpCode::OpMsg(_) => {
            let mut va = Array::new();
            va.push_item(Value::Int32(5));
            va.push_item(Value::Int32(0));
            va.push_item(Value::Int32(42));
            va.push_item(Value::Int32(0));
            proof {
                assert(arr_view(va) =~= sp_version_array());
            }
            let mut d = Document::new();
            d.push_field("version", Value::Text("5.0.42".to_owned()));
            d.push_field(
                "gitVersion",
                Value::Text("30cf72e1380e1732c0e24016f092ed58e38eeb58".to_owned()),
            );
            d.push_field("modules", Value::Array(Array::new()));
            d.push_field("sysInfo", Value::Text("deprecated".to_owned()));
            d.push_field("versionArray", Value::Array(va));
            d.push_field("bits", Value::Int32(64));
            d.push_field("debug", Value::Boolean(false));
            d.push_field("maxBsonObjectSize", Value::Int32(16777216));
            d.push_field("buildEnvironment", Value::Document(Document::new()));
            d.push_field("ok", Value::Double(DOUBLE_ONE_BITS));
            proof {
                reveal_strlit("version");
                reveal_strlit("gitVersion");
                reveal_strlit("modules");
                reveal_strlit("sysInfo");
                reveal_strlit("versionArray");
                reveal_strlit("bits");
                reveal_strlit("debug");
                reveal_strlit("maxBsonObjectSize");
                reveal_strlit("buildEnvironment");
                reveal_strlit("ok");
                reveal_strlit("5.0.42");
                reveal_strlit("30cf72e1380e1732c0e24016f092ed58e38eeb58");
                reveal_strlit("deprecated");
                assert(wf_cstring("version"@));
                assert(wf_cstring("gitVersion"@));
                assert(wf_cstring("modules"@));
                assert(wf_cstring("sysInfo"@));
                assert(wf_cstring("versionArray"@));
                assert(wf_cstring("bits"@));
                assert(wf_cstring("debug"@));
                assert(wf_cstring("maxBsonObjectSize"@));
                assert(wf_cstring("buildEnvironment"@));
                assert(wf_cstring("ok"@));
                assert(wf_string("5.0.42"@));
                assert(wf_string("30cf72e1380e1732c0e24016f092ed58e38eeb58"@));
                assert(wf_string("deprecated"@));
                assert(doc_view(d) =~~= sp_buildinfo_doc());
            }
            Ok(d)
        },
        OpCode::OpQuery(_) => Err(Error::InvalidOpCode),
    }
}

} // verus!
