use vstd::prelude::*;

use crate::command::CommandResult;
use crate::command::listcollections::strs_view;
use crate::doc::{Array, Document, SpecValue, Value, arr_view, doc_view, sp_doc_get, wf_elems, wf_vals};
use crate::error::Error;
use crate::text::{is_byte_string, wf_cstring};
use crate::wire::{OpCode, sp_primary_doc};

verus! {

/// Whether the request asks for names only; anything but a true boolean
/// field counts as false.
pub open spec fn sp_name_only(dv: Seq<(Seq<char>, SpecValue)>) -> bool {
    match sp_doc_get(dv, "nameOnly"@) {
        Some(SpecValue::Boolean(b)) => b,
        _ => false,
    }
}

pub open spec fn sp_db_item(name: Seq<char>, name_only: bool) -> Seq<(Seq<char>, SpecValue)> {
    if name_only {
        seq![("name"@, SpecValue::Text(name))]
    } else {
        seq![
            ("name"@, SpecValue::Text(name)),
            ("sizeOnDisk"@, SpecValue::Int32(0)),
            ("empty"@, SpecValue::Boolean(false)),
        ]
    }
}

pub open spec fn sp_listdatabases_doc(schemas: Seq<Seq<char>>, name_only: bool) -> Seq<
    (Seq<char>, SpecValue),
> {
    seq![
        (
            "databases"@,
            SpecValue::Array(
                Seq::new(schemas.len(), |i: int| SpecValue::Document(
                    sp_db_item(schemas[i], name_only),
                )),
            ),
        ),
        ("totalSize"@, SpecValue::Int32(0)),
        ("ok"@, SpecValue::Int32(1)),
    ]
}

/// Lists the databases; the caller passes the schema names the storage
/// engine reports.
#[verifier::loop_isolation(false)]
pub fn run(op_code: &OpCode, schemas: Vec<String>) -> (r: CommandResult)
    ensures
        sp_primary_doc(*op_code) is None ==> r == Err::<Document, Error>(Error::InvalidOpCode),
        r matches Ok(d) ==> (sp_primary_doc(*op_code) matches Some(q) && doc_view(d)
            == sp_listdatabases_doc(strs_view(schemas@), sp_name_only(doc_view(q))) && wf_elems(
            doc_view(d),
        )),
{
    let q = match op_code.document() {
        Some(d) => d,
        None => {
            return Err(Error::InvalidOpCode);
        },
    };
    let name_only: bool = match q.get("nameOnly") {
        Some(v) => match v {
            Value::Boolean(b) => *b,
            _ => false,
        },
        None => false,
    };
    let n = schemas.len();
    let mut batch = Array::new();
    let mut i: usize = 0;
    while i < n
        invariant
            n == schemas@.len(),
            0 <= i <= n,
            arr_view(batch) == Seq::new(i as nat, |j: int| SpecValue::Document(
                sp_db_item(schemas@[j]@, name_only),
            )),
            wf_vals(arr_view(batch)),
        decreases n - i,
    {
        let name = &schemas[i];
        if !is_byte_string(name.as_str()) {
            return Err(Error::InvalidOpMsg("a schema name is not a byte string".to_owned()));
        }
        let mut item = Document::new();
        item.push_field("name", Value::Text(name.clone()));
        if !name_only {
            item.push_field("sizeOnDisk", Value::Int32(0));
            item.push_field("empty", Value::Boolean(false));
        }
        proof {
            reveal_strlit("name");
            reveal_strlit("sizeOnDisk");
            reveal_strlit("empty");
            assert(wf_cstring("name"@));
            assert(wf_cstring("sizeOnDisk"@));
            assert(wf_cstring("empty"@));
            assert(doc_view(item) =~~= sp_db_item(schemas@[i as int]@, name_only));
        }
        batch.push_item(Value::Document(item));
        i += 1;
        proof {
            assert(arr_view(batch) =~~= Seq::new(i as nat, |j: int| SpecValue::Document(
                sp_db_item(schemas@[j]@, name_only),
            )));
        }
    }
    let mut d = Document::new();
    d.push_field("databases", Value::Array(batch));
    d.push_field("totalSize", Value::Int32(0));
    d.push_field("ok", Value::Int32(1));
    proof {
        reveal_strlit("databases");
        reveal_strlit("totalSize");
        reveal_strlit("ok");
        assert(wf_cstring("databases"@));
        assert(wf_cstring("totalSize"@));
        assert(wf_cstring("ok"@));
        assert(arr_view(batch) =~= Seq::new(strs_view(schemas@).len(), |i: int| SpecValue::Document(
            sp_db_item(strs_view(schemas@)[i], name_only),
        )));
        assert(doc_view(d) =~= sp_listdatabases_doc(strs_view(schemas@), sp_name_only(doc_view(*q))));
    }
    Ok(d)
}

} // verus!
