use vstd::prelude::*;

use crate::command::CommandResult;
use crate::doc::{Array, Document, SpecValue, Value, arr_view, doc_view, sp_doc_get, wf_elems, wf_vals};
use crate::error::Error;
use crate::text::{is_byte_string, wf_cstring, wf_string};
use crate::wire::{OpCode, sp_primary_doc};

verus! {

pub open spec fn strs_view(ss: Seq<String>) -> Seq<Seq<char>> {
    Seq::new(ss.len(), |i: int| ss[i]@)
}

pub open spec fn sp_coll_item(name: Seq<char>) -> Seq<(Seq<char>, SpecValue)> {
    seq![("name"@, SpecValue::Text(name)), ("type"@, SpecValue::Text("collection"@))]
}

pub open spec fn sp_listcollections_doc(db: Seq<char>, tables: Seq<Seq<char>>) -> Seq<
    (Seq<char>, SpecValue),
> {
    seq![
        ("ok"@, SpecValue::Int32(1)),
        (
            "cursor"@,
            SpecValue::Document(
                seq![
                    (
                        "firstBatch"@,
                        SpecValue::Array(
                            Seq::new(tables.len(), |i: int| SpecValue::Document(
                                sp_coll_item(tables[i]),
                            )),
                        ),
                    ),
                    ("id"@, SpecValue::Int64(0)),
                    ("ns"@, SpecValue::Text(db + ".$cmd.listCollections"@)),
                ],
            ),
        ),
    ]
}

/// Lists the collections of the addressed database; the caller passes the
/// table names the storage engine reports for it.
#[verifier::loop_isolation(false)]
pub fn run(op_code: &OpCode, tables: Vec<String>) -> (r: CommandResult)
    ensures
        sp_primary_doc(*op_code) is None ==> r == Err::<Document, Error>(Error::InvalidOpCode),
        r matches Ok(d) ==> (sp_primary_doc(*op_code) matches Some(q) && sp_doc_get(
            doc_view(q),
            "$db"@,
        ) matches Some(SpecValue::Text(db)) && doc_view(d) == sp_listcollections_doc(
            db,
            strs_view(tables@),
        ) && wf_elems(doc_view(d))),
{
    let q = match op_code.document() {
        Some(d) => d,
        None => {
            return Err(Error::InvalidOpCode);
        },
    };
    let db: String = match q.get("$db") {
        Some(v) => match v {
            Value::Text(s) => s.clone(),
            _ => {
                return Err(Error::InvalidOpMsg("the $db field must be a string".to_owned()));
            },
        },
        None => {
            return Err(Error::InvalidOpMsg("the $db field is missing".to_owned()));
        },
    };
    if !is_byte_string(db.as_str()) {
        return Err(Error::InvalidOpMsg("the database name is not a byte string".to_owned()));
    }
    let n = tables.len();
    let mut batch = Array::new();
    let mut i: usize = 0;
    while i < n
        invariant
            n == tables@.len(),
            0 <= i <= n,
            arr_view(batch) == Seq::new(i as nat, |j: int| SpecValue::Document(
                sp_coll_item(tables@[j]@),
            )),
            wf_vals(arr_view(batch)),
        decreases n - i,
    {
        let name = &tables[i];
        if !is_byte_string(name.as_str()) {
            return Err(Error::InvalidOpMsg("a table name is not a byte string".to_owned()));
        }
        let mut item = Document::new();
        item.push_field("name", Value::Text(name.clone()));
        item.push_field("type", Value::Text("collection".to_owned()));
        proof {
            reveal_strlit("name");
            reveal_strlit("type");
            reveal_strlit("collection");
            assert(wf_cstring("name"@));
            assert(wf_cstring("type"@));
            assert(wf_string("collection"@));
            assert(doc_view(item) =~~= sp_coll_item(tables@[i as int]@));
        }
        batch.push_item(Value::Document(item));
        i += 1;
        proof {
            assert(arr_view(batch) =~~= Seq::new(i as nat, |j: int| SpecValue::Document(
                sp_coll_item(tables@[j]@),
            )));
        }
    }
    let ns0: String = db.clone();
    let ns: String = ns0.concat(".$cmd.listCollections");
    let mut cursor = Document::new();
    cursor.push_field("firstBatch", Value::Array(batch));
    cursor.push_field("id", Value::Int64(0));
    cursor.push_field("ns", Value::Text(ns));
    let mut d = Document::new();
    d.push_field("ok", Value::Int32(1));
    d.push_field("cursor", Value::Document(cursor));
    proof {
        reveal_strlit("ok");
        reveal_strlit("cursor");
        reveal_strlit("firstBatch");
        reveal_strlit("id");
        reveal_strlit("ns");
        reveal_strlit(".$cmd.listCollections");
        assert(wf_cstring("ok"@));
        assert(wf_cstring("cursor"@));
        assert(wf_cstring("firstBatch"@));
        assert(wf_cstring("id"@));
        assert(wf_cstring("ns"@));
        assert(wf_string(".$cmd.listCollections"@));
        assert(wf_string(db@ + ".$cmd.listCollections"@));
        assert(arr_view(batch) =~= Seq::new(tables@.len(), |i: int| SpecValue::Document(
            sp_coll_item(strs_view(tables@)[i]),
        )));
        assert(doc_view(cursor) =~= seq![
            (
                "firstBatch"@,
                SpecValue::Array(
                    Seq::new(strs_view(tables@).len(), |i: int| SpecValue::Document(
                        sp_coll_item(strs_view(tables@)[i]),
                    )),
                ),
            ),
            ("id"@, SpecValue::Int64(0)),
            ("ns"@, SpecValue::Text(db@ + ".$cmd.listCollections"@)),
        ]);
        assert(doc_view(d) =~= sp_listcollections_doc(db@, strs_view(tables@)));
    }
    Ok(d)
}

} // verus!
