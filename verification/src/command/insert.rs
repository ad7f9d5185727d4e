use vstd::prelude::*;

use crate::command::CommandResult;
use crate::doc::{Document, SpecValue, Value, arr_view, doc_view, lemma_vals_view_len, sp_doc_bytes, sp_doc_get, wf_elems};
use crate::error::Error;
use crate::text::wf_cstring;
use crate::wire::{OpCode, sp_primary_doc};

verus! {

pub open spec fn sp_insert_doc() -> Seq<(Seq<char>, SpecValue)> {
    seq![("ok"@, SpecValue::Int32(1))]
}

/// Prepares an insertion: extracts the addressed namespace and the documents
/// to store, already encoded, and the acknowledgement to send back.  The
/// caller performs the storing.
#[verifier::loop_isolation(false)]
pub fn run(op_code: &OpCode) -> (r: Result<(String, String, Vec<Vec<u8>>, Document), Error>)
    ensures
        sp_primary_doc(*op_code) is None ==> r == Err::<(String, String, Vec<Vec<u8>>, Document), Error>(
            Error::InvalidOpCode,
        ),
        r matches Ok(t) ==> (sp_primary_doc(*op_code) matches Some(q) && sp_doc_get(
            doc_view(q),
            "$db"@,
        ) matches Some(SpecValue::Text(db)) && sp_doc_get(doc_view(q), "insert"@) matches Some(
            SpecValue::Text(coll),
        ) && sp_doc_get(doc_view(q), "documents"@) matches Some(SpecValue::Array(vs)) && t.0@ == db
            && t.1@ == coll && t.2@.len() == vs.len() && (forall|j: int|
            0 <= j < vs.len() ==> vs[j] is Document && #[trigger] t.2@[j]@ == sp_doc_bytes(
                vs[j]->Document_0,
            )) && doc_view(t.3) == sp_insert_doc() && wf_elems(doc_view(t.3))),
{
    let q = match op_code.document() {
        Some(d) => d,
        None => {
            return Err(Error::InvalidOpCode);
        },
    };
    let db: String = match q.get("$db") {
        Some(v) => match v {
            Value::Text(s) => s.clone(),
            _ => {
                return Err(Error::InvalidOpMsg("the $db field must be a string".to_owned()));
            },
        },
        None => {
            return Err(Error::InvalidOpMsg("the $db field is missing".to_owned()));
        },
    };
    let coll: String = match q.get("insert") {
        Some(v) => match v {
            Value::Text(s) => s.clone(),
            _ => {
                return Err(Error::InvalidOpMsg("the insert field must be a string".to_owned()));
            },
        },
        None => {
            return Err(Error::InvalidOpMsg("the insert field is missing".to_owned()));
        },
    };
    let items = match q.get("documents") {
        Some(v) => match v {
            Value::Array(a) => a,
            _ => {
                return Err(Error::InvalidOpMsg("the documents field must be an array".to_owned()));
            },
        },
        None => {
            return Err(Error::InvalidOpMsg("the documents field is missing".to_owned()));
        },
    };
    proof {
        lemma_vals_view_len(items.0@);
    }
    let n = items.0.len();
    let mut rows: Vec<Vec<u8>> = Vec::new();
    let mut i: usize = 0;
    while i < n
        invariant
            n == items.0@.len(),
            0 <= i <= n,
            arr_view(*items).len() == n,
            forall|j: int|
                0 <= j < n ==> #[trigger] arr_view(*items)[j] == crate::doc::val_view(
                    items.0@[j],
                ),
            rows@.len() == i,
            forall|j: int|
                0 <= j < i ==> (#[trigger] arr_view(*items)[j]) is Document && rows@[j]@
                    == sp_doc_bytes(arr_view(*items)[j]->Document_0),
        decreases n - i,
    {
        let item = &items.0[i];
        proof {
            assert(arr_view(*items)[i as int] == crate::doc::val_view(*item));
        }
        match item {
            Value::Document(d) => {
                if !d.is_wf() {
                    return Err(
                        Error::InvalidOpMsg("a document to insert is not well formed".to_owned()),
                    );
                }
                let bytes = d.to_bytes();
                rows.push(bytes);
                proof {
                    assert(rows@[i as int]@ == sp_doc_bytes(doc_view(*d)));
                    assert(arr_view(*items)[i as int] == SpecValue::Document(doc_view(*d)));
                }
            },
            _ => {
                return Err(Error::InvalidOpMsg("the documents array must hold documents".to_owned()));
            },
        }
        i += 1;
    }
    let mut reply = Document::new();
    reply.push_field("ok", Value::Int32(1));
    proof {
        reveal_strlit("ok");
        assert(wf_cstring("ok"@));
        assert(doc_view(reply) =~= sp_insert_doc());
    }
    Ok((db, coll, rows, reply))
}

} // verus!
