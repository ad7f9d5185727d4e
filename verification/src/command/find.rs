use vstd::prelude::*;

use crate::bson::{Bson, lemma_parsed_doc_wf, sp_parse_doc};
use crate::command::CommandResult;
use crate::doc::{Array, Document, SpecValue, Value, arr_view, doc_view, sp_doc_get, wf_elems, wf_vals};
use crate::error::Error;
use crate::text::{is_byte_string, wf_cstring, wf_string};
use crate::wire::{OpCode, sp_primary_doc};

verus! {

pub open spec fn sp_batch(rows: Seq<Seq<(Seq<char>, SpecValue)>>) -> Seq<SpecValue> {
    Seq::new(rows.len(), |i: int| SpecValue::Document(rows[i]))
}

pub open spec fn sp_find_doc(
    db: Seq<char>,
    coll: Seq<char>,
    rows: Seq<Seq<(Seq<char>, SpecValue)>>,
) -> Seq<(Seq<char>, SpecValue)> {
    seq![
        ("ok"@, SpecValue::Int32(1)),
        (
            "cursor"@,
            SpecValue::Document(
                seq![
                    ("firstBatch"@, SpecValue::Array(sp_batch(rows))),
                    ("id"@, SpecValue::Int64(0)),
                    ("ns"@, SpecValue::Text(db + "."@ + coll)),
                ],
            ),
        ),
    ]
}

/// The stored rows, each parsed as a document; `None` if any byte row is not
/// a document.
pub open spec fn sp_parsed_rows(rs: Seq<Vec<u8>>) -> Option<Seq<Seq<(Seq<char>, SpecValue)>>>
    decreases rs,
{
    if rs.len() == 0 {
        Some(Seq::empty())
    } else {
        match sp_parse_doc(rs[0]@, 0) {
            Some((d, _)) => match sp_parsed_rows(rs.drop_first()) {
                Some(ds) => Some(seq![d] + ds),
                None => None,
            },
            None => None,
        }
    }
}

proof fn lemma_parsed_rows_push(rs: Seq<Vec<u8>>, x: Vec<u8>)
    ensures
        sp_parsed_rows(rs.push(x)) == (match (sp_parsed_rows(rs), sp_parse_doc(x@, 0)) {
            (Some(ds), Some((d, e))) => Some(ds.push(d)),
            _ => None,
        }),
    decreases rs,
{
    if rs.len() == 0 {
        let ps = rs.push(x);
        assert(ps[0] == x);
        assert(ps.drop_first() =~= Seq::<Vec<u8>>::empty());
        assert(sp_parsed_rows(ps.drop_first()) == Some(
            Seq::<Seq<(Seq<char>, SpecValue)>>::empty(),
        ));
        match sp_parse_doc(x@, 0) {
            Some((d, e)) => {
                assert(seq![d] + Seq::<Seq<(Seq<char>, SpecValue)>>::empty() =~= seq![d]);
                assert(Seq::<Seq<(Seq<char>, SpecValue)>>::empty().push(d) =~= seq![d]);
            },
            None => {},
        }
    } else {
        assert(rs.push(x)[0] == rs[0]);
        assert(rs.push(x).drop_first() =~= rs.drop_first().push(x));
        lemma_parsed_rows_push(rs.drop_first(), x);
        match (sp_parsed_rows(rs), sp_parse_doc(x@, 0)) {
            (Some(ds), Some((d, e))) => {
                assert(sp_parsed_rows(rs.push(x)) matches Some(ps2) && ps2 =~= ds.push(d));
            },
            _ => {},
        }
    }
}

/// Answers a query over a collection: the caller passes the raw stored rows
/// for the addressed collection, and the reply carries them as a single
/// synthetic batch.
#[verifier::loop_isolation(false)]
pub fn run(op_code: &OpCode, rows: Vec<Vec<u8>>) -> (r: CommandResult)
    ensures
        sp_primary_doc(*op_code) is None ==> r == Err::<Document, Error>(Error::InvalidOpCode),
        r matches Ok(d) ==> (sp_primary_doc(*op_code) matches Some(q) && sp_doc_get(
            doc_view(q),
            "$db"@,
        ) matches Some(SpecValue::Text(db)) && sp_doc_get(doc_view(q), "find"@) matches Some(
            SpecValue::Text(coll),
        ) && sp_parsed_rows(rows@) matches Some(rds) && doc_view(d) == sp_find_doc(db, coll, rds)
            && wf_elems(doc_view(d))),
{
    let q = match op_code.document() {
        Some(d) => d,
        None => {
            return Err(Error::InvalidOpCode);
        },
    };
    let db: String = match q.get("$db") {
        Some(v) => match v {
            Value::Text(s) => s.clone(),
            _ => {
                return Err(Error::InvalidOpMsg("the $db field must be a string".to_owned()));
            },
        },
        None => {
            return Err(Error::InvalidOpMsg("the $db field is missing".to_owned()));
        },
    };
    let coll: String = match q.get("find") {
        Some(v) => match v {
            Value::Text(s) => s.clone(),
            _ => {
                return Err(Error::InvalidOpMsg("the find field must be a string".to_owned()));
            },
        },
        None => {
            return Err(Error::InvalidOpMsg("the find field is missing".to_owned()));
        },
    };
    match q.get("filter") {
        Some(v) => match v {
            Value::Document(_) => {},
            _ => {
                return Err(Error::InvalidOpMsg("the filter field must be a document".to_owned()));
            },
        },
        None => {
            return Err(Error::InvalidOpMsg("the filter field is missing".to_owned()));
        },
    }
    if !is_byte_string(db.as_str()) || !is_byte_string(coll.as_str()) {
        return Err(Error::InvalidOpMsg("the namespace is not a byte string".to_owned()));
    }
    let n = rows.len();
    let mut batch = Array::new();
    let mut i: usize = 0;
    proof {
        assert(rows@.subrange(0, 0) =~= Seq::<Vec<u8>>::empty());
        assert(sp_batch(Seq::empty()) =~= Seq::<SpecValue>::empty());
    }
    while i < n
        invariant
            n == rows@.len(),
            0 <= i <= n,
            sp_parsed_rows(rows@.subrange(0, i as int)) matches Some(rds) && arr_view(batch)
                == sp_batch(rds) && rds.len() == i,
            wf_vals(arr_view(batch)),
        decreases n - i,
    {
        let bson = Bson::new(crate::wire::copy_vec(&rows[i]));
        proof {
            assert(rows@.subrange(0, i as int).push(rows@[i as int]) =~= rows@.subrange(
                0,
                i as int + 1,
            ));
            lemma_parsed_rows_push(rows@.subrange(0, i as int), rows@[i as int]);
            lemma_parsed_doc_wf(rows@[i as int]@, 0);
        }
        match bson.parse_document(0) {
            Some((d, _)) => {
                let ghost old_batch = arr_view(batch);
                batch.push_item(Value::Document(d));
                proof {
                    let rds2 = sp_parsed_rows(rows@.subrange(0, i as int + 1))->Some_0;
                    assert(arr_view(batch) =~~= sp_batch(rds2));
                }
            },
            None => {
                return Err(Error::InvalidOpMsg("a stored row is not a document".to_owned()));
            },
        }
        i += 1;
    }
    proof {
        assert(rows@.subrange(0, n as int) =~= rows@);
    }
    let ns0: String = db.clone();
    let ns1: String = ns0.concat(".");
    let ns: String = ns1.concat(coll.as_str());
    let mut cursor = Document::new();
    cursor.push_field("firstBatch", Value::Array(batch));
    cursor.push_field("id", Value::Int64(0));
    cursor.push_field("ns", Value::Text(ns));
    let mut d = Document::new();
    d.push_field("ok", Value::Int32(1));
    d.push_field("cursor", Value::Document(cursor));
    proof {
        reveal_strlit("ok");
        reveal_strlit("cursor");
        reveal_strlit("firstBatch");
        reveal_strlit("id");
        reveal_strlit("ns");
        reveal_strlit(".");
        assert(wf_cstring("ok"@));
        assert(wf_cstring("cursor"@));
        assert(wf_cstring("firstBatch"@));
        assert(wf_cstring("id"@));
        assert(wf_cstring("ns"@));
        assert(wf_string("."@));
        assert(wf_string(db@ + "."@ + coll@));
        let rds = sp_parsed_rows(rows@)->Some_0;
        assert(doc_view(cursor) =~= seq![
            ("firstBatch"@, SpecValue::Array(sp_batch(rds))),
            ("id"@, SpecValue::Int64(0)),
            ("ns"@, SpecValue::Text(db@ + "."@ + coll@)),
        ]);
        assert(doc_view(d) =~= sp_find_doc(db@, coll@, rds));
    }
    Ok(d)
}

} // verus!
