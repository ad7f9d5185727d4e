use vstd::prelude::*;

use crate::command::{CommandResult, DOUBLE_ONE_BITS};
use crate::doc::{Array, Document, SpecValue, Value, arr_view, doc_view, wf_elems};
use crate::text::{wf_cstring, wf_string};

verus! {

/// One startup-log line in the structured log format, stamped with the
/// caller-supplied time.
pub open spec fn sp_log_line(ts: Seq<char>, msg: Seq<char>) -> Seq<char> {
    "{\"t\":{\"$date\":\""@ + ts + "\"},\"s\":\"I\",\"c\":\"STORAGE\",\"id\":22297,\"ctx\":\"initandlisten\",\"msg\":\""@
        + msg + "\",\"tags\":[\"startupWarnings\"]}"@
}

pub open spec fn sp_log_messages() -> Seq<Seq<char>> {
    seq![
        "OxideDB"@,
        "a document database over a relational engine"@,
        "speaks the MongoDB wire protocol"@,
        "storage is delegated to the configured backend"@,
        "this build is experimental"@,
        "no authentication is configured"@,
        "no replication is configured"@,
        "ready to accept connections"@,
    ]
}

pub open spec fn sp_getlog_doc(ts: Seq<char>) -> Seq<(Seq<char>, SpecValue)> {
    seq![
        ("totalLinesWritten"@, SpecValue::Int32(8)),
        (
            "log"@,
            SpecValue::Array(
                Seq::new(sp_log_messages().len(), |i: int| SpecValue::Text(
                    sp_log_line(ts, sp_log_messages()[i]),
                )),
            ),
        ),
        ("ok"@, SpecValue::Double(0x3FF0000000000000)),
    ]
}

fn log_line(ts: &String, msg: &str) -> (r: String)
    ensures
        r@ == sp_log_line(ts@, msg@),
{
    let head: String = "{\"t\":{\"$date\":\"".to_owned();
    let mid: String = head.concat(ts.as_str());
    let mid2: String = mid.concat(
        "\"},\"s\":\"I\",\"c\":\"STORAGE\",\"id\":22297,\"ctx\":\"initandlisten\",\"msg\":\"",
    );
    let mid3: String = mid2.concat(msg);
    let r = mid3.concat("\",\"tags\":[\"startupWarnings\"]}");
    proof {
        assert(r@ =~= sp_log_line(ts@, msg@));
    }
    r
}

/// Replays the startup log; the caller supplies the timestamp text that
/// stamps every line.
#[verifier::loop_isolation(false)]
pub fn run(timestamp: &String) -> (r: CommandResult)
    requires
        wf_string(timestamp@),
    ensures
        r matches Ok(d) && doc_view(d) == sp_getlog_doc(timestamp@) && wf_elems(doc_view(d)),
{
    let mut log = Array::new();
    log.push_item(Value::Text(log_line(timestamp, "OxideDB")));
    log.push_item(Value::Text(log_line(timestamp, "a document database over a relational engine")));
    log.push_item(Value::Text(log_line(timestamp, "speaks the MongoDB wire protocol")));
    log.push_item(Value::Text(log_line(timestamp, "storage is delegated to the configured backend")));
    log.push_item(Value::Text(log_line(timestamp, "this build is experimental")));
    log.push_item(Value::Text(log_line(timestamp, "no authentication is configured")));
    log.push_item(Value::Text(log_line(timestamp, "no replication is configured")));
    log.push_item(Value::Text(log_line(timestamp, "ready to accept connections")));
    let mut d = Document::new();
    d.push_field("totalLinesWritten", Value::Int32(8));
    d.push_field("log", Value::Array(log));
    d.push_field("ok", Value::Double(DOUBLE_ONE_BITS));
    proof {
        reveal_strlit("totalLinesWritten");
        reveal_strlit("log");
        reveal_strlit("ok");
        reveal_strlit("{\"t\":{\"$date\":\"");
        reveal_strlit(
            "\"},\"s\":\"I\",\"c\":\"STORAGE\",\"id\":22297,\"ctx\":\"initandlisten\",\"msg\":\"",
        );
        reveal_strlit("\",\"tags\":[\"startupWarnings\"]}");
        reveal_strlit("OxideDB");
        reveal_strlit("a document database over a relational engine");
        reveal_strlit("speaks the MongoDB wire protocol");
        reveal_strlit("storage is delegated to the configured backend");
        reveal_strlit("this build is experimental");
        reveal_strlit("no authentication is configured");
        reveal_strlit("no replication is configured");
        reveal_strlit("ready to accept connections");
        assert(wf_cstring("totalLinesWritten"@));
        assert(wf_cstring("log"@));
        assert(wf_cstring("ok"@));
        assert forall|i: int| 0 <= i < sp_log_messages().len() implies wf_string(
            #[trigger] sp_log_messages()[i],
        ) by {}
        assert forall|i: int| 0 <= i < sp_log_messages().len() implies wf_string(
            sp_log_line(timestamp@, #[trigger] sp_log_messages()[i]),
        ) by {
            assert(wf_string("{\"t\":{\"$date\":\""@));
            assert(wf_string(
                "\"},\"s\":\"I\",\"c\":\"STORAGE\",\"id\":22297,\"ctx\":\"initandlisten\",\"msg\":\""@,
            ));
            assert(wf_string("\",\"tags\":[\"startupWarnings\"]}"@));
        }
        assert(arr_view(log) =~= Seq::new(sp_log_messages().len(), |i: int| SpecValue::Text(
            sp_log_line(timestamp@, sp_log_messages()[i]),
        )));
        assert(doc_view(d) =~= sp_getlog_doc(timestamp@));
    }
    Ok(d)
}

} // verus!
