use vstd::prelude::*;

use crate::ints::{i32_le, i64_le, le32_int, push_i32_le, push_i64_le, push_u32_le, push_u64_le, u64_le};
use crate::text::{bytes_of, index_key, index_key_string, lemma_index_key_wf, push_string_bytes, wf_cstring, wf_string};

verus! {

// The structured document model: an ordered list of named values, the value
// forms the wire format distinguishes, and their byte-level encoding.  The
// encoding of every term is defined once, as a spec function; the executable
// encoder and parser are proved against it.

/// Stand-in for the 128-bit decimal type; its payload is not modeled.
#[derive(Debug, PartialEq)]
pub struct Decimal128;

#[derive(Debug, PartialEq)]
pub enum Value {
    Double(u64),
    Text(String),
    Document(Document),
    Array(Array),
    Binary(Vec<u8>),
    Undefined,
    ObjectId(Vec<u8>),
    Boolean(bool),
    UtcDateTime(u64),
    Null,
    Regex(String, String),
    DBPointer(String, Vec<u8>),
    JavaScriptCode(String),
    Symbol(String),
    JavaScriptCodeWithScope(String, Document),
    Int32(i32),
    Timestamp(u64),
    Int64(i64),
    Decimal128(Decimal128),
    MinKey,
    MaxKey,
}

/// An ordered list of named elements; names keep their insertion order on the
/// wire.
#[derive(Debug, PartialEq)]
pub struct Document(pub Vec<(String, Value)>);

#[derive(Debug, PartialEq)]
pub struct Array(pub Vec<Value>);

/// The mathematical form of a value: strings as character sequences, buffers
/// as byte sequences, documents as sequences of named elements.
pub enum SpecValue {
    Double(u64),
    Text(Seq<char>),
    Document(Seq<(Seq<char>, SpecValue)>),
    Array(Seq<SpecValue>),
    Binary(Seq<u8>),
    Undefined,
    ObjectId(Seq<u8>),
    Boolean(bool),
    UtcDateTime(u64),
    Null,
    Regex(Seq<char>, Seq<char>),
    DBPointer(Seq<char>, Seq<u8>),
    JavaScriptCode(Seq<char>),
    Symbol(Seq<char>),
    JavaScriptCodeWithScope(Seq<char>, Seq<(Seq<char>, SpecValue)>),
    Int32(i32),
    Timestamp(u64),
    Int64(i64),
    Decimal128,
    MinKey,
    MaxKey,
}

pub open spec fn val_view(v: Value) -> SpecValue
    decreases v, 2int,
{
    match v {
        Value::Double(bits) => SpecValue::Double(bits),
        Value::Text(s) => SpecValue::Text(s@),
        Value::Document(d) => SpecValue::Document(doc_view(d)),
        Value::Array(a) => SpecValue::Array(arr_view(a)),
        Value::Binary(b) => SpecValue::Binary(b@),
        Value::Undefined => SpecValue::Undefined,
        Value::ObjectId(b) => SpecValue::ObjectId(b@),
        Value::Boolean(x) => SpecValue::Boolean(x),
        Value::UtcDateTime(t) => SpecValue::UtcDateTime(t),
        Value::Null => SpecValue::Null,
        Value::Regex(p, o) => SpecValue::Regex(p@, o@),
        Value::DBPointer(c, id) => SpecValue::DBPointer(c@, id@),
        Value::JavaScriptCode(s) => SpecValue::JavaScriptCode(s@),
        Value::Symbol(s) => SpecValue::Symbol(s@),
        Value::JavaScriptCodeWithScope(c, d) => SpecValue::JavaScriptCodeWithScope(c@, doc_view(d)),
        Value::Int32(x) => SpecValue::Int32(x),
        Value::Timestamp(t) => SpecValue::Timestamp(t),
        Value::Int64(x) => SpecValue::Int64(x),
        Value::Decimal128(_) => SpecValue::Decimal128,
        Value::MinKey => SpecValue::MinKey,
        Value::MaxKey => SpecValue::MaxKey,
    }
}

pub open spec fn doc_view(d: Document) -> Seq<(Seq<char>, SpecValue)>
    decreases d, 1int,
{
    elems_view(d.0@)
}

pub open spec fn elems_view(es: Seq<(String, Value)>) -> Seq<(Seq<char>, SpecValue)>
    decreases es, 0int,
{
    if es.len() == 0 {
        Seq::empty()
    } else {
        seq![(es[0].0@, val_view(es[0].1))] + elems_view(es.drop_first())
    }
}

pub open spec fn arr_view(a: Array) -> Seq<SpecValue>
    decreases a, 1int,
{
    vals_view(a.0@)
}

pub open spec fn vals_view(vs: Seq<Value>) -> Seq<SpecValue>
    decreases vs, 0int,
{
    if vs.len() == 0 {
        Seq::empty()
    } else {
        seq![val_view(vs[0])] + vals_view(vs.drop_first())
    }
}

pub proof fn lemma_elems_view_len(es: Seq<(String, Value)>)
    ensures
        elems_view(es).len() == es.len(),
        forall|i: int|
            0 <= i < es.len() ==> #[trigger] elems_view(es)[i] == (es[i].0@, val_view(es[i].1)),
    decreases es,
{
    if es.len() > 0 {
        lemma_elems_view_len(es.drop_first());
    }
}

pub proof fn lemma_elems_view_push(es: Seq<(String, Value)>, e: (String, Value))
    ensures
        elems_view(es.push(e)) == elems_view(es).push((e.0@, val_view(e.1))),
    decreases es,
{
    if es.len() == 0 {
        let ps = es.push(e);
        assert(ps[0] == e);
        assert(ps.drop_first() =~= Seq::<(String, Value)>::empty());
        assert(elems_view(ps.drop_first()) =~= Seq::<(Seq<char>, SpecValue)>::empty());
        assert(elems_view(ps) == seq![(e.0@, val_view(e.1))] + elems_view(ps.drop_first()));
        assert(elems_view(es.push(e)) =~= elems_view(es).push((e.0@, val_view(e.1))));
    } else {
        assert(es.push(e)[0] == es[0]);
        assert(es.push(e).drop_first() =~= es.drop_first().push(e));
        lemma_elems_view_push(es.drop_first(), e);
        assert(elems_view(es.push(e)) =~= elems_view(es).push((e.0@, val_view(e.1))));
    }
}

pub proof fn lemma_vals_view_len(vs: Seq<Value>)
    ensures
        vals_view(vs).len() == vs.len(),
        forall|i: int| 0 <= i < vs.len() ==> #[trigger] vals_view(vs)[i] == val_view(vs[i]),
    decreases vs,
{
    if vs.len() > 0 {
        lemma_vals_view_len(vs.drop_first());
    }
}

/// The element tag byte that announces a value's form.
pub open spec fn tag_of(v: SpecValue) -> u8 {
    match v {
        SpecValue::Double(_) => 0x01,
        SpecValue::Text(_) => 0x02,
        SpecValue::Document(_) => 0x03,
        SpecValue::Array(_) => 0x04,
        SpecValue::Binary(_) => 0x05,
        SpecValue::Undefined => 0x06,
        SpecValue::ObjectId(_) => 0x07,
        SpecValue::Boolean(_) => 0x08,
        SpecValue::UtcDateTime(_) => 0x09,
        SpecValue::Null => 0x0A,
        SpecValue::Regex(_, _) => 0x0B,
        SpecValue::DBPointer(_, _) => 0x0C,
        SpecValue::JavaScriptCode(_) => 0x0D,
        SpecValue::Symbol(_) => 0x0E,
        SpecValue::JavaScriptCodeWithScope(_, _) => 0x0F,
        SpecValue::Int32(_) => 0x10,
        SpecValue::Timestamp(_) => 0x11,
        SpecValue::Int64(_) => 0x12,
        SpecValue::Decimal128 => 0x13,
        SpecValue::MinKey => 0xFF,
        SpecValue::MaxKey => 0x7F,
    }
}

/// The payload bytes of a value, after its tag and name.
pub open spec fn sp_val_bytes(v: SpecValue) -> Seq<u8>
    decreases v, 2int,
{
    match v {
        SpecValue::Double(bits) => u64_le(bits),
        SpecValue::Text(s) => le32_int(s.len() as int + 1) + bytes_of(s) + seq![0u8],
        SpecValue::Document(es) => sp_doc_bytes(es),
        SpecValue::Array(vs) => le32_int(sp_items_bytes(vs, 0).len() as int + 5) + sp_items_bytes(vs, 0)
            + seq![0u8],
        SpecValue::Binary(b) => le32_int(b.len() as int) + b,
        SpecValue::Undefined => Seq::empty(),
        SpecValue::ObjectId(b) => b,
        SpecValue::Boolean(x) => seq![if x { 1u8 } else { 0u8 }],
        SpecValue::UtcDateTime(t) => u64_le(t),
        SpecValue::Null => Seq::empty(),
        SpecValue::Regex(p, o) => bytes_of(p) + seq![0u8] + bytes_of(o) + seq![0u8],
        SpecValue::DBPointer(c, id) => bytes_of(c) + seq![0u8] + id,
        SpecValue::JavaScriptCode(s) => bytes_of(s) + seq![0u8],
        SpecValue::Symbol(s) => bytes_of(s) + seq![0u8],
        SpecValue::JavaScriptCodeWithScope(c, es) => bytes_of(c) + seq![0u8] + sp_doc_bytes(es),
        SpecValue::Int32(x) => i32_le(x),
        SpecValue::Timestamp(t) => u64_le(t),
        SpecValue::Int64(x) => i64_le(x),
        SpecValue::Decimal128 => Seq::empty(),
        SpecValue::MinKey => Seq::empty(),
        SpecValue::MaxKey => Seq::empty(),
    }
}

/// One element: tag, name as a NUL-terminated C-string, then the payload.
pub open spec fn sp_elem_bytes(name: Seq<char>, v: SpecValue) -> Seq<u8>
    decreases v, 3int,
{
    seq![tag_of(v)] + bytes_of(name) + seq![0u8] + sp_val_bytes(v)
}

pub open spec fn sp_elems_bytes(es: Seq<(Seq<char>, SpecValue)>) -> Seq<u8>
    decreases es, 0int,
{
    if es.len() == 0 {
        Seq::empty()
    } else {
        sp_elem_bytes(es[0].0, es[0].1) + sp_elems_bytes(es.drop_first())
    }
}

/// A whole document: its total length (including this prefix and the final
/// NUL), the elements, then a NUL terminator.
pub open spec fn sp_doc_bytes(es: Seq<(Seq<char>, SpecValue)>) -> Seq<u8>
    decreases es, 1int,
{
    le32_int(sp_elems_bytes(es).len() as int + 5) + sp_elems_bytes(es) + seq![0u8]
}

/// Array items are encoded as document elements named by their decimal index.
pub open spec fn sp_items_bytes(vs: Seq<SpecValue>, k: int) -> Seq<u8>
    decreases vs, 0int,
{
    if vs.len() == 0 {
        Seq::empty()
    } else {
        sp_elem_bytes(index_key(k), vs[0]) + sp_items_bytes(vs.drop_first(), k + 1)
    }
}

/// Structural well-formedness: names are C-strings, every character fits in a
/// byte, and fixed-width buffers have their exact width.
pub open spec fn wf_val(v: SpecValue) -> bool
    decreases v, 2int,
{
    match v {
        SpecValue::Text(s) => wf_string(s),
        SpecValue::Document(es) => wf_elems(es),
        SpecValue::Array(vs) => wf_vals(vs),
        SpecValue::ObjectId(b) => b.len() == 12,
        SpecValue::Regex(p, o) => wf_cstring(p) && wf_cstring(o),
        SpecValue::DBPointer(c, id) => wf_cstring(c) && id.len() == 12,
        SpecValue::JavaScriptCode(s) => wf_cstring(s),
        SpecValue::Symbol(s) => wf_cstring(s),
        SpecValue::JavaScriptCodeWithScope(c, es) => wf_cstring(c) && wf_elems(es),
        _ => true,
    }
}

pub open spec fn wf_elems(es: Seq<(Seq<char>, SpecValue)>) -> bool
    decreases es, 3int,
{
    if es.len() == 0 {
        true
    } else {
        wf_cstring(es[0].0) && wf_val(es[0].1) && wf_elems(es.drop_first())
    }
}

pub open spec fn wf_vals(vs: Seq<SpecValue>) -> bool
    decreases vs, 3int,
{
    if vs.len() == 0 {
        true
    } else {
        wf_val(vs[0]) && wf_vals(vs.drop_first())
    }
}

pub proof fn lemma_wf_elems_index(es: Seq<(Seq<char>, SpecValue)>)
    requires
        wf_elems(es),
    ensures
        forall|i: int| 0 <= i < es.len() ==> wf_cstring(#[trigger] es[i].0) && wf_val(es[i].1),
    decreases es,
{
    if es.len() > 0 {
        lemma_wf_elems_index(es.drop_first());
        assert forall|i: int| 0 <= i < es.len() implies wf_cstring(#[trigger] es[i].0) && wf_val(
            es[i].1,
        ) by {
            if i > 0 {
                assert(es.drop_first()[i - 1] == es[i]);
            }
        }
    }
}

pub proof fn lemma_wf_elems_push(es: Seq<(Seq<char>, SpecValue)>, e: (Seq<char>, SpecValue))
    requires
        wf_elems(es),
        wf_cstring(e.0),
        wf_val(e.1),
    ensures
        wf_elems(es.push(e)),
    decreases es,
{
    if es.len() == 0 {
        assert(es.push(e)[0] == e);
        assert(es.push(e).drop_first() =~= Seq::<(Seq<char>, SpecValue)>::empty());
        assert(wf_elems(Seq::<(Seq<char>, SpecValue)>::empty()));
    } else {
        assert(es.push(e)[0] == es[0]);
        assert(es.push(e).drop_first() =~= es.drop_first().push(e));
        lemma_wf_elems_push(es.drop_first(), e);
    }
}


pub proof fn lemma_sp_elems_bytes_push(es: Seq<(Seq<char>, SpecValue)>, e: (Seq<char>, SpecValue))
    ensures
        sp_elems_bytes(es.push(e)) == sp_elems_bytes(es) + sp_elem_bytes(e.0, e.1),
    decreases es,
{
    if es.len() == 0 {
        let ps = es.push(e);
        assert(ps[0] == e);
        assert(ps.drop_first() =~= Seq::<(Seq<char>, SpecValue)>::empty());
        assert(sp_elems_bytes(ps.drop_first()) == Seq::<u8>::empty());
        assert(sp_elems_bytes(ps) == sp_elem_bytes(ps[0].0, ps[0].1) + sp_elems_bytes(
            ps.drop_first(),
        ));
        assert(sp_elems_bytes(es.push(e)) =~= sp_elems_bytes(es) + sp_elem_bytes(e.0, e.1));
    } else {
        assert(es.push(e)[0] == es[0]);
        assert(es.push(e).drop_first() =~= es.drop_first().push(e));
        lemma_sp_elems_bytes_push(es.drop_first(), e);
        assert(sp_elems_bytes(es.push(e)) =~= sp_elems_bytes(es) + sp_elem_bytes(e.0, e.1));
    }
}

/// The nesting weight of a value, used as the encoder's and parser's measure.
pub open spec fn vh(v: SpecValue) -> nat
    decreases v,
{
    match v {
        SpecValue::Document(es) => 1 + eh(es),
        SpecValue::Array(vs) => 1 + vsh(vs),
        SpecValue::JavaScriptCodeWithScope(_, es) => 1 + eh(es),
        _ => 1,
    }
}

pub open spec fn eh(es: Seq<(Seq<char>, SpecValue)>) -> nat
    decreases es,
{
    if es.len() == 0 {
        0
    } else {
        vh(es[0].1) + eh(es.drop_first())
    }
}

pub open spec fn vsh(vs: Seq<SpecValue>) -> nat
    decreases vs,
{
    if vs.len() == 0 {
        0
    } else {
        vh(vs[0]) + vsh(vs.drop_first())
    }
}

pub proof fn lemma_eh_index(es: Seq<(Seq<char>, SpecValue)>)
    ensures
        forall|j: int| 0 <= j < es.len() ==> eh(es) >= vh(#[trigger] es[j].1),
    decreases es,
{
    if es.len() > 0 {
        lemma_eh_index(es.drop_first());
        assert forall|j: int| 0 <= j < es.len() implies eh(es) >= vh(#[trigger] es[j].1) by {
            if j > 0 {
                assert(es.drop_first()[j - 1] == es[j]);
            }
        }
    }
}

pub proof fn lemma_vsh_index(vs: Seq<SpecValue>)
    ensures
        forall|j: int| 0 <= j < vs.len() ==> vsh(vs) >= vh(#[trigger] vs[j]),
    decreases vs,
{
    if vs.len() > 0 {
        lemma_vsh_index(vs.drop_first());
        assert forall|j: int| 0 <= j < vs.len() implies vsh(vs) >= vh(#[trigger] vs[j]) by {
            if j > 0 {
                assert(vs.drop_first()[j - 1] == vs[j]);
            }
        }
    }
}

/// Writes a length value plus a small constant as four little-endian bytes.
pub(crate) fn push_len_add_le(out: &mut Vec<u8>, n: usize, add: u64)
    requires
        add <= 40,
    ensures
        final(out)@ == old(out)@ + le32_int(n as int + add as int),
{
    let m: u64 = (n as u64) % 0x100000000;
    let v: u32 = ((m + add) % 0x100000000) as u32;
    proof {
        assert((((n as u64) % 0x100000000 + add) % 0x100000000) as int == (n as int + add as int)
            % 0x100000000) by (nonlinear_arith)
            requires
                add <= 40,
        ;
    }
    push_u32_le(out, v);
}

impl Value {
    /// The element tag byte announcing this value's form.
    pub fn tag(&self) -> (t: u8)
        ensures
            t == tag_of(val_view(*self)),
    {
        match self {
            Value::Double(_) => 0x01,
            Value::Text(_) => 0x02,
            Value::Document(_) => 0x03,
            Value::Array(_) => 0x04,
            Value::Binary(_) => 0x05,
            Value::Undefined => 0x06,
            Value::ObjectId(_) => 0x07,
            Value::Boolean(_) => 0x08,
            Value::UtcDateTime(_) => 0x09,
            Value::Null => 0x0A,
            Value::Regex(_, _) => 0x0B,
            Value::DBPointer(_, _) => 0x0C,
            Value::JavaScriptCode(_) => 0x0D,
            Value::Symbol(_) => 0x0E,
            Value::JavaScriptCodeWithScope(_, _) => 0x0F,
            Value::Int32(_) => 0x10,
            Value::Timestamp(_) => 0x11,
            Value::Int64(_) => 0x12,
            Value::Decimal128(_) => 0x13,
            Value::MinKey => 0xFF,
            Value::MaxKey => 0x7F,
        }
    }

    /// Appends this value's payload bytes.
    fn push_payload(&self, out: &mut Vec<u8>)
        requires
            wf_val(val_view(*self)),
        ensures
            final(out)@ == old(out)@ + sp_val_bytes(val_view(*self)),
        decreases vh(val_view(*self)), 0int,
    {
        match self {
            Value::Double(bits) => push_u64_le(out, *bits),
            Value::Text(s) => {
                let mut tmp: Vec<u8> = Vec::new();
                push_string_bytes(&mut tmp, s);
                push_len_add_le(out, tmp.len(), 1);
                out.append(&mut tmp);
                out.push(0);
                proof {
                    assert(final(out)@ =~= old(out)@ + sp_val_bytes(val_view(*self)));
                }
            },
            Value::Document(d) => {
                let mut tmp = d.to_bytes();
                out.append(&mut tmp);
            },
            Value::Array(a) => {
                let mut tmp = a.to_bytes();
                out.append(&mut tmp);
            },
            Value::Binary(p) => {
                push_len_add_le(out, p.len(), 0);
                let mut tmp = copy_bytes(p);
                out.append(&mut tmp);
                proof {
                    assert(final(out)@ =~= old(out)@ + sp_val_bytes(val_view(*self)));
                }
            },
            Value::Undefined => {
                proof {
                    assert(final(out)@ =~= old(out)@ + sp_val_bytes(val_view(*self)));
                }
            },
            Value::ObjectId(p) => {
                let mut tmp = copy_bytes(p);
                out.append(&mut tmp);
            },
            Value::Boolean(x) => {
                out.push(if *x { 1 } else { 0 });
                proof {
                    assert(final(out)@ =~= old(out)@ + sp_val_bytes(val_view(*self)));
                }
            },
            Value::UtcDateTime(t) => push_u64_le(out, *t),
            Value::Null => {
                proof {
                    assert(final(out)@ =~= old(out)@ + sp_val_bytes(val_view(*self)));
                }
            },
            Value::Regex(p, o) => {
                push_string_bytes(out, p);
                out.push(0);
                push_string_bytes(out, o);
                out.push(0);
                proof {
                    assert(final(out)@ =~= old(out)@ + sp_val_bytes(val_view(*self)));
                }
            },
            Value::DBPointer(c, id) => {
                push_string_bytes(out, c);
                out.push(0);
                let mut tmp = copy_bytes(id);
                out.append(&mut tmp);
                proof {
                    assert(final(out)@ =~= old(out)@ + sp_val_bytes(val_view(*self)));
                }
            },
            Value::JavaScriptCode(s) => {
                push_string_bytes(out, s);
                out.push(0);
                proof {
                    assert(final(out)@ =~= old(out)@ + sp_val_bytes(val_view(*self)));
                }
            },
            Value::Symbol(s) => {
                push_string_bytes(out, s);
                out.push(0);
                proof {
                    assert(final(out)@ =~= old(out)@ + sp_val_bytes(val_view(*self)));
                }
            },
            Value::JavaScriptCodeWithScope(c, d) => {
                push_string_bytes(out, c);
                out.push(0);
                let mut tmp = d.to_bytes();
                out.append(&mut tmp);
                proof {
                    assert(final(out)@ =~= old(out)@ + sp_val_bytes(val_view(*self)));
                }
            },
            Value::Int32(x) => push_i32_le(out, *x),
            Value::Timestamp(t) => push_u64_le(out, *t),
            Value::Int64(x) => push_i64_le(out, *x),
            Value::Decimal128(_) => {
                proof {
                    assert(final(out)@ =~= old(out)@ + sp_val_bytes(val_view(*self)));
                }
            },
            Value::MinKey => {
                proof {
                    assert(final(out)@ =~= old(out)@ + sp_val_bytes(val_view(*self)));
                }
            },
            Value::MaxKey => {
                proof {
                    assert(final(out)@ =~= old(out)@ + sp_val_bytes(val_view(*self)));
                }
            },
        }
    }

    /// This value's tag followed by its payload bytes.
    pub fn to_bytes(&self) -> (out: Vec<u8>)
        requires
            wf_val(val_view(*self)),
        ensures
            out@ == seq![tag_of(val_view(*self))] + sp_val_bytes(val_view(*self)),
        decreases vh(val_view(*self)), 2int,
    {
        let mut out: Vec<u8> = Vec::new();
        out.push(self.tag());
        self.push_payload(&mut out);
        proof {
            assert(out@ =~= seq![tag_of(val_view(*self))] + sp_val_bytes(val_view(*self)));
        }
        out
    }
}

/// Appends one named element: tag, name, NUL, payload.
fn push_elem(out: &mut Vec<u8>, name: &String, v: &Value)
    requires
        wf_cstring(name@),
        wf_val(val_view(*v)),
    ensures
        final(out)@ == old(out)@ + sp_elem_bytes(name@, val_view(*v)),
    decreases vh(val_view(*v)), 1int,
{
    out.push(v.tag());
    push_string_bytes(out, name);
    out.push(0);
    v.push_payload(out);
    proof {
        assert(final(out)@ =~= old(out)@ + sp_elem_bytes(name@, val_view(*v)));
    }
}

fn copy_bytes(b: &Vec<u8>) -> (out: Vec<u8>)
    ensures
        out@ == b@,
{
    let mut out: Vec<u8> = Vec::new();
    let n = b.len();
    let mut i: usize = 0;
    while i < n
        invariant
            n == b@.len(),
            0 <= i <= n,
            out@ == b@.subrange(0, i as int),
        decreases n - i,
    {
        out.push(b[i]);
        i += 1;
        proof {
            assert(out@ =~= b@.subrange(0, i as int));
        }
    }
    proof {
        assert(b@.subrange(0, b@.len() as int) =~= b@);
    }
    out
}

impl Document {
    /// Encodes the document: length prefix, elements, NUL terminator.
    pub fn to_bytes(&self) -> (out: Vec<u8>)
        requires
            wf_elems(doc_view(*self)),
        ensures
            out@ == sp_doc_bytes(doc_view(*self)),
        decreases eh(doc_view(*self)), 3int,
    {
        proof {
            lemma_elems_view_len(self.0@);
            lemma_wf_elems_index(doc_view(*self));
            lemma_eh_index(doc_view(*self));
        }
        let mut body: Vec<u8> = Vec::new();
        let n = self.0.len();
        let mut i: usize = 0;
        while i < n
            invariant
                n == self.0@.len(),
                0 <= i <= n,
                wf_elems(doc_view(*self)),
                body@ == sp_elems_bytes(elems_view(self.0@.subrange(0, i as int))),
                elems_view(self.0@).len() == n,
                forall|j: int|
                    0 <= j < n ==> #[trigger] elems_view(self.0@)[j] == (
                    self.0@[j].0@,
                    val_view(self.0@[j].1),
                ),
                forall|j: int|
                    0 <= j < n ==> wf_cstring(#[trigger] elems_view(self.0@)[j].0) && wf_val(
                        elems_view(self.0@)[j].1,
                    ),
                forall|j: int|
                    0 <= j < n ==> eh(elems_view(self.0@)) >= vh(
                        #[trigger] elems_view(self.0@)[j].1,
                    ),
            decreases n - i,
        {
            let pair = &self.0[i];
            proof {
                assert(elems_view(self.0@)[i as int] == (pair.0@, val_view(pair.1)));
                assert(eh(elems_view(self.0@)) >= vh(elems_view(self.0@)[i as int].1));
                assert(eh(doc_view(*self)) >= vh(val_view(pair.1)));
                assert(self.0@.subrange(0, i as int).push(self.0@[i as int]) =~= self.0@.subrange(
                    0,
                    i as int + 1,
                ));
                lemma_elems_view_push(self.0@.subrange(0, i as int), self.0@[i as int]);
                lemma_sp_elems_bytes_push(
                    elems_view(self.0@.subrange(0, i as int)),
                    (pair.0@, val_view(pair.1)),
                );
            }
            push_elem(&mut body, &pair.0, &pair.1);
            i += 1;
        }
        proof {
            assert(self.0@.subrange(0, n as int) =~= self.0@);
        }
        let mut out: Vec<u8> = Vec::new();
        push_len_add_le(&mut out, body.len(), 5);
        out.append(&mut body);
        out.push(0);
        proof {
            assert(out@ =~= sp_doc_bytes(doc_view(*self)));
        }
        out
    }
}

impl Array {
    /// Encodes the array as a document whose element names are the decimal
    /// indexes of its items.
    pub fn to_bytes(&self) -> (out: Vec<u8>)
        requires
            wf_vals(arr_view(*self)),
        ensures
            out@ == sp_val_bytes(SpecValue::Array(arr_view(*self))),
        decreases vsh(arr_view(*self)), 3int,
    {
        proof {
            lemma_vals_view_len(self.0@);
            lemma_vsh_index(arr_view(*self));
            lemma_wf_vals_index(arr_view(*self));
        }
        let mut body: Vec<u8> = Vec::new();
        let n = self.0.len();
        let mut i: usize = 0;
        while i < n
            invariant
                n == self.0@.len(),
                0 <= i <= n,
                wf_vals(arr_view(*self)),
                body@ == sp_items_bytes(vals_view(self.0@.subrange(0, i as int)), 0),
                vals_view(self.0@).len() == n,
                forall|j: int|
                    0 <= j < n ==> #[trigger] vals_view(self.0@)[j] == val_view(self.0@[j]),
                forall|j: int| 0 <= j < n ==> wf_val(#[trigger] vals_view(self.0@)[j]),
                forall|j: int|
                    0 <= j < n ==> vsh(vals_view(self.0@)) >= vh(#[trigger] vals_view(self.0@)[j]),
            decreases n - i,
        {
            let item = &self.0[i];
            let key = index_key_string(i);
            proof {
                lemma_index_key_wf(i as int);
                assert(vals_view(self.0@)[i as int] == val_view(*item));
                assert(vsh(vals_view(self.0@)) >= vh(vals_view(self.0@)[i as int]));
                assert(vsh(arr_view(*self)) >= vh(val_view(*item)));
                lemma_vals_view_len(self.0@.subrange(0, i as int));
                assert(self.0@.subrange(0, i as int).push(self.0@[i as int]) =~= self.0@.subrange(
                    0,
                    i as int + 1,
                ));
                lemma_vals_view_push(self.0@.subrange(0, i as int), self.0@[i as int]);
                lemma_sp_items_bytes_push(vals_view(self.0@.subrange(0, i as int)), val_view(*item));
            }
            push_elem(&mut body, &key, item);
            i += 1;
        }
        proof {
            assert(self.0@.subrange(0, n as int) =~= self.0@);
        }
        let mut out: Vec<u8> = Vec::new();
        push_len_add_le(&mut out, body.len(), 5);
        out.append(&mut body);
        out.push(0);
        proof {
            assert(out@ =~= sp_val_bytes(SpecValue::Array(arr_view(*self))));
        }
        out
    }
}

pub proof fn lemma_wf_vals_index(vs: Seq<SpecValue>)
    requires
        wf_vals(vs),
    ensures
        forall|i: int| 0 <= i < vs.len() ==> wf_val(#[trigger] vs[i]),
    decreases vs,
{
    if vs.len() > 0 {
        lemma_wf_vals_index(vs.drop_first());
        assert forall|i: int| 0 <= i < vs.len() implies wf_val(#[trigger] vs[i]) by {
            if i > 0 {
                assert(vs.drop_first()[i - 1] == vs[i]);
            }
        }
    }
}

pub proof fn lemma_vals_view_push(vs: Seq<Value>, v: Value)
    ensures
        vals_view(vs.push(v)) == vals_view(vs).push(val_view(v)),
    decreases vs,
{
    if vs.len() == 0 {
        let ps = vs.push(v);
        assert(ps[0] == v);
        assert(ps.drop_first() =~= Seq::<Value>::empty());
        assert(vals_view(ps.drop_first()) =~= Seq::<SpecValue>::empty());
        assert(vals_view(ps) == seq![val_view(v)] + vals_view(ps.drop_first()));
        assert(vals_view(vs.push(v)) =~= vals_view(vs).push(val_view(v)));
    } else {
        assert(vs.push(v)[0] == vs[0]);
        assert(vs.push(v).drop_first() =~= vs.drop_first().push(v));
        lemma_vals_view_push(vs.drop_first(), v);
        assert(vals_view(vs.push(v)) =~= vals_view(vs).push(val_view(v)));
    }
}

/// Appending one item extends the keyed encoding by one element named with
/// the item's index.
pub proof fn lemma_sp_items_bytes_push(vs: Seq<SpecValue>, v: SpecValue)
    ensures
        sp_items_bytes(vs.push(v), 0) == sp_items_bytes(vs, 0) + sp_elem_bytes(
            index_key(vs.len() as int),
            v,
        ),
{
    lemma_sp_items_bytes_push_at(vs, v, 0);
}

proof fn lemma_sp_items_bytes_push_at(vs: Seq<SpecValue>, v: SpecValue, k: int)
    ensures
        sp_items_bytes(vs.push(v), k) == sp_items_bytes(vs, k) + sp_elem_bytes(
            index_key(k + vs.len() as int),
            v,
        ),
    decreases vs,
{
    if vs.len() == 0 {
        let ps = vs.push(v);
        assert(ps[0] == v);
        assert(ps.drop_first() =~= Seq::<SpecValue>::empty());
        assert(sp_items_bytes(ps.drop_first(), k + 1) == Seq::<u8>::empty());
        assert(sp_items_bytes(ps, k) == sp_elem_bytes(index_key(k), ps[0]) + sp_items_bytes(
            ps.drop_first(),
            k + 1,
        ));
        assert(sp_items_bytes(ps, k) =~= sp_items_bytes(vs, k) + sp_elem_bytes(index_key(k), v));
    } else {
        assert(vs.push(v)[0] == vs[0]);
        assert(vs.push(v).drop_first() =~= vs.drop_first().push(v));
        lemma_sp_items_bytes_push_at(vs.drop_first(), v, k + 1);
        assert(sp_items_bytes(vs.push(v), k) =~= sp_items_bytes(vs, k) + sp_elem_bytes(
            index_key(k + vs.len() as int),
            v,
        ));
    }
}


impl Value {
    /// A deep copy; the derived clone is unavailable on a recursive type.
    pub fn duplicate(&self) -> (r: Value)
        ensures
            val_view(r) == val_view(*self),
        decreases vh(val_view(*self)), 1int,
    {
        match self {
            Value::Double(bits) => Value::Double(*bits),
            Value::Text(s) => Value::Text(s.clone()),
            Value::Document(d) => Value::Document(d.duplicate()),
            Value::Array(a) => Value::Array(a.duplicate()),
            Value::Binary(p) => Value::Binary(copy_bytes(p)),
            Value::Undefined => Value::Undefined,
            Value::ObjectId(p) => Value::ObjectId(copy_bytes(p)),
            Value::Boolean(x) => Value::Boolean(*x),
            Value::UtcDateTime(t) => Value::UtcDateTime(*t),
            Value::Null => Value::Null,
            Value::Regex(p, o) => Value::Regex(p.clone(), o.clone()),
            Value::DBPointer(c, id) => Value::DBPointer(c.clone(), copy_bytes(id)),
            Value::JavaScriptCode(s) => Value::JavaScriptCode(s.clone()),
            Value::Symbol(s) => Value::Symbol(s.clone()),
            Value::JavaScriptCodeWithScope(c, d) => Value::JavaScriptCodeWithScope(
                c.clone(),
                d.duplicate(),
            ),
            Value::Int32(x) => Value::Int32(*x),
            Value::Timestamp(t) => Value::Timestamp(*t),
            Value::Int64(x) => Value::Int64(*x),
            Value::Decimal128(_) => Value::Decimal128(Decimal128),
            Value::MinKey => Value::MinKey,
            Value::MaxKey => Value::MaxKey,
        }
    }
}

impl Document {
    /// A deep copy; the derived clone is unavailable on a recursive type.
    pub fn duplicate(&self) -> (r: Document)
        ensures
            doc_view(r) == doc_view(*self),
        decreases eh(doc_view(*self)), 2int,
    {
        proof {
            lemma_elems_view_len(self.0@);
            lemma_eh_index(doc_view(*self));
        }
        let mut out: Vec<(String, Value)> = Vec::new();
        let n = self.0.len();
        let mut i: usize = 0;
        while i < n
            invariant
                n == self.0@.len(),
                0 <= i <= n,
                elems_view(out@) == elems_view(self.0@.subrange(0, i as int)),
                elems_view(self.0@).len() == n,
                forall|j: int|
                    0 <= j < n ==> #[trigger] elems_view(self.0@)[j] == (
                    self.0@[j].0@,
                    val_view(self.0@[j].1),
                ),
                forall|j: int|
                    0 <= j < n ==> eh(elems_view(self.0@)) >= vh(
                        #[trigger] elems_view(self.0@)[j].1,
                    ),
            decreases n - i,
        {
            let pair = &self.0[i];
            proof {
                assert(elems_view(self.0@)[i as int] == (pair.0@, val_view(pair.1)));
                assert(eh(elems_view(self.0@)) >= vh(elems_view(self.0@)[i as int].1));
                assert(self.0@.subrange(0, i as int).push(self.0@[i as int]) =~= self.0@.subrange(
                    0,
                    i as int + 1,
                ));
                lemma_elems_view_push(self.0@.subrange(0, i as int), self.0@[i as int]);
            }
            let ghost old_out = out@;
            let copy = (pair.0.clone(), pair.1.duplicate());
            proof {
                lemma_elems_view_push(old_out, copy);
            }
            out.push(copy);
            i += 1;
        }
        proof {
            assert(self.0@.subrange(0, n as int) =~= self.0@);
        }
        Document(out)
    }
}

impl Array {
    /// A deep copy; the derived clone is unavailable on a recursive type.
    pub fn duplicate(&self) -> (r: Array)
        ensures
            arr_view(r) == arr_view(*self),
        decreases vsh(arr_view(*self)), 2int,
    {
        proof {
            lemma_vals_view_len(self.0@);
            lemma_vsh_index(arr_view(*self));
        }
        let mut out: Vec<Value> = Vec::new();
        let n = self.0.len();
        let mut i: usize = 0;
        while i < n
            invariant
                n == self.0@.len(),
                0 <= i <= n,
                vals_view(out@) == vals_view(self.0@.subrange(0, i as int)),
                vals_view(self.0@).len() == n,
                forall|j: int|
                    0 <= j < n ==> #[trigger] vals_view(self.0@)[j] == val_view(self.0@[j]),
                forall|j: int|
                    0 <= j < n ==> vsh(vals_view(self.0@)) >= vh(#[trigger] vals_view(self.0@)[j]),
            decreases n - i,
        {
            let item = &self.0[i];
            proof {
                assert(vals_view(self.0@)[i as int] == val_view(*item));
                assert(vsh(vals_view(self.0@)) >= vh(vals_view(self.0@)[i as int]));
                assert(self.0@.subrange(0, i as int).push(self.0@[i as int]) =~= self.0@.subrange(
                    0,
                    i as int + 1,
                ));
                lemma_vals_view_push(self.0@.subrange(0, i as int), self.0@[i as int]);
            }
            let ghost old_out = out@;
            let copy = item.duplicate();
            proof {
                lemma_vals_view_push(old_out, copy);
            }
            out.push(copy);
            i += 1;
        }
        proof {
            assert(self.0@.subrange(0, n as int) =~= self.0@);
        }
        Array(out)
    }
}

/// Looks a name up among a document's elements, returning the first match.
pub open spec fn sp_doc_get(es: Seq<(Seq<char>, SpecValue)>, key: Seq<char>) -> Option<SpecValue>
    decreases es,
{
    if es.len() == 0 {
        None
    } else if es[0].0 == key {
        Some(es[0].1)
    } else {
        sp_doc_get(es.drop_first(), key)
    }
}

/// The name of a document's first element, or `None` for an empty document.
pub open spec fn sp_first_key(es: Seq<(Seq<char>, SpecValue)>) -> Option<Seq<char>> {
    if es.len() == 0 {
        None
    } else {
        Some(es[0].0)
    }
}

impl Document {
    /// The first element's name, which names the command a request carries.
    pub fn first_key(&self) -> (r: Option<&String>)
        ensures
            match r {
                Some(s) => sp_first_key(doc_view(*self)) == Some(s@),
                None => sp_first_key(doc_view(*self)) is None,
            },
    {
        proof {
            lemma_elems_view_len(self.0@);
        }
        if self.0.len() == 0 {
            None
        } else {
            Some(&self.0[0].0)
        }
    }

    /// The value stored under `key`, if any.
    pub fn get(&self, key: &str) -> (r: Option<&Value>)
        ensures
            match r {
                Some(v) => sp_doc_get(doc_view(*self), key@) == Some(val_view(*v)),
                None => sp_doc_get(doc_view(*self), key@) is None,
            },
    {
        proof {
            lemma_elems_view_len(self.0@);
            assert(elems_view(self.0@).skip(0) =~= elems_view(self.0@));
        }
        let n = self.0.len();
        let mut i: usize = 0;
        while i < n
            invariant
                n == self.0@.len(),
                0 <= i <= n,
                elems_view(self.0@).len() == n,
                forall|j: int|
                    0 <= j < n ==> #[trigger] elems_view(self.0@)[j] == (
                    self.0@[j].0@,
                    val_view(self.0@[j].1),
                ),
                sp_doc_get(doc_view(*self), key@) == sp_doc_get(
                    elems_view(self.0@).skip(i as int),
                    key@,
                ),
            decreases n - i,
        {
            let pair = &self.0[i];
            proof {
                assert(elems_view(self.0@)[i as int] == (pair.0@, val_view(pair.1)));
                assert(elems_view(self.0@).skip(i as int)[0] == elems_view(self.0@)[i as int]);
                assert(elems_view(self.0@).skip(i as int).drop_first() =~= elems_view(
                    self.0@,
                ).skip(i as int + 1));
            }
            if crate::text::str_eq(pair.0.as_str(), key) {
                return Some(&pair.1);
            }
            i += 1;
        }
        proof {
            assert(elems_view(self.0@).skip(n as int) =~= Seq::<(Seq<char>, SpecValue)>::empty());
        }
        None
    }
}


pub proof fn lemma_wf_elems_at(es: Seq<(Seq<char>, SpecValue)>, i: int)
    requires
        wf_elems(es),
        0 <= i < es.len(),
    ensures
        wf_cstring(es[i].0),
        wf_val(es[i].1),
    decreases es,
{
    if i > 0 {
        lemma_wf_elems_at(es.drop_first(), i - 1);
        assert(es.drop_first()[i - 1] == es[i]);
    }
}

pub proof fn lemma_wf_vals_at(vs: Seq<SpecValue>, i: int)
    requires
        wf_vals(vs),
        0 <= i < vs.len(),
    ensures
        wf_val(vs[i]),
    decreases vs,
{
    if i > 0 {
        lemma_wf_vals_at(vs.drop_first(), i - 1);
        assert(vs.drop_first()[i - 1] == vs[i]);
    }
}

pub proof fn lemma_wf_vals_push(vs: Seq<SpecValue>, v: SpecValue)
    requires
        wf_vals(vs),
        wf_val(v),
    ensures
        wf_vals(vs.push(v)),
    decreases vs,
{
    if vs.len() == 0 {
        assert(vs.push(v)[0] == v);
        assert(vs.push(v).drop_first() =~= Seq::<SpecValue>::empty());
        assert(wf_vals(Seq::<SpecValue>::empty()));
    } else {
        assert(vs.push(v)[0] == vs[0]);
        assert(vs.push(v).drop_first() =~= vs.drop_first().push(v));
        lemma_wf_vals_push(vs.drop_first(), v);
    }
}

/// Checks that a string can travel as one byte per character with no NUL: a
/// valid element name or C-string payload.
pub fn is_byte_cstring(s: &str) -> (r: bool)
    ensures
        r == wf_cstring(s@),
{
    let n = s.unicode_len();
    let mut i: usize = 0;
    while i < n
        invariant
            n == s@.len(),
            0 <= i <= n,
            forall|j: int|
                0 <= j < i ==> (#[trigger] s@[j] as u32) < 256 && (s@[j] as u32) != 0,
        decreases n - i,
    {
        let c = s.get_char(i);
        if (c as u32) >= 256 || (c as u32) == 0 {
            return false;
        }
        i += 1;
    }
    true
}

impl Value {
    /// Checks structural well-formedness at run time, so that unverified
    /// callers can test it before encoding.
    pub fn is_wf(&self) -> (r: bool)
        ensures
            r == wf_val(val_view(*self)),
        decreases vh(val_view(*self)), 1int,
    {
        match self {
            Value::Text(s) => crate::text::is_byte_string(s.as_str()),
            Value::Document(d) => d.is_wf(),
            Value::Array(a) => a.is_wf(),
            Value::ObjectId(b) => b.len() == 12,
            Value::Regex(p, o) => is_byte_cstring(p.as_str()) && is_byte_cstring(o.as_str()),
            Value::DBPointer(c, id) => is_byte_cstring(c.as_str()) && id.len() == 12,
            Value::JavaScriptCode(s) => is_byte_cstring(s.as_str()),
            Value::Symbol(s) => is_byte_cstring(s.as_str()),
            Value::JavaScriptCodeWithScope(c, d) => is_byte_cstring(c.as_str()) && d.is_wf(),
            _ => true,
        }
    }
}

impl Document {
    /// Checks structural well-formedness at run time.
    pub fn is_wf(&self) -> (r: bool)
        ensures
            r == wf_elems(doc_view(*self)),
        decreases eh(doc_view(*self)), 2int,
    {
        proof {
            lemma_elems_view_len(self.0@);
            lemma_eh_index(doc_view(*self));
        }
        let n = self.0.len();
        let mut i: usize = 0;
        while i < n
            invariant
                n == self.0@.len(),
                0 <= i <= n,
                wf_elems(elems_view(self.0@.subrange(0, i as int))),
                elems_view(self.0@).len() == n,
                forall|j: int|
                    0 <= j < n ==> #[trigger] elems_view(self.0@)[j] == (
                    self.0@[j].0@,
                    val_view(self.0@[j].1),
                ),
                forall|j: int|
                    0 <= j < n ==> eh(elems_view(self.0@)) >= vh(
                        #[trigger] elems_view(self.0@)[j].1,
                    ),
            decreases n - i,
        {
            let pair = &self.0[i];
            proof {
                assert(elems_view(self.0@)[i as int] == (pair.0@, val_view(pair.1)));
                assert(eh(elems_view(self.0@)) >= vh(elems_view(self.0@)[i as int].1));
            }
            if !is_byte_cstring(pair.0.as_str()) || !pair.1.is_wf() {
                proof {
                    if wf_elems(doc_view(*self)) {
                        lemma_wf_elems_at(doc_view(*self), i as int);
                        assert(doc_view(*self)[i as int] == (pair.0@, val_view(pair.1)));
                    }
                }
                return false;
            }
            proof {
                assert(self.0@.subrange(0, i as int).push(self.0@[i as int]) =~= self.0@.subrange(
                    0,
                    i as int + 1,
                ));
                lemma_elems_view_push(self.0@.subrange(0, i as int), self.0@[i as int]);
                lemma_wf_elems_push(
                    elems_view(self.0@.subrange(0, i as int)),
                    (pair.0@, val_view(pair.1)),
                );
            }
            i += 1;
        }
        proof {
            assert(self.0@.subrange(0, n as int) =~= self.0@);
        }
        true
    }

    /// An empty document.
    pub fn new() -> (r: Document)
        ensures
            doc_view(r) == Seq::<(Seq<char>, SpecValue)>::empty(),
            wf_elems(doc_view(r)),
    {
        let r = Document(Vec::new());
        proof {
            assert(doc_view(r) =~= Seq::<(Seq<char>, SpecValue)>::empty());
        }
        r
    }

    /// Appends one named element.
    pub fn push_field(&mut self, key: &str, v: Value)
        ensures
            doc_view(*final(self)) == doc_view(*old(self)).push((key@, val_view(v))),
            (wf_elems(doc_view(*old(self))) && wf_cstring(key@) && wf_val(val_view(v)))
                ==> wf_elems(doc_view(*final(self))),
    {
        let ghost old_view = doc_view(*self);
        let ghost vv = val_view(v);
        let pair = (key.to_owned(), v);
        proof {
            lemma_elems_view_push(self.0@, pair);
        }
        self.0.push(pair);
        proof {
            if wf_elems(old_view) && wf_cstring(key@) && wf_val(vv) {
                lemma_wf_elems_push(old_view, (key@, vv));
            }
        }
    }
}

impl Array {
    /// Checks structural well-formedness at run time.
    pub fn is_wf(&self) -> (r: bool)
        ensures
            r == wf_vals(arr_view(*self)),
        decreases vsh(arr_view(*self)), 2int,
    {
        proof {
            lemma_vals_view_len(self.0@);
            lemma_vsh_index(arr_view(*self));
        }
        let n = self.0.len();
        let mut i: usize = 0;
        while i < n
            invariant
                n == self.0@.len(),
                0 <= i <= n,
                wf_vals(vals_view(self.0@.subrange(0, i as int))),
                vals_view(self.0@).len() == n,
                forall|j: int|
                    0 <= j < n ==> #[trigger] vals_view(self.0@)[j] == val_view(self.0@[j]),
                forall|j: int|
                    0 <= j < n ==> vsh(vals_view(self.0@)) >= vh(#[trigger] vals_view(self.0@)[j]),
            decreases n - i,
        {
            let item = &self.0[i];
            proof {
                assert(vals_view(self.0@)[i as int] == val_view(*item));
                assert(vsh(vals_view(self.0@)) >= vh(vals_view(self.0@)[i as int]));
            }
            if !item.is_wf() {
                proof {
                    if wf_vals(arr_view(*self)) {
                        lemma_wf_vals_at(arr_view(*self), i as int);
                        assert(arr_view(*self)[i as int] == val_view(*item));
                    }
                }
                return false;
            }
            proof {
                assert(self.0@.subrange(0, i as int).push(self.0@[i as int]) =~= self.0@.subrange(
                    0,
                    i as int + 1,
                ));
                lemma_vals_view_push(self.0@.subrange(0, i as int), self.0@[i as int]);
                lemma_wf_vals_push(vals_view(self.0@.subrange(0, i as int)), val_view(*item));
            }
            i += 1;
        }
        proof {
            assert(self.0@.subrange(0, n as int) =~= self.0@);
        }
        true
    }
}

impl Array {
    /// An empty array.
    pub fn new() -> (r: Array)
        ensures
            arr_view(r) == Seq::<SpecValue>::empty(),
            wf_vals(arr_view(r)),
    {
        let r = Array(Vec::new());
        proof {
            assert(arr_view(r) =~= Seq::<SpecValue>::empty());
        }
        r
    }

    /// Appends one item.
    pub fn push_item(&mut self, v: Value)
        ensures
            arr_view(*final(self)) == arr_view(*old(self)).push(val_view(v)),
            (wf_vals(arr_view(*old(self))) && wf_val(val_view(v))) ==> wf_vals(
                arr_view(*final(self)),
            ),
    {
        let ghost old_view = arr_view(*self);
        let ghost vv = val_view(v);
        proof {
            lemma_vals_view_push(self.0@, v);
        }
        self.0.push(v);
        proof {
            if wf_vals(old_view) && wf_val(vv) {
                lemma_wf_vals_push(old_view, vv);
            }
        }
    }
}

} // verus!
