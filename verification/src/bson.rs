use vstd::prelude::*;

use crate::doc::{Array, Document, SpecValue, Value, arr_view, doc_view, elems_view, lemma_elems_view_push, lemma_vals_view_len, sp_doc_bytes, sp_elem_bytes, sp_elems_bytes, sp_items_bytes, sp_val_bytes, tag_of, val_view, vals_view, wf_elems, wf_val, wf_vals};
use crate::ints::{read_i32_le, read_i64_le, read_u32_le, read_u64_le, i32_le, le32_at, le32i_at, le64_at, le64i_at, lemma_i32_le, lemma_i64_le, lemma_u32_le, lemma_u64_le, le32_int, u32_le, u64_le};
use crate::text::{bytes_of, chars_of, index_key, lemma_bytes_of_wf, lemma_chars_of_wf, string_of_range, wf_cstring, wf_string};

verus! {

// The document grammar, read off a byte sequence.  These spec functions are
// the single definition of what the parser accepts; the executable parser is
// proved to return exactly their result, and the encoder's output is proved
// to parse back to the value it came from.

/// The position of the first NUL byte at or after `i`.
pub open spec fn sp_first_nul(b: Seq<u8>, i: int) -> Option<int>
    decreases b.len() - i,
{
    if i < 0 || i >= b.len() {
        None
    } else if b[i] == 0 {
        Some(i)
    } else {
        sp_first_nul(b, i + 1)
    }
}

/// Parses the payload of a value with the given tag, starting at `i`.
/// Returns the value and the position just past it.
pub open spec fn sp_parse_value(b: Seq<u8>, tag: u8, i: int) -> Option<(SpecValue, int)>
    decreases b.len() - i, 1int,
{
    if i < 0 {
        None
    } else if tag == 0x01 {
        if i + 8 <= b.len() {
            Some((SpecValue::Double(le64_at(b, i)), i + 8))
        } else {
            None
        }
    } else if tag == 0x02 {
        if i + 4 <= b.len() {
            let size = le32_at(b, i) as int;
            if size >= 1 && i + 4 + size <= b.len() && b[i + 4 + size - 1] == 0 {
                Some((SpecValue::Text(chars_of(b.subrange(i + 4, i + 4 + size - 1))), i + 4 + size))
            } else {
                None
            }
        } else {
            None
        }
    } else if tag == 0x03 {
        match sp_parse_doc(b, i) {
            Some((es, end)) => Some((SpecValue::Document(es), end)),
            None => None,
        }
    } else if tag == 0x04 {
        match sp_parse_doc(b, i) {
            Some((es, end)) => Some(
                (SpecValue::Array(es.map(|k: int, e: (Seq<char>, SpecValue)| e.1)), end),
            ),
            None => None,
        }
    } else if tag == 0x05 {
        if i + 4 <= b.len() {
            let size = le32_at(b, i) as int;
            if i + 4 + size <= b.len() {
                Some((SpecValue::Binary(b.subrange(i + 4, i + 4 + size)), i + 4 + size))
            } else {
                None
            }
        } else {
            None
        }
    } else if tag == 0x06 {
        if i <= b.len() {
            Some((SpecValue::Undefined, i))
        } else {
            None
        }
    } else if tag == 0x07 {
        if i + 12 <= b.len() {
            Some((SpecValue::ObjectId(b.subrange(i, i + 12)), i + 12))
        } else {
            None
        }
    } else if tag == 0x08 {
        if i + 1 <= b.len() && b[i] <= 1 {
            Some((SpecValue::Boolean(b[i] == 1), i + 1))
        } else {
            None
        }
    } else if tag == 0x09 {
        if i + 8 <= b.len() {
            Some((SpecValue::UtcDateTime(le64_at(b, i)), i + 8))
        } else {
            None
        }
    } else if tag == 0x0A {
        if i <= b.len() {
            Some((SpecValue::Null, i))
        } else {
            None
        }
    } else if tag == 0x0B {
        match sp_first_nul(b, i) {
            Some(n1) => match sp_first_nul(b, n1 + 1) {
                Some(n2) => Some(
                    (
                        SpecValue::Regex(
                            chars_of(b.subrange(i, n1)),
                            chars_of(b.subrange(n1 + 1, n2)),
                        ),
                        n2 + 1,
                    ),
                ),
                None => None,
            },
            None => None,
        }
    } else if tag == 0x0C {
        match sp_first_nul(b, i) {
            Some(n1) => if n1 + 13 <= b.len() {
                Some(
                    (
                        SpecValue::DBPointer(
                            chars_of(b.subrange(i, n1)),
                            b.subrange(n1 + 1, n1 + 13),
                        ),
                        n1 + 13,
                    ),
                )
            } else {
                None
            },
            None => None,
        }
    } else if tag == 0x0D {
        match sp_first_nul(b, i) {
            Some(n1) => Some((SpecValue::JavaScriptCode(chars_of(b.subrange(i, n1))), n1 + 1)),
            None => None,
        }
    } else if tag == 0x0E {
        match sp_first_nul(b, i) {
            Some(n1) => Some((SpecValue::Symbol(chars_of(b.subrange(i, n1))), n1 + 1)),
            None => None,
        }
    } else if tag == 0x0F {
        match sp_first_nul(b, i) {
            Some(n1) => if i <= n1 && n1 < b.len() {
                match sp_parse_doc(b, n1 + 1) {
                    Some((es, end)) => Some(
                        (SpecValue::JavaScriptCodeWithScope(chars_of(b.subrange(i, n1)), es), end),
                    ),
                    None => None,
                }
            } else {
                None
            },
            None => None,
        }
    } else if tag == 0x10 {
        if i + 4 <= b.len() {
            Some((SpecValue::Int32(le32i_at(b, i)), i + 4))
        } else {
            None
        }
    } else if tag == 0x11 {
        if i + 8 <= b.len() {
            Some((SpecValue::Timestamp(le64_at(b, i)), i + 8))
        } else {
            None
        }
    } else if tag == 0x12 {
        if i + 8 <= b.len() {
            Some((SpecValue::Int64(le64i_at(b, i)), i + 8))
        } else {
            None
        }
    } else if tag == 0x13 {
        if i <= b.len() {
            Some((SpecValue::Decimal128, i))
        } else {
            None
        }
    } else if tag == 0xFF {
        if i <= b.len() {
            Some((SpecValue::MinKey, i))
        } else {
            None
        }
    } else if tag == 0x7F {
        if i <= b.len() {
            Some((SpecValue::MaxKey, i))
        } else {
            None
        }
    } else {
        None
    }
}

/// Parses elements until the NUL terminator, which it consumes.
pub open spec fn sp_parse_elems(b: Seq<u8>, i: int) -> Option<(Seq<(Seq<char>, SpecValue)>, int)>
    decreases b.len() - i, 0int,
{
    if i < 0 || i >= b.len() {
        None
    } else if b[i] == 0 {
        Some((Seq::empty(), i + 1))
    } else {
        let tag = b[i];
        match sp_first_nul(b, i + 1) {
            Some(nul) => if i <= nul && nul < b.len() {
                let name = chars_of(b.subrange(i + 1, nul));
                match sp_parse_value(b, tag, nul + 1) {
                    Some((v, vend)) => if i < vend && vend <= b.len() {
                        match sp_parse_elems(b, vend) {
                            Some((rest, end)) => Some((seq![(name, v)] + rest, end)),
                            None => None,
                        }
                    } else {
                        None
                    },
                    None => None,
                }
            } else {
                None
            },
            None => None,
        }
    }
}

/// Parses a whole document at `i`: a length prefix that must match the
/// region exactly, the elements, and the final NUL.
pub open spec fn sp_parse_doc(b: Seq<u8>, i: int) -> Option<(Seq<(Seq<char>, SpecValue)>, int)>
    decreases b.len() - i, 0int,
{
    if 0 <= i && i + 4 <= b.len() {
        let len = le32_at(b, i) as int;
        if len >= 5 && i + len <= b.len() {
            match sp_parse_elems(b, i + 4) {
                Some((es, end)) => if end == i + len {
                    Some((es, end))
                } else {
                    None
                },
                None => None,
            }
        } else {
            None
        }
    } else {
        None
    }
}

pub proof fn lemma_first_nul_bounds(b: Seq<u8>, i: int)
    ensures
        match sp_first_nul(b, i) {
            Some(n) => i <= n < b.len() && b[n] == 0 && forall|j: int| i <= j < n ==> b[j] != 0,
            None => true,
        },
    decreases b.len() - i,
{
    if !(i < 0 || i >= b.len()) && b[i] != 0 {
        lemma_first_nul_bounds(b, i + 1);
    }
}

pub proof fn lemma_parse_value_bounds(b: Seq<u8>, tag: u8, i: int)
    ensures
        match sp_parse_value(b, tag, i) {
            Some((v, end)) => i <= end <= b.len(),
            None => true,
        },
    decreases b.len() - i, 1int,
{
    if i >= 0 {
        if tag == 0x03 || tag == 0x04 {
            lemma_parse_doc_bounds(b, i);
        } else if tag == 0x0B {
            lemma_first_nul_bounds(b, i);
            if sp_first_nul(b, i) is Some {
                lemma_first_nul_bounds(b, sp_first_nul(b, i)->Some_0 + 1);
            }
        } else if tag == 0x0C || tag == 0x0D || tag == 0x0E {
            lemma_first_nul_bounds(b, i);
        } else if tag == 0x0F {
            lemma_first_nul_bounds(b, i);
            if sp_first_nul(b, i) is Some {
                lemma_parse_doc_bounds(b, sp_first_nul(b, i)->Some_0 + 1);
            }
        }
    }
}

pub proof fn lemma_parse_elems_bounds(b: Seq<u8>, i: int)
    ensures
        match sp_parse_elems(b, i) {
            Some((es, end)) => i < end <= b.len(),
            None => true,
        },
    decreases b.len() - i, 0int,
{
    if !(i < 0 || i >= b.len()) && b[i] != 0 {
        match sp_first_nul(b, i + 1) {
            Some(nul) => {
                lemma_first_nul_bounds(b, i + 1);
                match sp_parse_value(b, b[i], nul + 1) {
                    Some((v, vend)) => {
                        lemma_parse_value_bounds(b, b[i], nul + 1);
                        if i < vend {
                            lemma_parse_elems_bounds(b, vend);
                        }
                    },
                    None => {},
                }
            },
            None => {},
        }
    }
}

pub proof fn lemma_parse_doc_bounds(b: Seq<u8>, i: int)
    ensures
        match sp_parse_doc(b, i) {
            Some((es, end)) => i < end <= b.len() && end == i + le32_at(b, i),
            None => true,
        },
    decreases b.len() - i, 0int,
{
    if 0 <= i && i + 4 <= b.len() {
        lemma_parse_elems_bounds(b, i + 4);
    }
}

/// The nesting weight of a value; the round-trip induction recurses on it,
/// since an array's items are re-keyed rather than taken apart structurally.
pub open spec fn vh(v: SpecValue) -> nat
    decreases v,
{
    match v {
        SpecValue::Document(es) => 1 + eh(es),
        SpecValue::Array(vs) => 1 + vsh(vs),
        SpecValue::JavaScriptCodeWithScope(_, es) => 1 + eh(es),
        _ => 1,
    }
}

pub open spec fn eh(es: Seq<(Seq<char>, SpecValue)>) -> nat
    decreases es,
{
    if es.len() == 0 {
        0
    } else {
        vh(es[0].1) + eh(es.drop_first())
    }
}

pub open spec fn vsh(vs: Seq<SpecValue>) -> nat
    decreases vs,
{
    if vs.len() == 0 {
        0
    } else {
        vh(vs[0]) + vsh(vs.drop_first())
    }
}

/// Array items paired with their decimal index keys, the shape in which an
/// array travels inside a document.
pub open spec fn keyed_items(vs: Seq<SpecValue>, k: int) -> Seq<(Seq<char>, SpecValue)>
    decreases vs,
{
    if vs.len() == 0 {
        Seq::empty()
    } else {
        seq![(index_key(k), vs[0])] + keyed_items(vs.drop_first(), k + 1)
    }
}

pub proof fn lemma_keyed_items(vs: Seq<SpecValue>, k: int)
    ensures
        sp_elems_bytes(keyed_items(vs, k)) == sp_items_bytes(vs, k),
        wf_vals(vs) ==> wf_elems(keyed_items(vs, k)),
        keyed_items(vs, k).len() == vs.len(),
        eh(keyed_items(vs, k)) == vsh(vs),
        forall|j: int| 0 <= j < vs.len() ==> #[trigger] keyed_items(vs, k)[j].1 == vs[j],
    decreases vs,
{
    crate::text::lemma_index_key_wf(k);
    if vs.len() > 0 {
        lemma_keyed_items(vs.drop_first(), k + 1);
        assert(keyed_items(vs, k).drop_first() =~= keyed_items(vs.drop_first(), k + 1));
        assert(keyed_items(vs, k)[0] == (index_key(k), vs[0]));
        assert(sp_elems_bytes(keyed_items(vs, k)) == sp_items_bytes(vs, k));
    }
}

pub proof fn lemma_first_nul_at(b: Seq<u8>, i: int, n: int)
    requires
        0 <= i <= n < b.len(),
        forall|j: int| i <= j < n ==> b[j] != 0,
        b[n] == 0,
    ensures
        sp_first_nul(b, i) == Some(n),
    decreases n - i,
{
    if i < n {
        lemma_first_nul_at(b, i + 1, n);
    }
}

/// A well-formed C-string written at `i` with its terminator is found again
/// by the NUL scan, and its characters are recovered exactly.
pub proof fn lemma_cstring_at(b: Seq<u8>, i: int, s: Seq<char>)
    requires
        wf_cstring(s),
        0 <= i,
        i + s.len() + 1 <= b.len(),
        forall|j: int| 0 <= j < s.len() ==> b[i + j] == bytes_of(s)[j],
        b[i + s.len()] == 0,
    ensures
        sp_first_nul(b, i) == Some(i + s.len()),
        chars_of(b.subrange(i, i + s.len())) == s,
{
    assert forall|j: int| i <= j < i + s.len() implies b[j] != 0 by {
        let x = s[j - i] as u32;
        assert(b[j] == bytes_of(s)[j - i]);
        assert(bytes_of(s)[j - i] == ((x as u8)));
        assert(x < 256 && x != 0);
    }
    lemma_first_nul_at(b, i, i + s.len());
    assert(b.subrange(i, i + s.len()) =~= bytes_of(s));
    lemma_bytes_of_wf(s);
}

/// Parsing the encoding of a well-formed value, written at `i`, yields that
/// value back and stops exactly at its end.
#[verifier::rlimit(100)]
#[verifier::spinoff_prover]
pub proof fn lemma_parse_value_of_bytes(b: Seq<u8>, i: int, v: SpecValue)
    requires
        wf_val(v),
        0 <= i,
        i + sp_val_bytes(v).len() <= b.len(),
        b.subrange(i, i + sp_val_bytes(v).len()) == sp_val_bytes(v),
        sp_val_bytes(v).len() + 5 < 0x80000000,
    ensures
        sp_parse_value(b, tag_of(v), i) == Some((v, i + sp_val_bytes(v).len())),
    decreases vh(v), 0int,
{
    let w = sp_val_bytes(v);
    assert forall|j: int| 0 <= j < w.len() implies b[i + j] == w[j] by {
        assert(b.subrange(i, i + w.len())[j] == b[i + j]);
    }
    match v {
        SpecValue::Double(bits) => {
            lemma_u64_le(bits);
            assert(le64_at(b, i) == le64_at(u64_le(bits), 0));
        },
        SpecValue::Text(s) => {
            let size = s.len() as int + 1;
            let pre = u32_le(size as u32);
            assert(le32_int(size) == pre);
            lemma_u32_le(size as u32);
            assert forall|j: int| 0 <= j < 4 implies b[i + j] == pre[j] by {
                assert(w[j] == pre[j]);
            }
            assert(le32_at(b, i) == le32_at(pre, 0));
            assert(le32_at(b, i) as int == size);
            assert(b[i + 4 + size - 1] == w[4 + size - 1]);
            assert(w[4 + size - 1] == 0);
            assert(b.subrange(i + 4, i + 4 + size - 1) =~= bytes_of(s)) by {
                assert forall|j: int| 0 <= j < size - 1 implies b[i + 4 + j] == bytes_of(s)[j] by {
                    assert(w[4 + j] == bytes_of(s)[j]);
                }
            }
            lemma_bytes_of_wf(s);
        },
        SpecValue::Document(es) => {
            lemma_parse_doc_of_bytes(b, i, es);
        },
        SpecValue::Array(vs) => {
            lemma_keyed_items(vs, 0);
            let kes = keyed_items(vs, 0);
            assert(sp_doc_bytes(kes) =~= w);
            assert(b.subrange(i, i + sp_doc_bytes(kes).len()) == sp_doc_bytes(kes));
            lemma_parse_doc_of_bytes(b, i, kes);
            let parsed = sp_parse_value(b, tag_of(v), i);
            assert(parsed is Some);
            let got = parsed->Some_0.0;
            assert(got is Array);
            assert(got->Array_0 =~= vs);
        },
        SpecValue::Binary(p) => {
            let pre = u32_le(p.len() as u32);
            assert(le32_int(p.len() as int) == pre);
            lemma_u32_le(p.len() as u32);
            assert forall|j: int| 0 <= j < 4 implies b[i + j] == pre[j] by {
                assert(w[j] == pre[j]);
            }
            assert(le32_at(b, i) == le32_at(pre, 0));
            assert(le32_at(b, i) as int == p.len() as int);
            assert(b.subrange(i + 4, i + 4 + p.len() as int) =~= p) by {
                assert forall|j: int| 0 <= j < p.len() implies b[i + 4 + j] == p[j] by {
                    assert(w[4 + j] == p[j]);
                }
            }
        },
        SpecValue::Undefined => {},
        SpecValue::ObjectId(p) => {
            assert(b.subrange(i, i + 12) =~= p);
        },
        SpecValue::Boolean(x) => {
            assert(b[i] == w[0]);
        },
        SpecValue::UtcDateTime(t) => {
            lemma_u64_le(t);
            assert(le64_at(b, i) == le64_at(u64_le(t), 0));
        },
        SpecValue::Null => {},
        SpecValue::Regex(p, o) => {
            assert forall|j: int| 0 <= j < p.len() implies b[i + j] == bytes_of(p)[j] by {
                assert(w[j] == bytes_of(p)[j]);
            }
            assert(b[i + p.len()] == w[p.len() as int]);
            lemma_cstring_at(b, i, p);
            let n1 = i + p.len() as int;
            assert forall|j: int| 0 <= j < o.len() implies b[n1 + 1 + j] == bytes_of(o)[j] by {
                assert(w[p.len() + 1 + j] == bytes_of(o)[j]);
            }
            assert(b[n1 + 1 + o.len()] == w[p.len() as int + 1 + o.len() as int]);
            lemma_cstring_at(b, n1 + 1, o);
        },
        SpecValue::DBPointer(c, id) => {
            assert forall|j: int| 0 <= j < c.len() implies b[i + j] == bytes_of(c)[j] by {
                assert(w[j] == bytes_of(c)[j]);
            }
            assert(b[i + c.len()] == w[c.len() as int]);
            lemma_cstring_at(b, i, c);
            let n1 = i + c.len() as int;
            assert(b.subrange(n1 + 1, n1 + 13) =~= id) by {
                assert forall|j: int| 0 <= j < 12 implies b[n1 + 1 + j] == id[j] by {
                    assert(w[c.len() + 1 + j] == id[j]);
                }
            }
        },
        SpecValue::JavaScriptCode(s) => {
            assert forall|j: int| 0 <= j < s.len() implies b[i + j] == bytes_of(s)[j] by {
                assert(w[j] == bytes_of(s)[j]);
            }
            assert(b[i + s.len()] == w[s.len() as int]);
            lemma_cstring_at(b, i, s);
        },
        SpecValue::Symbol(s) => {
            assert forall|j: int| 0 <= j < s.len() implies b[i + j] == bytes_of(s)[j] by {
                assert(w[j] == bytes_of(s)[j]);
            }
            assert(b[i + s.len()] == w[s.len() as int]);
            lemma_cstring_at(b, i, s);
        },
        SpecValue::JavaScriptCodeWithScope(c, es) => {
            assert forall|j: int| 0 <= j < c.len() implies b[i + j] == bytes_of(c)[j] by {
                assert(w[j] == bytes_of(c)[j]);
            }
            assert(b[i + c.len()] == w[c.len() as int]);
            lemma_cstring_at(b, i, c);
            let n1 = i + c.len() as int;
            let db = sp_doc_bytes(es);
            assert(b.subrange(n1 + 1, n1 + 1 + db.len() as int) =~= db) by {
                assert forall|j: int| 0 <= j < db.len() implies b[n1 + 1 + j] == db[j] by {
                    assert(w[c.len() + 1 + j] == db[j]);
                }
            }
            lemma_parse_doc_of_bytes(b, n1 + 1, es);
        },
        SpecValue::Int32(x) => {
            lemma_i32_le(x);
            assert(le32_at(b, i) == le32_at(i32_le(x), 0));
        },
        SpecValue::Timestamp(t) => {
            lemma_u64_le(t);
            assert(le64_at(b, i) == le64_at(u64_le(t), 0));
        },
        SpecValue::Int64(x) => {
            lemma_i64_le(x);
            assert(le64_at(b, i) == le64_at(u64_le(x as u64), 0));
        },
        SpecValue::Decimal128 => {},
        SpecValue::MinKey => {},
        SpecValue::MaxKey => {},
    }
}

/// Parsing the encoding of a well-formed element list followed by its NUL
/// terminator yields the list back.
#[verifier::rlimit(100)]
pub proof fn lemma_parse_elems_of_bytes(b: Seq<u8>, i: int, es: Seq<(Seq<char>, SpecValue)>)
    requires
        wf_elems(es),
        0 <= i,
        i + sp_elems_bytes(es).len() + 1 <= b.len(),
        b.subrange(i, i + sp_elems_bytes(es).len() + 1) == sp_elems_bytes(es) + seq![0u8],
        sp_elems_bytes(es).len() + 5 < 0x80000000,
    ensures
        sp_parse_elems(b, i) == Some((es, i + sp_elems_bytes(es).len() + 1)),
    decreases eh(es), 1int,
{
    let w = sp_elems_bytes(es) + seq![0u8];
    assert(w.len() == sp_elems_bytes(es).len() + 1);
    assert forall|j: int| 0 <= j < w.len() implies b[i + j] == w[j] by {
        assert(b.subrange(i, i + sp_elems_bytes(es).len() + 1)[j] == b[i + j]);
    }
    if es.len() == 0 {
        assert(w[0] == 0);
        assert(b[i] == 0);
        assert(es =~= Seq::<(Seq<char>, SpecValue)>::empty());
    } else {
        let name = es[0].0;
        let v = es[0].1;
        let eb = sp_elem_bytes(name, v);
        let vb = sp_val_bytes(v);
        let rest = es.drop_first();
        let rb = sp_elems_bytes(rest);
        assert(sp_elems_bytes(es) == eb + rb);
        assert(eb == seq![tag_of(v)] + bytes_of(name) + seq![0u8] + vb);
        assert(eb.len() == 2 + name.len() + vb.len());
        assert forall|j: int| 0 <= j < eb.len() implies w[j] == eb[j] by {
            assert((eb + rb)[j] == eb[j]);
        }
        assert(b[i] == eb[0]);
        assert(eb[0] == tag_of(v));
        assert(tag_of(v) != 0);
        // the name
        assert forall|j: int| 0 <= j < name.len() implies b[i + 1 + j] == bytes_of(name)[j] by {
            assert(b[i + 1 + j] == w[1 + j]);
            assert(w[1 + j] == eb[1 + j]);
            assert(eb[1 + j] == bytes_of(name)[j]);
        }
        assert(b[i + 1 + name.len()] == eb[1 + name.len() as int]);
        assert(eb[1 + name.len() as int] == 0);
        lemma_cstring_at(b, i + 1, name);
        let nul = i + 1 + name.len() as int;
        assert(sp_first_nul(b, i + 1) == Some(nul));
        assert(chars_of(b.subrange(i + 1, nul)) == name);
        // the value
        let vstart = nul + 1;
        assert(b.subrange(vstart, vstart + vb.len() as int) =~= vb) by {
            assert forall|j: int| 0 <= j < vb.len() implies b[vstart + j] == vb[j] by {
                assert(b[vstart + j] == w[2 + name.len() + j]);
                assert(w[2 + name.len() + j] == eb[2 + name.len() + j]);
                assert(eb[2 + name.len() + j] == vb[j]);
            }
        }
        assert(vb.len() <= sp_elems_bytes(es).len());
        assert(eh(es) >= vh(v));
        lemma_parse_value_of_bytes(b, vstart, v);
        let vend = vstart + vb.len() as int;
        assert(sp_parse_value(b, b[i], vstart) == Some((v, vend)));
        // the remaining elements
        assert(b.subrange(vend, vend + rb.len() + 1) =~= rb + seq![0u8]) by {
            assert forall|j: int| 0 <= j < rb.len() + 1 implies b[vend + j] == (rb + seq![0u8])[j]
                by {
                assert(b[vend + j] == w[eb.len() + j]);
                assert(w[eb.len() + j] == (rb + seq![0u8])[j]);
            }
        }
        assert(vh(v) >= 1);
        assert(eh(es) == vh(v) + eh(rest));
        lemma_parse_elems_of_bytes(b, vend, rest);
        assert(sp_parse_elems(b, vend) == Some((rest, vend + rb.len() + 1)));
        assert(seq![(name, v)] + rest =~= es);
        assert(vend + rb.len() + 1 == i + sp_elems_bytes(es).len() + 1);
    }
}

/// Parsing the encoding of a well-formed document, written at `i`, yields the
/// document back, consuming exactly its declared length.  Together with the
/// encoder's contract this is the codec's round trip: decoding an encoded
/// document gives the same document.
pub proof fn lemma_parse_doc_of_bytes(b: Seq<u8>, i: int, es: Seq<(Seq<char>, SpecValue)>)
    requires
        wf_elems(es),
        0 <= i,
        i + sp_doc_bytes(es).len() <= b.len(),
        b.subrange(i, i + sp_doc_bytes(es).len()) == sp_doc_bytes(es),
        sp_doc_bytes(es).len() < 0x80000000,
    ensures
        sp_parse_doc(b, i) == Some((es, i + sp_doc_bytes(es).len())),
    decreases eh(es), 2int,
{
    let d = sp_doc_bytes(es);
    let eb = sp_elems_bytes(es);
    let len = eb.len() as int + 5;
    let pre = u32_le(len as u32);
    assert(le32_int(len) == pre);
    assert(d == pre + eb + seq![0u8]);
    assert(d.len() == len);
    assert forall|j: int| 0 <= j < d.len() implies b[i + j] == d[j] by {
        assert(b.subrange(i, i + d.len())[j] == b[i + j]);
    }
    lemma_u32_le(len as u32);
    assert forall|j: int| 0 <= j < 4 implies b[i + j] == pre[j] by {
        assert(d[j] == pre[j]);
    }
    assert(le32_at(b, i) == le32_at(pre, 0));
    assert(le32_at(b, i) as int == len);
    assert(b.subrange(i + 4, i + 4 + eb.len() + 1) =~= eb + seq![0u8]) by {
        assert forall|j: int| 0 <= j < eb.len() + 1 implies b[i + 4 + j] == (eb + seq![0u8])[j] by {
            assert(b[i + 4 + j] == d[4 + j]);
            assert(d[4 + j] == (eb + seq![0u8])[j]);
        }
    }
    lemma_parse_elems_of_bytes(b, i + 4, es);
}


/// Finds the first NUL byte at or after `i`, as the spec scan does.
fn find_nul(b: &Vec<u8>, i: usize) -> (r: Option<usize>)
    ensures
        match r {
            Some(n) => sp_first_nul(b@, i as int) == Some(n as int) && i <= n < b@.len()
                && b@[n as int] == 0,
            None => sp_first_nul(b@, i as int) is None,
        },
{
    let blen = b.len();
    if i >= blen {
        return None;
    }
    let mut j: usize = i;
    while j < blen && b[j] != 0
        invariant
            i <= j <= blen,
            blen == b@.len(),
            sp_first_nul(b@, i as int) == sp_first_nul(b@, j as int),
        decreases blen - j,
    {
        j += 1;
    }
    if j < blen {
        Some(j)
    } else {
        None
    }
}

fn copy_range(b: &Vec<u8>, from: usize, to: usize) -> (out: Vec<u8>)
    requires
        from <= to <= b@.len(),
    ensures
        out@ == b@.subrange(from as int, to as int),
{
    let mut out: Vec<u8> = Vec::new();
    let mut i: usize = from;
    while i < to
        invariant
            from <= i <= to <= b@.len(),
            out@ == b@.subrange(from as int, i as int),
        decreases to - i,
    {
        out.push(b[i]);
        i += 1;
        proof {
            assert(out@ =~= b@.subrange(from as int, i as int));
        }
    }
    out
}

/// A document parser over a byte buffer.  Each `parse_*` method reads one
/// value form at an offset; `parse_document` reads a whole document and is
/// proved to return exactly what the spec grammar accepts.
pub struct Bson {
    bytes: Vec<u8>,
}

impl View for Bson {
    type V = Seq<u8>;

    closed spec fn view(&self) -> Seq<u8> {
        self.bytes@
    }
}

impl Bson {
    pub fn from_bytes(bytes: Vec<u8>) -> (r: Bson)
        ensures
            r@ == bytes@,
    {
        Bson { bytes }
    }

    pub fn new(bytes: Vec<u8>) -> (r: Bson)
        ensures
            r@ == bytes@,
    {
        Bson { bytes }
    }

    /// The document's declared total length, read from its first four bytes.
    pub fn len(&self) -> (r: i32)
        requires
            self@.len() >= 4,
        ensures
            r == le32i_at(self@, 0),
    {
        read_i32_le(&self.bytes, 0)
    }

    pub fn parse_string(&self, i: usize) -> (r: (String, usize))
        requires
            i + 4 <= self@.len(),
            le32_at(self@, i as int) >= 1,
            i + 4 + le32_at(self@, i as int) <= self@.len(),
        ensures
            r.0@ == chars_of(
                self@.subrange(i + 4, i + 4 + le32_at(self@, i as int) - 1),
            ),
            r.1 == le32_at(self@, i as int),
    {
        let blen: usize = self.bytes.len();
        let size = read_u32_le(&self.bytes, i) as usize;
        let s = string_of_range(&self.bytes, i + 4, i + 4 + size - 1);
        (s, size)
    }

    pub fn parse_cstring(&self, i: usize) -> (r: String)
        requires
            sp_first_nul(self@, i as int) is Some,
        ensures
            r@ == chars_of(self@.subrange(i as int, sp_first_nul(self@, i as int)->Some_0)),
    {
        match find_nul(&self.bytes, i) {
            Some(n) => string_of_range(&self.bytes, i, n),
            None => {
                proof {
                    assert(false);
                }
                vstd::pervasive::unreached()
            },
        }
    }

    pub fn parse_binary(&self, i: usize) -> (r: Vec<u8>)
        requires
            i + 4 <= self@.len(),
            i + 4 + le32_at(self@, i as int) <= self@.len(),
        ensures
            r@ == self@.subrange(i + 4, i + 4 + le32_at(self@, i as int)),
    {
        let blen: usize = self.bytes.len();
        let size = read_u32_le(&self.bytes, i) as usize;
        copy_range(&self.bytes, i + 4, i + 4 + size)
    }

    pub fn parse_object_id(&self, i: usize) -> (r: Vec<u8>)
        requires
            i + 12 <= self@.len(),
        ensures
            r@ == self@.subrange(i as int, i + 12),
    {
        let blen: usize = self.bytes.len();
        copy_range(&self.bytes, i, i + 12)
    }

    pub fn parse_boolean(&self, i: usize) -> (r: bool)
        requires
            i < self@.len(),
        ensures
            r == (self@[i as int] == 1),
    {
        self.bytes[i] == 1
    }

    pub fn parse_utc_date_time(&self, i: usize) -> (r: u64)
        requires
            i + 8 <= self@.len(),
        ensures
            r == le64_at(self@, i as int),
    {
        read_u64_le(&self.bytes, i)
    }

    pub fn parse_regex(&self, i: usize) -> (r: (String, String))
        requires
            sp_first_nul(self@, i as int) matches Some(n1) && sp_first_nul(self@, n1 + 1) is Some,
        ensures
            r.0@ == chars_of(self@.subrange(i as int, sp_first_nul(self@, i as int)->Some_0)),
            r.1@ == chars_of(
                self@.subrange(
                    sp_first_nul(self@, i as int)->Some_0 + 1,
                    sp_first_nul(self@, sp_first_nul(self@, i as int)->Some_0 + 1)->Some_0,
                ),
            ),
    {
        let blen: usize = self.bytes.len();
        let pattern = self.parse_cstring(i);
        proof {
            lemma_first_nul_bounds(self@, i as int);
        }
        let n1 = match find_nul(&self.bytes, i) {
            Some(n) => n,
            None => {
                proof {
                    assert(false);
                }
                vstd::pervasive::unreached()
            },
        };
        let options = self.parse_cstring(n1 + 1);
        (pattern, options)
    }

    pub fn parse_db_pointer(&self, i: usize) -> (r: (String, Vec<u8>))
        requires
            sp_first_nul(self@, i as int) matches Some(n1) && n1 + 13 <= self@.len(),
        ensures
            r.0@ == chars_of(self@.subrange(i as int, sp_first_nul(self@, i as int)->Some_0)),
            r.1@ == self@.subrange(
                sp_first_nul(self@, i as int)->Some_0 + 1,
                sp_first_nul(self@, i as int)->Some_0 + 13,
            ),
    {
        let blen: usize = self.bytes.len();
        let collection = self.parse_cstring(i);
        let n1 = match find_nul(&self.bytes, i) {
            Some(n) => n,
            None => {
                proof {
                    assert(false);
                }
                vstd::pervasive::unreached()
            },
        };
        let id = copy_range(&self.bytes, n1 + 1, n1 + 13);
        (collection, id)
    }

    pub fn parse_java_script_code(&self, i: usize) -> (r: String)
        requires
            sp_first_nul(self@, i as int) is Some,
        ensures
            r@ == chars_of(self@.subrange(i as int, sp_first_nul(self@, i as int)->Some_0)),
    {
        self.parse_cstring(i)
    }

    pub fn parse_symbol(&self, i: usize) -> (r: String)
        requires
            sp_first_nul(self@, i as int) is Some,
        ensures
            r@ == chars_of(self@.subrange(i as int, sp_first_nul(self@, i as int)->Some_0)),
    {
        self.parse_cstring(i)
    }

    pub fn parse_int32(&self, i: usize) -> (r: i32)
        requires
            i + 4 <= self@.len(),
        ensures
            r == le32i_at(self@, i as int),
    {
        read_i32_le(&self.bytes, i)
    }

    pub fn parse_timestamp(&self, i: usize) -> (r: u64)
        requires
            i + 8 <= self@.len(),
        ensures
            r == le64_at(self@, i as int),
    {
        read_u64_le(&self.bytes, i)
    }

    pub fn parse_int64(&self, i: usize) -> (r: i64)
        requires
            i + 8 <= self@.len(),
        ensures
            r == le64i_at(self@, i as int),
    {
        read_i64_le(&self.bytes, i)
    }

    /// Parses the document that starts (with its length prefix) at offset 0.
    pub fn parse(&self) -> (r: Option<Document>)
        ensures
            match r {
                Some(d) => sp_parse_doc(self@, 0) matches Some(p) && doc_view(d) == p.0,
                None => sp_parse_doc(self@, 0) is None,
            },
    {
        match self.parse_document(0) {
            Some((d, _)) => Some(d),
            None => None,
        }
    }

    /// Parses the payload of one value form at `j`, returning the value and
    /// the offset just past it; `None` exactly where the spec grammar gives
    /// none.
    fn parse_value_at(&self, tag: u8, j: usize) -> (r: Option<(Value, usize)>)
        ensures
            match r {
                Some(p) => sp_parse_value(self@, tag, j as int) == Some(
                    (val_view(p.0), p.1 as int),
                ) && j <= p.1 <= self@.len(),
                None => sp_parse_value(self@, tag, j as int) is None,
            },
        decreases self@.len() - j, 1int,
    {
        let b = &self.bytes;
        let blen = b.len();
        if j > blen {
            return None;
        }
        if tag == 0x01 {
            if blen - j >= 8 {
                Some((Value::Double(read_u64_le(b, j)), j + 8))
            } else {
                None
            }
        } else if tag == 0x02 {
            if blen - j >= 4 {
                let size = read_u32_le(b, j) as usize;
                if size >= 1 && size <= blen - (j + 4) && b[j + 4 + size - 1] == 0 {
                    let (s, _sz) = self.parse_string(j);
                    Some((Value::Text(s), j + 4 + size))
                } else {
                    None
                }
            } else {
                None
            }
        } else if tag == 0x03 {
            proof {
                lemma_parse_doc_bounds(self@, j as int);
            }
            match self.parse_document(j) {
                Some((d, end)) => Some((Value::Document(d), end)),
                None => None,
            }
        } else if tag == 0x04 {
            proof {
                lemma_parse_doc_bounds(self@, j as int);
            }
            match self.parse_document(j) {
                Some((d, end)) => {
                    let ghost dv = doc_view(d);
                    let a = Array::from_document(d);
                    proof {
                        assert(arr_view(a) =~= dv.map(
                            |k: int, e: (Seq<char>, SpecValue)| e.1,
                        ));
                    }
                    Some((Value::Array(a), end))
                },
                None => None,
            }
        } else if tag == 0x05 {
            if blen - j >= 4 {
                let size = read_u32_le(b, j) as usize;
                if size <= blen - (j + 4) {
                    Some((Value::Binary(self.parse_binary(j)), j + 4 + size))
                } else {
                    None
                }
            } else {
                None
            }
        } else if tag == 0x06 {
            Some((Value::Undefined, j))
        } else if tag == 0x07 {
            if blen - j >= 12 {
                Some((Value::ObjectId(self.parse_object_id(j)), j + 12))
            } else {
                None
            }
        } else if tag == 0x08 {
            if blen - j >= 1 && b[j] <= 1 {
                Some((Value::Boolean(self.parse_boolean(j)), j + 1))
            } else {
                None
            }
        } else if tag == 0x09 {
            if blen - j >= 8 {
                Some((Value::UtcDateTime(self.parse_utc_date_time(j)), j + 8))
            } else {
                None
            }
        } else if tag == 0x0A {
            Some((Value::Null, j))
        } else if tag == 0x0B {
            match find_nul(b, j) {
                Some(n1) => match find_nul(b, n1 + 1) {
                    Some(n2) => {
                        let (p, o) = self.parse_regex(j);
                        Some((Value::Regex(p, o), n2 + 1))
                    },
                    None => None,
                },
                None => None,
            }
        } else if tag == 0x0C {
            match find_nul(b, j) {
                Some(n1) => if blen - n1 >= 13 {
                    let (c, id) = self.parse_db_pointer(j);
                    Some((Value::DBPointer(c, id), n1 + 13))
                } else {
                    None
                },
                None => None,
            }
        } else if tag == 0x0D {
            match find_nul(b, j) {
                Some(n1) => Some((Value::JavaScriptCode(self.parse_java_script_code(j)), n1 + 1)),
                None => None,
            }
        } else if tag == 0x0E {
            match find_nul(b, j) {
                Some(n1) => Some((Value::Symbol(self.parse_symbol(j)), n1 + 1)),
                None => None,
            }
        } else if tag == 0x0F {
            match find_nul(b, j) {
                Some(n1) => {
                    let code = self.parse_cstring(j);
                    proof {
                        lemma_parse_doc_bounds(self@, n1 + 1);
                    }
                    match self.parse_document(n1 + 1) {
                        Some((d, end)) => Some((Value::JavaScriptCodeWithScope(code, d), end)),
                        None => None,
                    }
                },
                None => None,
            }
        } else if tag == 0x10 {
            if blen - j >= 4 {
                Some((Value::Int32(self.parse_int32(j)), j + 4))
            } else {
                None
            }
        } else if tag == 0x11 {
            if blen - j >= 8 {
                Some((Value::Timestamp(self.parse_timestamp(j)), j + 8))
            } else {
                None
            }
        } else if tag == 0x12 {
            if blen - j >= 8 {
                Some((Value::Int64(self.parse_int64(j)), j + 8))
            } else {
                None
            }
        } else if tag == 0x13 {
            Some((Value::Decimal128(crate::doc::Decimal128), j))
        } else if tag == 0xFF {
            Some((Value::MinKey, j))
        } else if tag == 0x7F {
            Some((Value::MaxKey, j))
        } else {
            None
        }
    }

    /// Parses a whole document whose length prefix sits at `start_from`,
    /// returning it and the offset just past it.  The result is exactly what
    /// the spec grammar accepts there: `None` if and only if the bytes do not
    /// form a document.
    #[verifier::rlimit(100)]
    pub fn parse_document(&self, start_from: usize) -> (r: Option<(Document, usize)>)
        ensures
            match r {
                Some(p) => sp_parse_doc(self@, start_from as int) == Some(
                    (doc_view(p.0), p.1 as int),
                ),
                None => sp_parse_doc(self@, start_from as int) is None,
            },
        decreases self@.len() - start_from, 0int,
    {
        let b = &self.bytes;
        let blen = b.len();
        let start = start_from;
        if start > blen || blen - start < 4 {
            return None;
        }
        let dlen = read_u32_le(b, start) as usize;
        if dlen < 5 || dlen > blen - start {
            return None;
        }
        let ghost i0: int = start + 4;
        let mut elems: Vec<(String, Value)> = Vec::new();
        let mut i: usize = start + 4;
        proof {
            assert(elems_view(elems@) =~= Seq::<(Seq<char>, SpecValue)>::empty());
            match sp_parse_elems(self@, i0) {
                Some((rest, end)) => {
                    assert(elems_view(elems@) + rest =~= rest);
                },
                None => {},
            }
        }
        loop
            invariant
                start == start_from,
                start + 4 <= i <= blen,
                blen == self@.len(),
                b@ == self@,
                start + dlen <= blen,
                5 <= dlen,
                i0 == start + 4,
                le32_at(self@, start as int) == dlen,
                sp_parse_elems(self@, i0) == (match sp_parse_elems(self@, i as int) {
                    Some((rest, end)) => Some((elems_view(elems@) + rest, end)),
                    None => None,
                }),
            decreases blen - i,
        {
            if i >= blen {
                proof {
                    assert(sp_parse_elems(self@, i as int) is None);
                    assert(sp_parse_elems(self@, i0) is None);
                    assert(sp_parse_doc(self@, start_from as int) is None);
                }
                return None;
            }
            let tag = b[i];
            if tag == 0 {
                proof {
                    assert(sp_parse_elems(self@, i as int) == Some(
                        (Seq::<(Seq<char>, SpecValue)>::empty(), i + 1int),
                    ));
                    assert(elems_view(elems@) + Seq::<(Seq<char>, SpecValue)>::empty()
                        =~= elems_view(elems@));
                }
                proof {
                    assert(sp_parse_elems(self@, i0) == Some((elems_view(elems@), i + 1int)));
                }
                if i + 1 - start != dlen {
                    proof {
                        assert(i + 1int != start_from + (le32_at(self@, start_from as int) as int));
                        assert(sp_parse_doc(self@, start_from as int) is None);
                    }
                    return None;
                }
                proof {
                    assert(sp_parse_doc(self@, start_from as int) == Some(
                        (elems_view(elems@), i + 1int),
                    ));
                }
                return Some((Document(elems), i + 1));
            }
            // the element's name
            let nul = match find_nul(b, i + 1) {
                Some(n) => n,
                None => {
                    proof {
                        assert(sp_parse_elems(self@, i as int) is None);
                        assert(sp_parse_elems(self@, i0) is None);
                        assert(sp_parse_doc(self@, start_from as int) is None);
                    }
                    return None;
                },
            };
            let name = string_of_range(b, i + 1, nul);
            let j = nul + 1;
            proof {
                assert(i + 1 <= nul < blen);
                assert(start_from < j <= self@.len());
                assert(self@.len() - j < self@.len() - start_from);
            }
            // the element's value
            let parsed = self.parse_value_at(tag, j);
            let (value, vend) = match parsed {
                Some(p) => p,
                None => {
                    proof {
                        assert(sp_parse_value(self@, tag, j as int) is None);
                        assert(sp_parse_elems(self@, i as int) is None);
                        assert(sp_parse_elems(self@, i0) is None);
                        assert(sp_parse_doc(self@, start_from as int) is None);
                    }
                    return None;
                },
            };
            proof {
                assert(sp_parse_elems(self@, i as int) == (
                match sp_parse_elems(self@, vend as int) {
                    Some((rest, end)) => Some(
                        (seq![(name@, val_view(value))] + rest, end),
                    ),
                    None => None,
                }));
                lemma_elems_view_push(elems@, (name, value));
            }
            let ghost old_elems = elems@;
            elems.push((name, value));
            proof {
                match sp_parse_elems(self@, vend as int) {
                    Some((rest, end)) => {
                        assert(elems_view(old_elems) + (seq![(name@, val_view(value))] + rest)
                            =~= elems_view(elems@) + rest);
                    },
                    None => {},
                }
            }
            i = vend;
        }
    }
}

impl Array {
    /// Keeps the values of a document's elements, dropping their names: the
    /// form in which an array leaves the wire.
    pub fn from_document(d: Document) -> (r: Array)
        ensures
            arr_view(r).len() == doc_view(d).len(),
            forall|j: int|
                0 <= j < doc_view(d).len() ==> #[trigger] arr_view(r)[j] == doc_view(d)[j].1,
    {
        proof {
            crate::doc::lemma_elems_view_len(d.0@);
        }
        let mut out: Vec<Value> = Vec::new();
        let mut items = d.0;
        let n = items.len();
        let ghost items0 = items@;
        let mut k: usize = 0;
        while k < n
            invariant
                0 <= k <= n,
                n == items0.len(),
                items@ == items0.skip(k as int),
                vals_view(out@).len() == k,
                forall|j: int|
                    0 <= j < k ==> #[trigger] vals_view(out@)[j] == val_view(items0[j].1),
            decreases n - k,
        {
            proof {
                lemma_vals_view_len(out@);
                assert(items@[0] == items0[k as int]);
            }
            let pair = items.remove(0);
            proof {
                crate::doc::lemma_vals_view_push(out@, pair.1);
            }
            out.push(pair.1);
            k += 1;
            proof {
                assert(items@ =~= items0.skip(k as int));
                lemma_vals_view_len(out@);
            }
        }
        let r = Array(out);
        proof {
            lemma_vals_view_len(r.0@);
            crate::doc::lemma_elems_view_len(d.0@);
        }
        r
    }
}


/// Whatever the parser accepts is structurally well-formed: names are
/// C-strings, every character fits in a byte, fixed-width buffers have their
/// width.  So a parsed document can always be encoded again.
pub proof fn lemma_parsed_value_wf(b: Seq<u8>, tag: u8, i: int)
    ensures
        sp_parse_value(b, tag, i) matches Some(p) ==> wf_val(p.0),
    decreases b.len() - i, 1int,
{
    if i >= 0 {
        if tag == 0x02 {
            if i + 4 <= b.len() {
                lemma_chars_of_wf(b.subrange(i + 4, i + 4 + le32_at(b, i) - 1));
            }
        } else if tag == 0x03 || tag == 0x04 {
            lemma_parsed_doc_wf(b, i);
            if tag == 0x04 {
                match sp_parse_doc(b, i) {
                    Some((es, end)) => {
                        lemma_wf_elems_to_vals(es);
                    },
                    None => {},
                }
            }
        } else if tag == 0x0B {
            lemma_first_nul_bounds(b, i);
            match sp_first_nul(b, i) {
                Some(n1) => {
                    lemma_wf_scanned_cstring(b, i, n1);
                    lemma_first_nul_bounds(b, n1 + 1);
                    match sp_first_nul(b, n1 + 1) {
                        Some(n2) => {
                            lemma_wf_scanned_cstring(b, n1 + 1, n2);
                        },
                        None => {},
                    }
                },
                None => {},
            }
        } else if tag == 0x0C || tag == 0x0D || tag == 0x0E {
            lemma_first_nul_bounds(b, i);
            match sp_first_nul(b, i) {
                Some(n1) => {
                    lemma_wf_scanned_cstring(b, i, n1);
                },
                None => {},
            }
        } else if tag == 0x0F {
            lemma_first_nul_bounds(b, i);
            match sp_first_nul(b, i) {
                Some(n1) => {
                    lemma_wf_scanned_cstring(b, i, n1);
                    if i <= n1 && n1 < b.len() {
                        lemma_parsed_doc_wf(b, n1 + 1);
                    }
                },
                None => {},
            }
        }
    }
}

/// The characters scanned up to the first NUL form a C-string.
proof fn lemma_wf_scanned_cstring(b: Seq<u8>, i: int, n: int)
    requires
        sp_first_nul(b, i) == Some(n),
    ensures
        wf_cstring(chars_of(b.subrange(i, n))),
{
    lemma_first_nul_bounds(b, i);
    lemma_chars_of_wf(b.subrange(i, n));
    let s = chars_of(b.subrange(i, n));
    assert forall|j: int| 0 <= j < s.len() implies (#[trigger] s[j] as u32) != 0 by {
        assert(b.subrange(i, n)[j] == b[i + j]);
        assert(b[i + j] != 0);
    }
}

proof fn lemma_wf_elems_to_vals(es: Seq<(Seq<char>, SpecValue)>)
    requires
        wf_elems(es),
    ensures
        wf_vals(es.map(|k: int, e: (Seq<char>, SpecValue)| e.1)),
    decreases es,
{
    let vs = es.map(|k: int, e: (Seq<char>, SpecValue)| e.1);
    if es.len() > 0 {
        lemma_wf_elems_to_vals(es.drop_first());
        assert(vs.drop_first() =~= es.drop_first().map(|k: int, e: (Seq<char>, SpecValue)| e.1));
        assert(vs[0] == es[0].1);
        assert(wf_vals(vs));
    } else {
        assert(vs.len() == 0);
    }
}

pub proof fn lemma_parsed_elems_wf(b: Seq<u8>, i: int)
    ensures
        sp_parse_elems(b, i) matches Some(p) ==> wf_elems(p.0),
    decreases b.len() - i, 0int,
{
    if !(i < 0 || i >= b.len()) && b[i] != 0 {
        match sp_first_nul(b, i + 1) {
            Some(nul) => {
                if i <= nul && nul < b.len() {
                    lemma_wf_scanned_cstring(b, i + 1, nul);
                    lemma_first_nul_bounds(b, i + 1);
                    match sp_parse_value(b, b[i], nul + 1) {
                        Some((v, vend)) => {
                            lemma_parsed_value_wf(b, b[i], nul + 1);
                            if i < vend && vend <= b.len() {
                                lemma_parsed_elems_wf(b, vend);
                                match sp_parse_elems(b, vend) {
                                    Some((rest, end)) => {
                                        let name = chars_of(b.subrange(i + 1, nul));
                                        assert((seq![(name, v)] + rest).drop_first() =~= rest);
                                        assert((seq![(name, v)] + rest)[0] == (name, v));
                                    },
                                    None => {},
                                }
                            }
                        },
                        None => {},
                    }
                }
            },
            None => {},
        }
    }
}

pub proof fn lemma_parsed_doc_wf(b: Seq<u8>, i: int)
    ensures
        sp_parse_doc(b, i) matches Some(p) ==> wf_elems(p.0),
    decreases b.len() - i, 0int,
{
    if 0 <= i && i + 4 <= b.len() {
        lemma_parsed_elems_wf(b, i + 4);
    }
}

} // verus!
