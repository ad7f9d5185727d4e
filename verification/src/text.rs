use vstd::prelude::*;

verus! {

// Text handled by the protocol is byte-oriented: field names and C-strings
// travel as raw bytes, and each byte is mapped to the character with the same
// code point.  These helpers relate byte sequences and character sequences.

pub open spec fn chars_of(b: Seq<u8>) -> Seq<char> {
    Seq::new(b.len(), |i: int| b[i] as char)
}

pub open spec fn bytes_of(s: Seq<char>) -> Seq<u8> {
    Seq::new(s.len(), |i: int| ((s[i] as u32) as u8))
}

/// Every character has a code point below 256, so the string can travel as
/// one byte per character.
pub open spec fn wf_string(s: Seq<char>) -> bool {
    forall|i: int| 0 <= i < s.len() ==> (#[trigger] s[i] as u32) < 256
}

/// A C-string additionally has no NUL character, so its terminator is
/// unambiguous.
pub open spec fn wf_cstring(s: Seq<char>) -> bool {
    wf_string(s) && forall|i: int| 0 <= i < s.len() ==> (#[trigger] s[i] as u32) != 0
}

pub proof fn lemma_chars_of_wf(b: Seq<u8>)
    ensures
        wf_string(chars_of(b)),
        bytes_of(chars_of(b)) == b,
{
    assert(bytes_of(chars_of(b)) =~= b);
}

pub proof fn lemma_bytes_of_wf(s: Seq<char>)
    requires
        wf_string(s),
    ensures
        chars_of(bytes_of(s)) == s,
{
    assert forall|i: int| 0 <= i < s.len() implies chars_of(bytes_of(s))[i] == s[i] by {
        let n = s[i] as u32;
        assert(n < 256);
        assert((n as u8) as u32 == n);
        vstd::utf8::char_u32_cast(s[i], n);
    }
    assert(chars_of(bytes_of(s)) =~= s);
}

/// Relies on String::push, which appends the given character to the string.
#[verifier::external_body]
pub fn push_char(s: &mut String, c: char)
    ensures
        final(s)@ == old(s)@.push(c),
{
    s.push(c);
}

/// Builds the string whose characters are the bytes of `b[from..to]`.
pub fn string_of_range(b: &Vec<u8>, from: usize, to: usize) -> (s: String)
    requires
        from <= to <= b@.len(),
    ensures
        s@ == chars_of(b@.subrange(from as int, to as int)),
{
    let mut s = String::new();
    let mut i: usize = from;
    while i < to
        invariant
            from <= i <= to <= b@.len(),
            s@ == chars_of(b@.subrange(from as int, i as int)),
        decreases to - i,
    {
        let c: char = b[i] as char;
        push_char(&mut s, c);
        i += 1;
        proof {
            assert(s@ =~= chars_of(b@.subrange(from as int, i as int)));
        }
    }
    s
}

/// Appends the bytes of a string, one per character.
pub fn push_string_bytes(out: &mut Vec<u8>, s: &String)
    requires
        wf_string(s@),
    ensures
        final(out)@ == old(out)@ + bytes_of(s@),
{
    let st: &str = s.as_str();
    let n = st.unicode_len();
    let mut i: usize = 0;
    while i < n
        invariant
            n == st@.len(),
            st@ == s@,
            wf_string(s@),
            0 <= i <= n,
            out@ == old(out)@ + bytes_of(s@.subrange(0, i as int)),
        decreases n - i,
    {
        let c = st.get_char(i);
        out.push((c as u32) as u8);
        i += 1;
        proof {
            assert(out@ =~= old(out)@ + bytes_of(s@.subrange(0, i as int)));
        }
    }
    proof {
        assert(s@.subrange(0, s@.len() as int) =~= s@);
    }
}

pub open spec fn lower_char(c: char) -> char {
    if 'A' <= c <= 'Z' {
        (((c as u32) + 32) as u8) as char
    } else {
        c
    }
}

pub open spec fn lower(s: Seq<char>) -> Seq<char> {
    Seq::new(s.len(), |i: int| lower_char(s[i]))
}

/// ASCII-lowercases a string, as command names are compared
/// case-insensitively.
pub fn to_lowercase(s: &str) -> (r: String)
    ensures
        r@ == lower(s@),
{
    let n = s.unicode_len();
    let mut r = String::new();
    let mut i: usize = 0;
    while i < n
        invariant
            n == s@.len(),
            0 <= i <= n,
            r@ == lower(s@.subrange(0, i as int)),
        decreases n - i,
    {
        let c = s.get_char(i);
        let lc: char = if 'A' <= c && c <= 'Z' {
            (((c as u32) + 32) as u8) as char
        } else {
            c
        };
        push_char(&mut r, lc);
        i += 1;
        proof {
            assert(r@ =~= lower(s@.subrange(0, i as int)));
        }
    }
    proof {
        assert(s@.subrange(0, s@.len() as int) =~= s@);
    }
    r
}

pub fn str_eq(a: &str, b: &str) -> (r: bool)
    ensures
        r == (a@ == b@),
{
    let alen = a.unicode_len();
    let blen = b.unicode_len();
    if alen != blen {
        return false;
    }
    let mut i: usize = 0;
    while i < alen
        invariant
            alen == a@.len(),
            blen == b@.len(),
            alen == blen,
            0 <= i <= alen,
            forall|j: int| 0 <= j < i ==> a@[j] == b@[j],
        decreases alen - i,
    {
        if a.get_char(i) != b.get_char(i) {
            return false;
        }
        i += 1;
    }
    proof {
        assert(a@ =~= b@);
    }
    true
}

pub open spec fn digit_char(d: int) -> char {
    (((0x30 + d % 10) as u8) as char)
}

/// The decimal digits of an index, used as the field names of an array.
pub open spec fn index_key(n: int) -> Seq<char>
    decreases n,
{
    if n < 10 {
        seq![digit_char(n)]
    } else {
        index_key(n / 10) + seq![digit_char(n % 10)]
    }
}

pub fn index_key_string(n: usize) -> (s: String)
    ensures
        s@ == index_key(n as int),
    decreases n,
{
    if n < 10 {
        let mut s = String::new();
        let c: char = ((0x30 + (n % 10)) as u8) as char;
        push_char(&mut s, c);
        proof {
            assert(s@ =~= index_key(n as int));
        }
        s
    } else {
        let mut s = index_key_string(n / 10);
        let c: char = ((0x30 + (n % 10)) as u8) as char;
        push_char(&mut s, c);
        proof {
            assert(s@ =~= index_key(n as int));
        }
        s
    }
}

pub proof fn lemma_index_key_wf(n: int)
    ensures
        wf_cstring(index_key(n)),
    decreases n,
{
    if n >= 10 {
        lemma_index_key_wf(n / 10);
    }
}

/// Checks that every character of the string fits in one byte.
pub fn is_byte_string(s: &str) -> (r: bool)
    ensures
        r == wf_string(s@),
{
    let n = s.unicode_len();
    let mut i: usize = 0;
    while i < n
        invariant
            n == s@.len(),
            0 <= i <= n,
            forall|j: int| 0 <= j < i ==> (#[trigger] s@[j] as u32) < 256,
        decreases n - i,
    {
        let c = s.get_char(i);
        if (c as u32) >= 256 {
            return false;
        }
        i += 1;
    }
    true
}

} // verus!
