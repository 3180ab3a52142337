//! Small byte-string helpers shared by the codec and the parsers, and the
//! ASCII bridge between byte strings and character strings.

use vstd::prelude::*;

verus! {

/// The characters of an ASCII byte string, one per byte.
pub open spec fn spec_ascii_chars(b: Seq<u8>) -> Seq<char> {
    b.map_values(|x: u8| x as char)
}

/// Is every byte ASCII?
pub open spec fn spec_all_ascii(b: Seq<u8>) -> bool {
    forall|k: int| 0 <= k < b.len() ==> b[k] < 128
}

/// On ASCII byte strings, the character view determines the bytes.
pub proof fn lemma_ascii_chars_injective(a: Seq<u8>, b: Seq<u8>)
    requires
        spec_all_ascii(a),
        spec_all_ascii(b),
        spec_ascii_chars(a) == spec_ascii_chars(b),
    ensures
        a == b,
{
    assert(spec_ascii_chars(a).len() == a.len());
    assert(spec_ascii_chars(b).len() == b.len());
    assert(a.len() == b.len());
    assert forall|k: int| 0 <= k < a.len() implies a[k] == b[k] by {
        assert(spec_ascii_chars(a)[k] == spec_ascii_chars(b)[k]);
        assert(spec_ascii_chars(a)[k] == a[k] as char);
        assert(spec_ascii_chars(b)[k] == b[k] as char);
        assert((a[k] as char) as u32 == a[k] as u32);
        assert((b[k] as char) as u32 == b[k] as u32);
    }
    assert(a =~= b);
}

/// Byte-string equality.
pub fn bytes_eq(a: &Vec<u8>, b: &Vec<u8>) -> (r: bool)
    ensures
        r == (a@ == b@),
{
    if a.len() != b.len() {
        return false;
    }
    let mut i: usize = 0;
    while i < a.len()
        invariant
            i <= a@.len(),
            a@.len() == b@.len(),
            forall|k: int| 0 <= k < i ==> a@[k] == b@[k],
        decreases a@.len() - i,
    {
        if a[i] != b[i] {
            return false;
        }
        i = i + 1;
    }
    proof {
        assert(a@ =~= b@);
    }
    true
}

/// A copy of the byte range `[a, b)`.
pub fn copy_range(v: &Vec<u8>, a: usize, b: usize) -> (r: Vec<u8>)
    requires
        a <= b <= v@.len(),
    ensures
        r@ == v@.subrange(a as int, b as int),
{
    let mut out: Vec<u8> = Vec::new();
    let mut i: usize = a;
    while i < b
        invariant
            a <= i <= b <= v@.len(),
            out@ == v@.subrange(a as int, i as int),
        decreases b - i,
    {
        out.push(v[i]);
        proof {
            assert(v@.subrange(a as int, i + 1 as int) =~= v@.subrange(a as int, i as int)
                + seq![v@[i as int]]);
        }
        i = i + 1;
    }
    out
}

/// Relies on String::from_utf8: yields exactly the string whose UTF-8
/// encoding is the given bytes, and fails exactly on invalid UTF-8.
#[verifier::external_body]
pub(crate) fn utf8_string(v: Vec<u8>) -> (r: Option<String>)
    ensures
        match r {
            Some(s) => v@ == vstd::utf8::encode_utf8(s@),
            None => !vstd::utf8::valid_utf8(v@),
        },
{
    String::from_utf8(v).ok()
}

/// ASCII bytes as a string, one character per byte: a special case of
/// UTF-8 decoding that cannot fail.
pub fn ascii_string(v: Vec<u8>) -> (r: String)
    requires
        spec_all_ascii(v@),
    ensures
        r@ == spec_ascii_chars(v@),
{
    let ghost vb = v@;
    proof {
        lemma_ascii_encode_utf8(vb);
    }
    match utf8_string(v) {
        Some(s) => {
            proof {
                vstd::utf8::encode_utf8_decode_utf8(s@);
                vstd::utf8::encode_utf8_decode_utf8(spec_ascii_chars(vb));
            }
            s
        },
        None => vstd::pervasive::unreached(),
    }
}

/// The character view of an ASCII byte string is ASCII, and encodes back
/// to the same bytes.
pub proof fn lemma_ascii_encode_utf8(b: Seq<u8>)
    requires
        spec_all_ascii(b),
    ensures
        vstd::utf8::is_ascii_chars(spec_ascii_chars(b)),
        vstd::utf8::encode_utf8(spec_ascii_chars(b)) == b,
        vstd::utf8::valid_utf8(b),
{
    let chars = spec_ascii_chars(b);
    assert forall|i: int| 0 <= i < chars.len() implies '\0' <= #[trigger] chars[i] <= '\u{7f}' by {
        assert(chars[i] == b[i] as char);
        assert((b[i] as char) as u32 == b[i] as u32);
    }
    vstd::utf8::is_ascii_chars_encode_utf8(chars);
    assert forall|i: int| 0 <= i < chars.len() implies vstd::utf8::encode_utf8(chars)[i] == b[
        i
    ] by {
        assert(chars[i] as u8 == vstd::utf8::encode_utf8(chars)[i]);
        assert(chars[i] == b[i] as char);
        assert((b[i] as char) as u32 == b[i] as u32);
        assert((b[i] as char) as u8 == b[i]);
    }
    assert(vstd::utf8::encode_utf8(chars) =~= b);
    vstd::utf8::encode_utf8_valid_utf8(chars);
}

/// String equality over the character view.
pub fn str_eq(a: &str, b: &str) -> (r: bool)
    ensures
        r == (a@ == b@),
{
    let av = a.as_bytes_vec();
    let bv = b.as_bytes_vec();
    let r = bytes_eq(&av, &bv);
    proof {
        if av@ == bv@ {
            vstd::utf8::encode_utf8_decode_utf8(a@);
            vstd::utf8::encode_utf8_decode_utf8(b@);
        }
    }
    r
}

/// Appends every byte of `src`.
pub fn push_all(dst: &mut Vec<u8>, src: &Vec<u8>)
    ensures
        final(dst)@ == old(dst)@ + src@,
{
    let mut i: usize = 0;
    proof {
        assert(old(dst)@ + src@.subrange(0, 0) =~= old(dst)@);
    }
    while i < src.len()
        invariant
            i <= src@.len(),
            dst@ == old(dst)@ + src@.subrange(0, i as int),
        decreases src@.len() - i,
    {
        dst.push(src[i]);
        proof {
            assert(old(dst)@ + src@.subrange(0, i as int) + seq![src@[i as int]] =~= old(dst)@
                + src@.subrange(0, i + 1));
        }
        i = i + 1;
    }
    proof {
        assert(src@.subrange(0, src@.len() as int) =~= src@);
    }
}

/// The first occurrence of `t` at or after `from`.
pub fn find_byte(v: &Vec<u8>, from: usize, t: u8) -> (r: Option<usize>)
    requires
        from <= v@.len(),
    ensures
        match r {
            Some(j) => from <= j < v@.len() && v@[j as int] == t && forall|k: int|
                from <= k < j ==> v@[k] != t,
            None => forall|k: int| from <= k < v@.len() ==> v@[k] != t,
        },
{
    let mut i: usize = from;
    while i < v.len()
        invariant
            from <= i <= v@.len(),
            forall|k: int| from <= k < i ==> v@[k] != t,
        decreases v@.len() - i,
    {
        if v[i] == t {
            return Some(i);
        }
        i = i + 1;
    }
    None
}

} // verus!
