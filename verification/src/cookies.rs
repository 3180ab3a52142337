//! The cookie-header grammar: `name=value` pairs separated by `;`, names
//! and values trimmed of surrounding spaces. The named lookup returns the
//! first pair that carries the name; a pair without `=` is passed over.
//! Values are taken literally — this grammar does no percent-decoding.

use vstd::prelude::*;
use vstd::string::StringSliceAdditionalSpecFns;
use crate::bytesutil::bytes_eq;
use crate::bytesutil::copy_range;
use crate::bytesutil::find_byte;
use crate::bytesutil::utf8_string;

verus! {

/// The index of the first occurrence of `b`, or the length when absent.
pub open spec fn spec_index_of(s: Seq<u8>, b: u8) -> nat
    decreases s.len(),
{
    if s.len() == 0 {
        0
    } else if s[0] == b {
        0
    } else {
        1 + spec_index_of(s.drop_first(), b)
    }
}

/// What the first-occurrence index satisfies.
pub proof fn lemma_index_of_props(s: Seq<u8>, b: u8)
    ensures
        spec_index_of(s, b) <= s.len(),
        spec_index_of(s, b) < s.len() ==> s[spec_index_of(s, b) as int] == b,
        forall|k: int| 0 <= k < spec_index_of(s, b) ==> s[k] != b,
    decreases s.len(),
{
    if s.len() > 0 && s[0] != b {
        lemma_index_of_props(s.drop_first(), b);
        assert forall|k: int| 0 <= k < spec_index_of(s, b) implies s[k] != b by {
            if k > 0 {
                assert(s.drop_first()[k - 1] != b);
            }
        }
    }
}

/// A position that looks like the first occurrence is the first occurrence.
pub proof fn lemma_index_of_at(s: Seq<u8>, b: u8, i: int)
    requires
        0 <= i <= s.len(),
        i == s.len() || s[i] == b,
        forall|k: int| 0 <= k < i ==> s[k] != b,
    ensures
        spec_index_of(s, b) == i,
    decreases s.len(),
{
    if s.len() > 0 && i > 0 {
        lemma_index_of_at(s.drop_first(), b, i - 1);
    }
}

/// How many leading spaces `s` carries.
pub open spec fn spec_lead_spaces(s: Seq<u8>) -> nat
    decreases s.len(),
{
    if s.len() == 0 {
        0
    } else if s[0] != 32 {
        0
    } else {
        1 + spec_lead_spaces(s.drop_first())
    }
}

/// How many trailing spaces `s` carries.
pub open spec fn spec_trail_spaces(s: Seq<u8>) -> nat
    decreases s.len(),
{
    if s.len() == 0 {
        0
    } else if s.last() != 32 {
        0
    } else {
        1 + spec_trail_spaces(s.drop_last())
    }
}

/// The count of trailing spaces never exceeds the length.
pub proof fn lemma_trail_le_len(s: Seq<u8>)
    ensures
        spec_trail_spaces(s) <= s.len(),
    decreases s.len(),
{
    if s.len() > 0 && s.last() == 32 {
        lemma_trail_le_len(s.drop_last());
    }
}

/// `s` without its surrounding spaces.
pub open spec fn spec_trim(s: Seq<u8>) -> Seq<u8> {
    let u = s.skip(spec_lead_spaces(s) as int);
    u.take(u.len() - spec_trail_spaces(u))
}

/// A position that looks like the end of the leading spaces is it.
pub proof fn lemma_lead_at(s: Seq<u8>, i: int)
    requires
        0 <= i <= s.len(),
        forall|k: int| 0 <= k < i ==> s[k] == 32,
        i == s.len() || s[i] != 32,
    ensures
        spec_lead_spaces(s) == i,
    decreases s.len(),
{
    if s.len() > 0 && i > 0 {
        lemma_lead_at(s.drop_first(), i - 1);
    }
}

/// A count that looks like the trailing-space count is it.
pub proof fn lemma_trail_at(s: Seq<u8>, t: int)
    requires
        0 <= t <= s.len(),
        forall|k: int| s.len() - t <= k < s.len() ==> s[k] == 32,
        t == s.len() || s[s.len() - t - 1] != 32,
    ensures
        spec_trail_spaces(s) == t,
    decreases s.len(),
{
    if s.len() > 0 && t > 0 {
        assert(s.last() == 32);
        assert(forall|k: int|
            s.drop_last().len() - (t - 1) <= k < s.drop_last().len() ==> s.drop_last()[k] == 32);
        lemma_trail_at(s.drop_last(), t - 1);
    }
}

/// The value of the first `name=value` pair carrying `name`, over bytes.
/// Name and value are trimmed of surrounding spaces separately, and the
/// value must be well-formed UTF-8 (over the encoding of a character
/// string it always is, since the pairs are cut at ASCII delimiters).
pub open spec fn spec_cookie_value(s: Seq<u8>, name: Seq<u8>) -> Option<Seq<u8>>
    decreases s.len(),
{
    let semi = spec_index_of(s, 59);
    let seg = s.take(semi as int);
    let eq = spec_index_of(seg, 61);
    if eq < seg.len() && spec_trim(seg.take(eq as int)) == name {
        if vstd::utf8::valid_utf8(spec_trim(seg.skip(eq as int + 1))) {
            Some(spec_trim(seg.skip(eq as int + 1)))
        } else {
            None
        }
    } else if semi + 1 <= s.len() {
        spec_cookie_value(s.skip(semi as int + 1), name)
    } else {
        None
    }
}

/// The trimmed sub-range `[a2, b2)` of the range `[a, b)`.
fn trim_range(v: &Vec<u8>, a: usize, b: usize) -> (r: (usize, usize))
    requires
        a <= b <= v@.len(),
    ensures
        a <= r.0 <= r.1 <= b,
        v@.subrange(r.0 as int, r.1 as int) == spec_trim(v@.subrange(a as int, b as int)),
{
    let ghost seg = v@.subrange(a as int, b as int);
    let mut a2: usize = a;
    while a2 < b && v[a2] == 32
        invariant
            a <= a2 <= b <= v@.len(),
            forall|k: int| a <= k < a2 ==> v@[k] == 32,
        decreases b - a2,
    {
        a2 = a2 + 1;
    }
    proof {
        lemma_lead_at(seg, a2 - a);
    }
    if a2 == b {
        proof {
            lemma_trail_le_len(seg.skip((a2 - a) as int));
            assert(seg.skip((a2 - a) as int) =~= Seq::<u8>::empty());
            assert(spec_trim(seg) =~= v@.subrange(b as int, b as int));
        }
        return (b, b);
    }
    let mut b2: usize = b;
    while b2 > a2 && v[b2 - 1] == 32
        invariant
            a2 <= b2 <= b <= v@.len(),
            forall|k: int| b2 <= k < b ==> v@[k] == 32,
        decreases b2,
    {
        b2 = b2 - 1;
    }
    proof {
        let u = seg.skip((a2 - a) as int);
        assert(u.len() == b - a2);
        assert forall|k: int| u.len() - (b - b2) <= k < u.len() implies u[k] == 32 by {
            assert(u[k] == v@[a2 + k]);
        }
        assert(b2 > a2);
        assert(v@[b2 - 1] != 32);
        assert(u[b2 - 1 - a2] == v@[b2 - 1]);
        lemma_trail_at(u, b - b2);
        assert(v@.subrange(a2 as int, b2 as int) =~= u.take(u.len() - spec_trail_spaces(u)));
    }
    (a2, b2)
}

/// The value of the named cookie in a `Cookie:` header line, if any: the
/// first `name=value` pair (separated by `;`, surrounding spaces ignored)
/// whose name matches. The lookup is by bytes of the UTF-8 encodings.
pub fn get_cookie_value(cookies: &str, name: &str) -> (r: Option<String>)
    ensures
        match r {
            Some(v) => spec_cookie_value(cookies.spec_bytes(), name.spec_bytes()) == Some(
                vstd::utf8::encode_utf8(v@),
            ),
            None => spec_cookie_value(cookies.spec_bytes(), name.spec_bytes()) is None,
        },
{
    let cb = cookies.as_bytes_vec();
    let nb = name.as_bytes_vec();
    let clen = cb.len();
    let mut pos: usize = 0;
    proof {
        assert(cb@.skip(0) =~= cb@);
    }
    while pos <= clen
        invariant
            pos <= clen,
            clen == cb@.len(),
            cb@ == cookies.spec_bytes(),
            nb@ == name.spec_bytes(),
            spec_cookie_value(cookies.spec_bytes(), name.spec_bytes()) == spec_cookie_value(
                cb@.skip(pos as int),
                nb@,
            ),
        decreases clen - pos + 1,
    {
        let ghost rest = cb@.skip(pos as int);
        let semi = match find_byte(&cb, pos, 59) {
            Some(j) => j,
            None => clen,
        };
        proof {
            assert forall|k: int| 0 <= k < semi - pos implies rest[k] != 59 by {
                assert(rest[k] == cb@[pos + k]);
            }
            if semi < clen {
                assert(rest[semi - pos] == cb@[semi as int]);
            }
            lemma_index_of_at(rest, 59, semi - pos);
            assert(rest.take((semi - pos) as int) =~= cb@.subrange(pos as int, semi as int));
        }
        let ghost seg = rest.take((semi - pos) as int);
        let eq = match find_byte(&cb, pos, 61) {
            Some(j) => if j < semi {
                j
            } else {
                semi
            },
            None => semi,
        };
        proof {
            assert forall|k: int| 0 <= k < eq - pos implies seg[k] != 61 by {
                assert(seg[k] == cb@[pos + k]);
            }
            if eq < semi {
                assert(seg[eq - pos] == cb@[eq as int]);
            }
            lemma_index_of_at(seg, 61, eq - pos);
        }
        if eq < semi {
            let (na, nb2) = trim_range(&cb, pos, eq);
            proof {
                assert(seg.take((eq - pos) as int) =~= cb@.subrange(pos as int, eq as int));
                assert(spec_trim(seg.take((eq - pos) as int)) == cb@.subrange(
                    na as int,
                    nb2 as int,
                ));
            }
            let nm = copy_range(&cb, na, nb2);
            if bytes_eq(&nm, &nb) {
                let (va, vb) = trim_range(&cb, eq + 1, semi);
                let val = copy_range(&cb, va, vb);
                let ghost gval = val@;
                proof {
                    assert(seg.skip((eq - pos) as int + 1) =~= cb@.subrange(
                        eq as int + 1,
                        semi as int,
                    ));
                    assert(spec_trim(seg.skip((eq - pos) as int + 1)) == cb@.subrange(
                        va as int,
                        vb as int,
                    ));
                }
                match utf8_string(val) {
                    Some(v) => {
                        proof {
                            vstd::utf8::encode_utf8_valid_utf8(v@);
                            assert(vstd::utf8::valid_utf8(gval));
                            assert(spec_cookie_value(rest, nb@) == Some(gval));
                        }
                        return Some(v);
                    },
                    None => {
                        proof {
                            assert(spec_cookie_value(rest, nb@) is None);
                        }
                        return None;
                    },
                }
            }
            proof {
                assert(spec_trim(seg.take((eq - pos) as int)) != nb@);
            }
        }
        if semi == clen {
            proof {
                assert(spec_index_of(rest, 59) + 1 > rest.len());
                assert(spec_cookie_value(rest, nb@) is None);
            }
            return None;
        }
        proof {
            assert(rest.skip((semi - pos) as int + 1) =~= cb@.skip(semi as int + 1));
            assert(spec_cookie_value(rest, nb@) == spec_cookie_value(cb@.skip(semi as int + 1), nb@));
        }
        pos = semi + 1;
    }
    proof {
        assert(cb@.skip(pos as int) =~= Seq::<u8>::empty());
    }
    None
}

} // verus!
