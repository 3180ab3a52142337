//! Unpadded URL-safe base64, the segment encoding of the credential token.
//! Encoding is canonical; decoding accepts exactly the canonical encodings
//! (no padding, trailing bits must be zero), so decode is a two-sided
//! inverse of encode.

use vstd::prelude::*;
use vstd::arithmetic::div_mod::lemma_fundamental_div_mod;
use vstd::arithmetic::div_mod::lemma_fundamental_div_mod_converse;

verus! {

/// The alphabet byte of a sextet value.
pub open spec fn spec_b64_byte(v: int) -> u8 {
    if 0 <= v < 26 {
        (65 + v) as u8  // 'A'..'Z'

    } else if 26 <= v < 52 {
        (97 + (v - 26)) as u8  // 'a'..'z'

    } else if 52 <= v < 62 {
        (48 + (v - 52)) as u8  // '0'..'9'

    } else if v == 62 {
        45u8  // '-'

    } else {
        95u8  // '_'

    }
}

/// The sextet value of an alphabet byte; 64 marks a byte outside the
/// alphabet.
pub open spec fn spec_b64_val(b: u8) -> int {
    if 65 <= b <= 90 {
        b - 65
    } else if 97 <= b <= 122 {
        (b - 97) + 26
    } else if 48 <= b <= 57 {
        (b - 48) + 52
    } else if b == 45 {
        62
    } else if b == 95 {
        63
    } else {
        64
    }
}

/// The two byte-sextet maps invert each other.
pub proof fn lemma_b64_byte_val(v: int)
    requires
        0 <= v < 64,
    ensures
        spec_b64_val(spec_b64_byte(v)) == v,
{
}

/// A byte inside the alphabet is the image of its value.
pub proof fn lemma_b64_val_byte(b: u8)
    requires
        spec_b64_val(b) < 64,
    ensures
        spec_b64_byte(spec_b64_val(b)) == b,
{
}

/// Canonical unpadded URL-safe base64 of a byte string.
pub open spec fn spec_b64_encode(s: Seq<u8>) -> Seq<u8>
    decreases s.len(),
{
    if s.len() == 0 {
        Seq::empty()
    } else if s.len() == 1 {
        let b0 = s[0] as int;
        seq![spec_b64_byte(b0 / 4), spec_b64_byte((b0 % 4) * 16)]
    } else if s.len() == 2 {
        let b0 = s[0] as int;
        let b1 = s[1] as int;
        seq![
            spec_b64_byte(b0 / 4),
            spec_b64_byte((b0 % 4) * 16 + b1 / 16),
            spec_b64_byte((b1 % 16) * 4),
        ]
    } else {
        let b0 = s[0] as int;
        let b1 = s[1] as int;
        let b2 = s[2] as int;
        seq![
            spec_b64_byte(b0 / 4),
            spec_b64_byte((b0 % 4) * 16 + b1 / 16),
            spec_b64_byte((b1 % 16) * 4 + b2 / 64),
            spec_b64_byte(b2 % 64),
        ] + spec_b64_encode(s.skip(3))
    }
}

/// Strict decoding: accepts exactly the canonical encodings.
pub open spec fn spec_b64_decode(s: Seq<u8>) -> Option<Seq<u8>>
    decreases s.len(),
{
    if s.len() == 0 {
        Some(Seq::empty())
    } else if s.len() == 1 {
        None
    } else if s.len() == 2 {
        let v0 = spec_b64_val(s[0]);
        let v1 = spec_b64_val(s[1]);
        if v0 < 64 && v1 < 64 && v1 % 16 == 0 {
            Some(seq![(v0 * 4 + v1 / 16) as u8])
        } else {
            None
        }
    } else if s.len() == 3 {
        let v0 = spec_b64_val(s[0]);
        let v1 = spec_b64_val(s[1]);
        let v2 = spec_b64_val(s[2]);
        if v0 < 64 && v1 < 64 && v2 < 64 && v2 % 4 == 0 {
            Some(seq![(v0 * 4 + v1 / 16) as u8, ((v1 % 16) * 16 + v2 / 4) as u8])
        } else {
            None
        }
    } else {
        let v0 = spec_b64_val(s[0]);
        let v1 = spec_b64_val(s[1]);
        let v2 = spec_b64_val(s[2]);
        let v3 = spec_b64_val(s[3]);
        if v0 < 64 && v1 < 64 && v2 < 64 && v3 < 64 {
            match spec_b64_decode(s.skip(4)) {
                Some(rest) => Some(
                    seq![
                        (v0 * 4 + v1 / 16) as u8,
                        ((v1 % 16) * 16 + v2 / 4) as u8,
                        ((v2 % 4) * 64 + v3) as u8,
                    ] + rest,
                ),
                None => None,
            }
        } else {
            None
        }
    }
}

/// Every byte of an encoding lies inside the alphabet.
pub proof fn lemma_encode_in_alphabet(s: Seq<u8>)
    ensures
        forall|k: int| 0 <= k < spec_b64_encode(s).len() ==> spec_b64_val(
            #[trigger] spec_b64_encode(s)[k],
        ) < 64,
    decreases s.len(),
{
    if s.len() == 0 {
    } else if s.len() == 1 {
        let b0 = s[0] as int;
        lemma_b64_byte_val(b0 / 4);
        lemma_b64_byte_val((b0 % 4) * 16);
    } else if s.len() == 2 {
        let b0 = s[0] as int;
        let b1 = s[1] as int;
        lemma_b64_byte_val(b0 / 4);
        lemma_b64_byte_val((b0 % 4) * 16 + b1 / 16);
        lemma_b64_byte_val((b1 % 16) * 4);
    } else {
        let b0 = s[0] as int;
        let b1 = s[1] as int;
        let b2 = s[2] as int;
        lemma_b64_byte_val(b0 / 4);
        lemma_b64_byte_val((b0 % 4) * 16 + b1 / 16);
        lemma_b64_byte_val((b1 % 16) * 4 + b2 / 64);
        lemma_b64_byte_val(b2 % 64);
        lemma_encode_in_alphabet(s.skip(3));
        let e = spec_b64_encode(s);
        assert forall|k: int| 0 <= k < e.len() implies spec_b64_val(#[trigger] e[k]) < 64 by {
            if k >= 4 {
                assert(e[k] == spec_b64_encode(s.skip(3))[k - 4]);
            }
        }
    }
}

/// Decoding inverts encoding.
pub proof fn lemma_decode_encode(s: Seq<u8>)
    ensures
        spec_b64_decode(spec_b64_encode(s)) == Some(s),
    decreases s.len(),
{
    if s.len() == 0 {
        assert(spec_b64_encode(s) =~= Seq::<u8>::empty());
    } else if s.len() == 1 {
        let b0 = s[0] as int;
        lemma_b64_byte_val(b0 / 4);
        lemma_b64_byte_val((b0 % 4) * 16);
        lemma_fundamental_div_mod_converse((b0 % 4) * 16, 16, b0 % 4, 0);
        lemma_fundamental_div_mod(b0, 4);
        assert(spec_b64_decode(spec_b64_encode(s)) =~= Some(s));
    } else if s.len() == 2 {
        let b0 = s[0] as int;
        let b1 = s[1] as int;
        lemma_b64_byte_val(b0 / 4);
        lemma_b64_byte_val((b0 % 4) * 16 + b1 / 16);
        lemma_b64_byte_val((b1 % 16) * 4);
        lemma_fundamental_div_mod_converse((b0 % 4) * 16 + b1 / 16, 16, b0 % 4, b1 / 16);
        lemma_fundamental_div_mod_converse((b1 % 16) * 4, 4, b1 % 16, 0);
        lemma_fundamental_div_mod(b0, 4);
        lemma_fundamental_div_mod(b1, 16);
        assert(spec_b64_decode(spec_b64_encode(s)) =~= Some(s));
    } else {
        let b0 = s[0] as int;
        let b1 = s[1] as int;
        let b2 = s[2] as int;
        lemma_decode_encode(s.skip(3));
        let e = spec_b64_encode(s);
        let v0 = b0 / 4;
        let v1 = (b0 % 4) * 16 + b1 / 16;
        let v2 = (b1 % 16) * 4 + b2 / 64;
        let v3 = b2 % 64;
        lemma_b64_byte_val(v0);
        lemma_b64_byte_val(v1);
        lemma_b64_byte_val(v2);
        lemma_b64_byte_val(v3);
        assert(e.len() >= 4);
        assert(e.skip(4) =~= spec_b64_encode(s.skip(3)));
        lemma_fundamental_div_mod_converse(v1, 16, b0 % 4, b1 / 16);
        lemma_fundamental_div_mod_converse(v2, 4, b1 % 16, b2 / 64);
        lemma_fundamental_div_mod(b0, 4);
        lemma_fundamental_div_mod(b1, 16);
        lemma_fundamental_div_mod(b2, 64);
        assert(v0 * 4 + v1 / 16 == b0);
        assert((v1 % 16) * 16 + v2 / 4 == b1);
        assert((v2 % 4) * 64 + v3 == b2);
        assert(spec_b64_decode(e) =~= Some(s));
    }
}

/// Only encodings decode: a successful decode pins the input to the
/// canonical encoding of the result.
pub proof fn lemma_encode_decode(s: Seq<u8>)
    requires
        spec_b64_decode(s) is Some,
    ensures
        spec_b64_encode(spec_b64_decode(s)->Some_0) == s,
    decreases s.len(),
{
    if s.len() == 0 {
        assert(spec_b64_encode(Seq::<u8>::empty()) =~= s);
    } else if s.len() == 2 {
        let v0 = spec_b64_val(s[0]);
        let v1 = spec_b64_val(s[1]);
        let b0 = (v0 * 4 + v1 / 16) as u8;
        lemma_fundamental_div_mod_converse(b0 as int, 4, v0, v1 / 16);
        lemma_fundamental_div_mod(v1, 16);
        lemma_b64_val_byte(s[0]);
        lemma_b64_val_byte(s[1]);
        assert(spec_b64_encode(spec_b64_decode(s)->Some_0) =~= s);
    } else if s.len() == 3 {
        let v0 = spec_b64_val(s[0]);
        let v1 = spec_b64_val(s[1]);
        let v2 = spec_b64_val(s[2]);
        let b0 = (v0 * 4 + v1 / 16) as u8;
        let b1 = ((v1 % 16) * 16 + v2 / 4) as u8;
        lemma_fundamental_div_mod_converse(b0 as int, 4, v0, v1 / 16);
        lemma_fundamental_div_mod_converse(b1 as int, 16, v1 % 16, v2 / 4);
        lemma_fundamental_div_mod(v1, 16);
        lemma_fundamental_div_mod(v2, 4);
        lemma_b64_val_byte(s[0]);
        lemma_b64_val_byte(s[1]);
        lemma_b64_val_byte(s[2]);
        assert(spec_b64_encode(spec_b64_decode(s)->Some_0) =~= s);
    } else {
        let v0 = spec_b64_val(s[0]);
        let v1 = spec_b64_val(s[1]);
        let v2 = spec_b64_val(s[2]);
        let v3 = spec_b64_val(s[3]);
        let b0 = (v0 * 4 + v1 / 16) as u8;
        let b1 = ((v1 % 16) * 16 + v2 / 4) as u8;
        let b2 = ((v2 % 4) * 64 + v3) as u8;
        lemma_encode_decode(s.skip(4));
        let rest = spec_b64_decode(s.skip(4))->Some_0;
        let whole = seq![b0, b1, b2] + rest;
        lemma_fundamental_div_mod_converse(b0 as int, 4, v0, v1 / 16);
        lemma_fundamental_div_mod_converse(b1 as int, 16, v1 % 16, v2 / 4);
        lemma_fundamental_div_mod_converse(b2 as int, 64, v2 % 4, v3);
        lemma_fundamental_div_mod(v1, 16);
        lemma_fundamental_div_mod(v2, 4);
        lemma_b64_val_byte(s[0]);
        lemma_b64_val_byte(s[1]);
        lemma_b64_val_byte(s[2]);
        lemma_b64_val_byte(s[3]);
        assert(whole.len() >= 3);
        assert(whole[0] == b0 && whole[1] == b1 && whole[2] == b2);
        assert(whole.skip(3) =~= rest);
        assert(spec_b64_encode(whole) =~= s);
    }
}

/// The alphabet byte of a sextet.
fn b64_byte(v: u8) -> (r: u8)
    requires
        v < 64,
    ensures
        r == spec_b64_byte(v as int),
{
    if v < 26 {
        65 + v
    } else if v < 52 {
        97 + (v - 26)
    } else if v < 62 {
        48 + (v - 52)
    } else if v == 62 {
        45
    } else {
        95
    }
}

/// The sextet of an alphabet byte; 64 for a byte outside the alphabet.
fn b64_val(b: u8) -> (r: u8)
    ensures
        r as int == spec_b64_val(b),
{
    if 65 <= b && b <= 90 {
        b - 65
    } else if 97 <= b && b <= 122 {
        (b - 97) + 26
    } else if 48 <= b && b <= 57 {
        (b - 48) + 52
    } else if b == 45 {
        62
    } else if b == 95 {
        63
    } else {
        64
    }
}

/// Canonical unpadded URL-safe base64 encoding.
pub fn b64_encode(s: &Vec<u8>) -> (r: Vec<u8>)
    ensures
        r@ == spec_b64_encode(s@),
{
    let mut out: Vec<u8> = Vec::new();
    let mut i: usize = 0;
    proof {
        assert(s@.skip(0) =~= s@);
    }
    while s.len() - i >= 3
        invariant
            i <= s@.len(),
            spec_b64_encode(s@) == out@ + spec_b64_encode(s@.skip(i as int)),
        decreases s@.len() - i,
    {
        let b0 = s[i];
        let b1 = s[i + 1];
        let b2 = s[i + 2];
        proof {
            assert(s@.skip(i as int)[0] == b0);
            assert(s@.skip(i as int)[1] == b1);
            assert(s@.skip(i as int)[2] == b2);
            assert(s@.skip(i as int).skip(3) =~= s@.skip(i + 3));
        }
        out.push(b64_byte(b0 / 4));
        out.push(b64_byte((b0 % 4) * 16 + b1 / 16));
        out.push(b64_byte((b1 % 16) * 4 + b2 / 64));
        out.push(b64_byte(b2 % 64));
        i = i + 3;
        proof {
            assert(spec_b64_encode(s@) =~= out@ + spec_b64_encode(s@.skip(i as int)));
        }
    }
    if s.len() - i == 1 {
        let b0 = s[i];
        proof {
            assert(s@.skip(i as int)[0] == b0);
        }
        out.push(b64_byte(b0 / 4));
        out.push(b64_byte((b0 % 4) * 16));
        proof {
            assert(spec_b64_encode(s@) =~= out@);
        }
    } else if s.len() - i == 2 {
        let b0 = s[i];
        let b1 = s[i + 1];
        proof {
            assert(s@.skip(i as int)[0] == b0);
            assert(s@.skip(i as int)[1] == b1);
        }
        out.push(b64_byte(b0 / 4));
        out.push(b64_byte((b0 % 4) * 16 + b1 / 16));
        out.push(b64_byte((b1 % 16) * 4));
        proof {
            assert(spec_b64_encode(s@) =~= out@);
        }
    } else {
        proof {
            assert(s@.skip(i as int) =~= Seq::<u8>::empty());
            assert(spec_b64_encode(s@) =~= out@);
        }
    }
    out
}

/// Prepends decoded bytes to an optional suffix decoding.
pub open spec fn spec_opt_prepend(pre: Seq<u8>, o: Option<Seq<u8>>) -> Option<Seq<u8>> {
    match o {
        Some(rest) => Some(pre + rest),
        None => None,
    }
}

/// Strict decoding of canonical unpadded URL-safe base64; `None` for
/// anything that `b64_encode` cannot have produced.
pub fn b64_decode(s: &Vec<u8>) -> (r: Option<Vec<u8>>)
    ensures
        match r {
            Some(b) => spec_b64_decode(s@) == Some(b@),
            None => spec_b64_decode(s@) == None::<Seq<u8>>,
        },
{
    let mut out: Vec<u8> = Vec::new();
    let mut i: usize = 0;
    proof {
        assert(s@.skip(0) =~= s@);
        assert(spec_opt_prepend(Seq::<u8>::empty(), spec_b64_decode(s@)) == spec_b64_decode(s@));
    }
    while s.len() - i >= 4
        invariant
            i <= s@.len(),
            spec_b64_decode(s@) == spec_opt_prepend(out@, spec_b64_decode(s@.skip(i as int))),
        decreases s@.len() - i,
    {
        let v0 = b64_val(s[i]);
        let v1 = b64_val(s[i + 1]);
        let v2 = b64_val(s[i + 2]);
        let v3 = b64_val(s[i + 3]);
        proof {
            assert(s@.skip(i as int)[0] == s@[i as int]);
            assert(s@.skip(i as int)[1] == s@[i as int + 1]);
            assert(s@.skip(i as int)[2] == s@[i as int + 2]);
            assert(s@.skip(i as int)[3] == s@[i as int + 3]);
            assert(s@.skip(i as int).skip(4) =~= s@.skip(i + 4));
        }
        if v0 >= 64 || v1 >= 64 || v2 >= 64 || v3 >= 64 {
            return None;
        }
        out.push(v0 * 4 + v1 / 16);
        out.push((v1 % 16) * 16 + v2 / 4);
        out.push((v2 % 4) * 64 + v3);
        i = i + 4;
        proof {
            assert(spec_b64_decode(s@) == spec_opt_prepend(
                out@,
                spec_b64_decode(s@.skip(i as int)),
            ));
        }
    }
    if s.len() - i == 1 {
        return None;
    } else if s.len() - i == 2 {
        let v0 = b64_val(s[i]);
        let v1 = b64_val(s[i + 1]);
        proof {
            assert(s@.skip(i as int)[0] == s@[i as int]);
            assert(s@.skip(i as int)[1] == s@[i as int + 1]);
        }
        if v0 >= 64 || v1 >= 64 || v1 % 16 != 0 {
            return None;
        }
        out.push(v0 * 4 + v1 / 16);
    } else if s.len() - i == 3 {
        let v0 = b64_val(s[i]);
        let v1 = b64_val(s[i + 1]);
        let v2 = b64_val(s[i + 2]);
        proof {
            assert(s@.skip(i as int)[0] == s@[i as int]);
            assert(s@.skip(i as int)[1] == s@[i as int + 1]);
            assert(s@.skip(i as int)[2] == s@[i as int + 2]);
        }
        if v0 >= 64 || v1 >= 64 || v2 >= 64 || v2 % 4 != 0 {
            return None;
        }
        out.push(v0 * 4 + v1 / 16);
        out.push((v1 % 16) * 16 + v2 / 4);
    } else {
        proof {
            assert(s@.skip(i as int) =~= Seq::<u8>::empty());
        }
    }
    Some(out)
}

} // verus!
