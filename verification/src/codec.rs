//! The credential codec: claims, their canonical JSON payload, and the
//! compact signed token built from it. Issuing is exact (the token of given
//! claims is a function of the secret and the claims alone); verification
//! accepts exactly the issued tokens that are still live.

use vstd::prelude::*;
use crate::base64url::b64_decode;
use crate::base64url::b64_encode;
use crate::base64url::lemma_decode_encode;
use crate::base64url::lemma_encode_decode;
use crate::base64url::lemma_encode_in_alphabet;
use crate::base64url::spec_b64_encode;
use crate::base64url::spec_b64_val;
use crate::bytesutil::bytes_eq;
use crate::bytesutil::copy_range;
use crate::bytesutil::find_byte;
use crate::bytesutil::ascii_string;
use crate::bytesutil::lemma_ascii_chars_injective;
use crate::bytesutil::push_all;
use crate::bytesutil::spec_all_ascii;
use crate::bytesutil::spec_ascii_chars;
use crate::numdec::lemma_dec_digits_are_digits;
use crate::numdec::lemma_scan_dec_digits;
use crate::numdec::push_dec_i64;
use crate::numdec::scan_u64;
use crate::numdec::spec_dec_digits;
use crate::numdec::spec_int_digits;
use crate::numdec::spec_is_digit;
use crate::numdec::spec_scan_u64;

verus! {

/// A moment in time: seconds since the Unix epoch, plus a sub-second
/// remainder in nanoseconds. The codec keeps whole seconds only.
#[derive(Clone, Copy, Debug, PartialEq, Eq, Structural)]
pub struct UnixTime {
    pub secs: i64,
    pub nanos: u32,
}

/// The signed payload: the identity, when it was issued and when it lapses,
/// both in whole Unix seconds.
#[derive(Clone, Copy, Debug, PartialEq, Eq, Structural)]
pub struct Claims {
    pub user_id: i32,
    pub iat: i64,
    pub exp: i64,
}

impl Claims {
    /// Claims must round-trip through the token exactly, and the payload
    /// carries whole seconds only; construction therefore normalizes both
    /// timestamps by dropping any sub-second remainder.
    pub fn new(user_id: i32, iat: UnixTime, exp: UnixTime) -> (r: Claims)
        ensures
            r == (Claims { user_id, iat: iat.secs, exp: exp.secs }),
    {
        Claims { user_id, iat: iat.secs, exp: exp.secs }
    }

    /// A well-formed validity window: never issued after it lapses.
    pub open spec fn wf(&self) -> bool {
        self.iat <= self.exp
    }
}

/// The bytes of `{"user_id":`.
pub open spec fn spec_lit_user_id() -> Seq<u8> {
    seq![123u8, 34, 117, 115, 101, 114, 95, 105, 100, 34, 58]
}

/// The bytes of `,"iat":`.
pub open spec fn spec_lit_iat() -> Seq<u8> {
    seq![44u8, 34, 105, 97, 116, 34, 58]
}

/// The bytes of `,"exp":`.
pub open spec fn spec_lit_exp() -> Seq<u8> {
    seq![44u8, 34, 101, 120, 112, 34, 58]
}

/// The canonical JSON payload of the claims.
pub open spec fn spec_claims_json(c: Claims) -> Seq<u8> {
    spec_lit_user_id() + spec_int_digits(c.user_id as int) + spec_lit_iat() + spec_int_digits(
        c.iat as int,
    ) + spec_lit_exp() + spec_int_digits(c.exp as int) + seq![125u8]
}

/// Appends the bytes of `{"user_id":`.
fn push_lit_user_id(out: &mut Vec<u8>)
    ensures
        final(out)@ == old(out)@ + spec_lit_user_id(),
{
    out.push(123);
    out.push(34);
    out.push(117);
    out.push(115);
    out.push(101);
    out.push(114);
    out.push(95);
    out.push(105);
    out.push(100);
    out.push(34);
    out.push(58);
    proof {
        assert(out@ =~= old(out)@ + spec_lit_user_id());
    }
}

/// Appends the bytes of `,"iat":`.
fn push_lit_iat(out: &mut Vec<u8>)
    ensures
        final(out)@ == old(out)@ + spec_lit_iat(),
{
    out.push(44);
    out.push(34);
    out.push(105);
    out.push(97);
    out.push(116);
    out.push(34);
    out.push(58);
    proof {
        assert(out@ =~= old(out)@ + spec_lit_iat());
    }
}

/// Appends the bytes of `,"exp":`.
fn push_lit_exp(out: &mut Vec<u8>)
    ensures
        final(out)@ == old(out)@ + spec_lit_exp(),
{
    out.push(44);
    out.push(34);
    out.push(101);
    out.push(120);
    out.push(112);
    out.push(34);
    out.push(58);
    proof {
        assert(out@ =~= old(out)@ + spec_lit_exp());
    }
}

/// The canonical JSON payload of the claims.
pub fn claims_json(c: &Claims) -> (r: Vec<u8>)
    ensures
        r@ == spec_claims_json(*c),
{
    let mut out: Vec<u8> = Vec::new();
    push_lit_user_id(&mut out);
    push_dec_i64(&mut out, c.user_id as i64);
    push_lit_iat(&mut out);
    push_dec_i64(&mut out, c.iat);
    push_lit_exp(&mut out);
    push_dec_i64(&mut out, c.exp);
    out.push(125);
    proof {
        assert(out@ =~= spec_claims_json(*c));
    }
    out
}

/// Position just past `lit` when it occurs at `i`, else nothing.
pub open spec fn spec_expect(s: Seq<u8>, i: int, lit: Seq<u8>) -> Option<int> {
    if 0 <= i && i + lit.len() <= s.len() && s.subrange(i, i + lit.len() as int) == lit {
        Some(i + lit.len() as int)
    } else {
        None
    }
}

/// A signed decimal number read at `i`: an optional `-`, then digits,
/// valued within `i64`.
pub open spec fn spec_parse_i64(s: Seq<u8>, i: int) -> Option<(i64, int)> {
    if 0 <= i < s.len() && s[i] == 45 {
        match spec_scan_u64(s, i + 1, 0) {
            Some((n, j)) => if j == i + 1 {
                None
            } else if n == 9223372036854775808u64 {
                Some((i64::MIN, j))
            } else if n <= i64::MAX as u64 {
                Some(((0 - n as int) as i64, j))
            } else {
                None
            },
            None => None,
        }
    } else {
        match spec_scan_u64(s, i, 0) {
            Some((n, j)) => if j == i {
                None
            } else if n <= i64::MAX as u64 {
                Some((n as i64, j))
            } else {
                None
            },
            None => None,
        }
    }
}

/// The strict payload grammar: the three fields in order, nothing else.
pub open spec fn spec_parse_claims(p: Seq<u8>) -> Option<Claims> {
    match spec_expect(p, 0, spec_lit_user_id()) {
        Some(i1) => match spec_parse_i64(p, i1) {
            Some((uid, i2)) => if i32::MIN <= uid <= i32::MAX {
                match spec_expect(p, i2, spec_lit_iat()) {
                    Some(i3) => match spec_parse_i64(p, i3) {
                        Some((iat, i4)) => match spec_expect(p, i4, spec_lit_exp()) {
                            Some(i5) => match spec_parse_i64(p, i5) {
                                Some((exp, i6)) => if i6 + 1 == p.len() && p[i6] == 125 {
                                    Some(Claims { user_id: uid as i32, iat, exp })
                                } else {
                                    None
                                },
                                None => None,
                            },
                            None => None,
                        },
                        None => None,
                    },
                    None => None,
                }
            } else {
                None
            },
            None => None,
        },
        None => None,
    }
}

/// Reading a rendered number back: where the canonical form of `v` sits at
/// `i` and is bounded by a non-digit, the number parser returns exactly `v`.
pub proof fn lemma_parse_i64_int_digits(s: Seq<u8>, i: int, v: i64)
    requires
        0 <= i,
        i + spec_int_digits(v as int).len() <= s.len(),
        s.subrange(i, i + spec_int_digits(v as int).len() as int) == spec_int_digits(v as int),
        i + spec_int_digits(v as int).len() == s.len() || !spec_is_digit(
            s[i + spec_int_digits(v as int).len()],
        ),
    ensures
        spec_parse_i64(s, i) == Some((v, i + spec_int_digits(v as int).len() as int)),
{
    let digits = spec_int_digits(v as int);
    let ll = digits.len() as int;
    if v < 0 {
        let magu: u64 = if v == i64::MIN {
            9223372036854775808u64
        } else {
            (0 - v as int) as u64
        };
        lemma_dec_digits_are_digits(magu as nat);
        assert(digits == seq![45u8] + spec_dec_digits(magu as nat));
        assert(s[i] == digits[0]);
        assert(digits[0] == 45);
        let dl = spec_dec_digits(magu as nat).len() as int;
        assert(s.subrange(i + 1, i + 1 + dl) =~= spec_dec_digits(magu as nat)) by {
            assert forall|k: int| 0 <= k < dl implies s.subrange(i + 1, i + 1 + dl)[k]
                == spec_dec_digits(magu as nat)[k] by {
                assert(s.subrange(i + 1, i + 1 + dl)[k] == s[i + 1 + k]);
                assert(s[i + 1 + k] == s.subrange(i, i + ll)[1 + k]);
                assert(digits[1 + k] == spec_dec_digits(magu as nat)[k]);
            }
        }
        lemma_scan_dec_digits(s, i + 1, magu);
    } else {
        let magu: u64 = v as u64;
        lemma_dec_digits_are_digits(magu as nat);
        assert(digits == spec_dec_digits(magu as nat));
        assert(s[i] == digits[0]);
        assert(spec_is_digit(s[i]));
        assert(s[i] != 45);
        lemma_scan_dec_digits(s, i, magu);
    }
}

/// Parsing inverts rendering: the canonical payload of `c` parses to `c`.
pub proof fn lemma_parse_claims_json(c: Claims)
    ensures
        spec_parse_claims(spec_claims_json(c)) == Some(c),
{
    let p = spec_claims_json(c);
    let d1 = spec_int_digits(c.user_id as int);
    let d2 = spec_int_digits(c.iat as int);
    let d3 = spec_int_digits(c.exp as int);
    let l0 = spec_lit_user_id().len() as int;
    let i1 = l0;
    let i2 = i1 + d1.len() as int;
    let i3 = i2 + spec_lit_iat().len() as int;
    let i4 = i3 + d2.len() as int;
    let i5 = i4 + spec_lit_exp().len() as int;
    let i6 = i5 + d3.len() as int;
    assert(p.len() == i6 + 1);
    assert(p.subrange(0, i1) =~= spec_lit_user_id());
    assert(p.subrange(i1, i2) =~= d1);
    assert(p.subrange(i2, i3) =~= spec_lit_iat());
    assert(p.subrange(i3, i4) =~= d2);
    assert(p.subrange(i4, i5) =~= spec_lit_exp());
    assert(p.subrange(i5, i6) =~= d3);
    assert(p[i6] == 125);
    assert(p[i2] == 44);
    assert(p[i4] == 44);
    lemma_parse_i64_int_digits(p, i1, c.user_id as i64);
    lemma_parse_i64_int_digits(p, i3, c.iat);
    lemma_parse_i64_int_digits(p, i5, c.exp);
    assert(spec_expect(p, 0, spec_lit_user_id()) == Some(i1));
    assert(spec_expect(p, i2, spec_lit_iat()) == Some(i3));
    assert(spec_expect(p, i4, spec_lit_exp()) == Some(i5));
}

/// Position just past `lit` when it occurs at `i`, else nothing.
fn expect_lit(p: &Vec<u8>, i: usize, lit: &Vec<u8>) -> (r: Option<usize>)
    ensures
        match r {
            Some(j) => spec_expect(p@, i as int, lit@) == Some(j as int) && j <= p@.len(),
            None => spec_expect(p@, i as int, lit@) == None::<int>,
        },
{
    if i > p.len() || p.len() - i < lit.len() {
        return None;
    }
    let plen = p.len();
    let mut k: usize = 0;
    while k < lit.len()
        invariant
            plen == p@.len(),
            i + lit@.len() <= p@.len(),
            k <= lit@.len(),
            forall|t: int| 0 <= t < k ==> p@[i + t] == lit@[t],
        decreases lit@.len() - k,
    {
        if p[i + k] != lit[k] {
            proof {
                assert(p@.subrange(i as int, i + lit@.len() as int)[k as int] != lit@[k as int]);
            }
            return None;
        }
        k = k + 1;
    }
    proof {
        assert(p@.subrange(i as int, i + lit@.len() as int) =~= lit@);
    }
    Some(i + lit.len())
}

/// A signed decimal number read at `i`, mirroring `spec_parse_i64`.
pub(crate) fn parse_i64_at(p: &Vec<u8>, i: usize) -> (r: Option<(i64, usize)>)
    requires
        i <= p@.len(),
    ensures
        match r {
            Some(v) => spec_parse_i64(p@, i as int) == Some((v.0, v.1 as int)) && i < v.1
                <= p@.len(),
            None => spec_parse_i64(p@, i as int) == None::<(i64, int)>,
        },
{
    if i < p.len() && p[i] == 45 {
        match scan_u64(p, i + 1) {
            Some((n, j)) => {
                if n == 9223372036854775808u64 {
                    Some((i64::MIN, j))
                } else if n <= 9223372036854775807u64 {
                    Some((-(n as i64), j))
                } else {
                    None
                }
            },
            None => None,
        }
    } else {
        match scan_u64(p, i) {
            Some((n, j)) => {
                if n <= 9223372036854775807u64 {
                    Some((n as i64, j))
                } else {
                    None
                }
            },
            None => None,
        }
    }
}

/// The strict payload parser. A parse that succeeds pins the payload to the
/// canonical JSON of the result, and every canonical payload parses back to
/// its claims.
pub fn parse_claims(p: &Vec<u8>) -> (r: Option<Claims>)
    ensures
        (r matches Some(c) ==> p@ == spec_claims_json(c)),
        forall|c: Claims| p@ == spec_claims_json(c) ==> r == Some(c),
{
    let cand = parse_claims_raw(p);
    let res: Option<Claims> = match cand {
        None => None,
        Some(c) => {
            let ej = claims_json(&c);
            if bytes_eq(&ej, p) {
                Some(c)
            } else {
                None
            }
        },
    };
    proof {
        assert forall|c: Claims| p@ == spec_claims_json(c) implies res == Some(c) by {
            lemma_parse_claims_json(c);
        }
    }
    res
}

/// The payload grammar, mirrored in executable form.
fn parse_claims_raw(p: &Vec<u8>) -> (r: Option<Claims>)
    ensures
        r == spec_parse_claims(p@),
{
    let lit_uid = {
        let mut v: Vec<u8> = Vec::new();
        push_lit_user_id(&mut v);
        v
    };
    let i1 = match expect_lit(p, 0, &lit_uid) {
        Some(j) => j,
        None => {
            return None;
        },
    };
    let (uid, i2) = match parse_i64_at(p, i1) {
        Some(v) => v,
        None => {
            return None;
        },
    };
    if uid < -2147483648i64 || uid > 2147483647i64 {
        return None;
    }
    let lit_iat = {
        let mut v: Vec<u8> = Vec::new();
        push_lit_iat(&mut v);
        v
    };
    let i3 = match expect_lit(p, i2, &lit_iat) {
        Some(j) => j,
        None => {
            return None;
        },
    };
    let (iat, i4) = match parse_i64_at(p, i3) {
        Some(v) => v,
        None => {
            return None;
        },
    };
    let lit_exp = {
        let mut v: Vec<u8> = Vec::new();
        push_lit_exp(&mut v);
        v
    };
    let i5 = match expect_lit(p, i4, &lit_exp) {
        Some(j) => j,
        None => {
            return None;
        },
    };
    let (exp, i6) = match parse_i64_at(p, i5) {
        Some(v) => v,
        None => {
            return None;
        },
    };
    if i6 < p.len() && p.len() - i6 == 1 && p[i6] == 125 {
        Some(Claims { user_id: uid as i32, iat, exp })
    } else {
        None
    }
}

/// The bytes of `{"alg":"HS256","typ":"JWT"}`, the one header this codec
/// issues and accepts.
pub open spec fn spec_header_json() -> Seq<u8> {
    seq![
        123u8, 34, 97, 108, 103, 34, 58, 34, 72, 83, 50, 53, 54, 34, 44, 34, 116, 121, 112, 34,
        58, 34, 74, 87, 84, 34, 125,
    ]
}

/// The encoded header segment.
pub open spec fn spec_header_b64() -> Seq<u8> {
    spec_b64_encode(spec_header_json())
}

/// Appends the bytes of `{"alg":"HS256","typ":"JWT"}`.
fn push_header_json(out: &mut Vec<u8>)
    ensures
        final(out)@ == old(out)@ + spec_header_json(),
{
    out.push(123);
    out.push(34);
    out.push(97);
    out.push(108);
    out.push(103);
    out.push(34);
    out.push(58);
    out.push(34);
    out.push(72);
    out.push(83);
    out.push(50);
    out.push(53);
    out.push(54);
    out.push(34);
    out.push(44);
    out.push(34);
    out.push(116);
    out.push(121);
    out.push(112);
    out.push(34);
    out.push(58);
    out.push(34);
    out.push(74);
    out.push(87);
    out.push(84);
    out.push(34);
    out.push(125);
    proof {
        assert(out@ =~= old(out)@ + spec_header_json());
    }
}

/// The encoded header segment.
fn header_b64() -> (r: Vec<u8>)
    ensures
        r@ == spec_header_b64(),
{
    let mut hj: Vec<u8> = Vec::new();
    push_header_json(&mut hj);
    b64_encode(&hj)
}

/// The HMAC-SHA-256 tag of `msg` under `secret`: a fixed function of the
/// two arguments, computed by the signing library.
pub uninterp spec fn spec_hs256_tag(secret: Seq<u8>, msg: Seq<u8>) -> Seq<u8>;

/// Relies on jsonwebtoken::crypto::sign with Algorithm::HS256: for a key
/// built by EncodingKey::from_secret, HMAC signing accepts every key length
/// and cannot fail, and the result is the unpadded URL-safe base64 of the
/// HMAC-SHA-256 tag of the message (base64 crate, URL_SAFE_NO_PAD engine,
/// whose encoding is the canonical one `spec_b64_encode` describes).
#[verifier::external_body]
fn hs256_sign(secret: &Vec<u8>, msg: &Vec<u8>) -> (r: Vec<u8>)
    ensures
        r@ == spec_b64_encode(spec_hs256_tag(secret@, msg@)),
{
    let key = jsonwebtoken::EncodingKey::from_secret(secret.as_slice());
    let sig = jsonwebtoken::crypto::sign(msg.as_slice(), &key, jsonwebtoken::Algorithm::HS256)
        .expect("HMAC signing with a secret key cannot fail");
    sig.into_bytes()
}

/// Relies on jsonwebtoken::crypto::verify with Algorithm::HS256: it decodes
/// the signature with the strict URL_SAFE_NO_PAD engine (no padding, no
/// stray trailing bits, so exactly the canonical encodings decode) and
/// compares the decoded bytes against the freshly computed HMAC-SHA-256 tag
/// of the message; a signature that is not valid base64 (or not UTF-8)
/// compares unequal.
#[verifier::external_body]
fn hs256_verify(secret: &Vec<u8>, msg: &Vec<u8>, sig: &Vec<u8>) -> (r: bool)
    ensures
        r == (sig@ == spec_b64_encode(spec_hs256_tag(secret@, msg@))),
{
    let key = jsonwebtoken::DecodingKey::from_secret(secret.as_slice());
    match std::str::from_utf8(sig.as_slice()) {
        Ok(s) => jsonwebtoken::crypto::verify(
            s,
            msg.as_slice(),
            &key,
            jsonwebtoken::Algorithm::HS256,
        ).unwrap_or(false),
        Err(_) => false,
    }
}

/// The signing secret, loaded once at startup. Both the signing and the
/// verifying side of the codec derive their keys from it.
pub struct Keys {
    secret: Vec<u8>,
}

impl Keys {
    /// The secret these keys were built from.
    pub closed spec fn spec_secret(&self) -> Seq<u8> {
        self.secret@
    }

    /// Keys derived from a shared secret.
    pub fn new(secret: &[u8]) -> (r: Keys)
        ensures
            r.spec_secret() == secret@,
    {
        Keys { secret: vstd::slice::slice_to_vec(secret) }
    }
}

/// What the signature signs: encoded header, a dot, encoded payload.
pub open spec fn spec_signing_input(c: Claims) -> Seq<u8> {
    spec_header_b64() + seq![46u8] + spec_b64_encode(spec_claims_json(c))
}

/// The complete token: signing input, a dot, the encoded signature.
pub open spec fn spec_token_bytes(secret: Seq<u8>, c: Claims) -> Seq<u8> {
    spec_signing_input(c) + seq![46u8] + spec_b64_encode(
        spec_hs256_tag(secret, spec_signing_input(c)),
    )
}

/// The token as a character string.
pub open spec fn spec_token_chars(secret: Seq<u8>, c: Claims) -> Seq<char> {
    spec_ascii_chars(spec_token_bytes(secret, c))
}

/// An encoded segment is ASCII throughout.
pub proof fn lemma_b64_ascii(s: Seq<u8>)
    ensures
        forall|k: int| 0 <= k < spec_b64_encode(s).len() ==> #[trigger] spec_b64_encode(s)[k]
            < 128,
{
    lemma_encode_in_alphabet(s);
    assert forall|k: int| 0 <= k < spec_b64_encode(s).len() implies #[trigger] spec_b64_encode(
        s,
    )[k] < 128 by {
        assert(spec_b64_val(spec_b64_encode(s)[k]) < 64);
    }
}

/// A token is ASCII throughout, and so is its character view.
pub proof fn lemma_token_ascii(secret: Seq<u8>, c: Claims)
    ensures
        spec_all_ascii(spec_token_bytes(secret, c)),
        vstd::utf8::is_ascii_chars(spec_token_chars(secret, c)),
{
    let t = spec_token_bytes(secret, c);
    lemma_b64_ascii(spec_header_json());
    lemma_b64_ascii(spec_claims_json(c));
    lemma_b64_ascii(spec_hs256_tag(secret, spec_signing_input(c)));
    assert(spec_all_ascii(t));
    assert forall|i: int| 0 <= i < spec_token_chars(secret, c).len() implies '\0'
        <= #[trigger] spec_token_chars(secret, c)[i] <= '\u{7f}' by {
        assert(spec_token_chars(secret, c)[i] == t[i] as char);
        assert(t[i] < 128);
        assert((t[i] as char) as u32 == t[i] as u32);
    }
}

/// Where each segment of a token sits, and that the two dots of a token
/// are exactly the two separators.
pub proof fn lemma_token_structure(secret: Seq<u8>, c: Claims)
    ensures
        ({
            let t = spec_token_bytes(secret, c);
            let h = spec_header_b64();
            let p = spec_b64_encode(spec_claims_json(c));
            let s = spec_b64_encode(spec_hs256_tag(secret, spec_signing_input(c)));
            let d1 = h.len() as int;
            let d2 = h.len() + 1 + p.len() as int;
            &&& t.len() == d2 + 1 + s.len()
            &&& t.subrange(0, d1) == h
            &&& t[d1] == 46
            &&& t.subrange(d1 + 1, d2) == p
            &&& t[d2] == 46
            &&& t.subrange(d2 + 1, t.len() as int) == s
            &&& t.subrange(0, d2) == spec_signing_input(c)
            &&& forall|k: int| 0 <= k < d1 ==> t[k] != 46
            &&& forall|k: int| d1 < k < d2 ==> t[k] != 46
        }),
{
    let t = spec_token_bytes(secret, c);
    let h = spec_header_b64();
    let p = spec_b64_encode(spec_claims_json(c));
    let s = spec_b64_encode(spec_hs256_tag(secret, spec_signing_input(c)));
    let d1 = h.len() as int;
    let d2 = h.len() + 1 + p.len() as int;
    lemma_encode_in_alphabet(spec_header_json());
    lemma_encode_in_alphabet(spec_claims_json(c));
    assert(t.subrange(0, d1) =~= h);
    assert(t.subrange(d1 + 1, d2) =~= p);
    assert(t.subrange(d2 + 1, t.len() as int) =~= s);
    assert(t.subrange(0, d2) =~= spec_signing_input(c));
    assert forall|k: int| 0 <= k < d1 implies t[k] != 46 by {
        assert(t[k] == h[k]);
        assert(spec_b64_val(h[k]) < 64);
    }
    assert forall|k: int| d1 < k < d2 implies t[k] != 46 by {
        assert(t[k] == p[k - d1 - 1]);
        assert(spec_b64_val(p[k - d1 - 1]) < 64);
    }
}

/// The token bytes for the given claims under the given keys.
fn token_bytes_for(keys: &Keys, c: &Claims) -> (r: Vec<u8>)
    ensures
        r@ == spec_token_bytes(keys.spec_secret(), *c),
{
    let pj = claims_json(c);
    let pb = b64_encode(&pj);
    let mut msg = header_b64();
    msg.push(46);
    push_all(&mut msg, &pb);
    proof {
        assert(msg@ =~= spec_signing_input(*c));
    }
    let sig = hs256_sign(&keys.secret, &msg);
    let mut tok = msg;
    tok.push(46);
    push_all(&mut tok, &sig);
    proof {
        assert(tok@ =~= spec_token_bytes(keys.spec_secret(), *c));
    }
    tok
}

/// How long a freshly issued credential lives, in seconds: one day.
pub const TOKEN_LIFETIME_SECS: i64 = 86400;

/// The claims a token issued at `now` carries: the identity, the issue
/// second, and an expiry one fixed lifetime later.
pub open spec fn spec_issued_claims(user_id: i32, now: UnixTime) -> Claims {
    Claims { user_id, iat: now.secs, exp: (now.secs + TOKEN_LIFETIME_SECS) as i64 }
}

/// Issues a signed credential for `user_id` at time `now`: claims are
/// normalized to whole seconds, the expiry sits one fixed lifetime after
/// the issue time, and the token is exactly the canonical token of those
/// claims under the configured secret.
pub fn jwt_encode(keys: &Keys, user_id: i32, now: UnixTime) -> (token: String)
    requires
        now.secs + TOKEN_LIFETIME_SECS <= i64::MAX,
    ensures
        token@ == spec_token_chars(keys.spec_secret(), spec_issued_claims(user_id, now)),
{
    let exp = UnixTime { secs: now.secs + TOKEN_LIFETIME_SECS, nanos: now.nanos };
    let c = Claims::new(user_id, now, exp);
    let tb = token_bytes_for(keys, &c);
    proof {
        lemma_token_ascii(keys.spec_secret(), c);
    }
    ascii_string(tb)
}

/// Why a presented credential was rejected. The distinction is for the
/// log; guards collapse both cases into one outward answer.
#[derive(Clone, Copy, Debug, PartialEq, Eq, Structural)]
pub enum VerifyError {
    /// Not a token this codec issued under this secret: wrong shape, wrong
    /// header, unparsable payload, or a signature that does not match.
    Invalid,
    /// A genuine token whose expiry has passed.
    Expired,
}

/// Takes a token apart and checks its signature; yields the claims exactly
/// when the bytes are the canonical signed token of those claims.
#[verifier::rlimit(100)]
fn strip_token(keys: &Keys, b: &Vec<u8>) -> (r: Option<Claims>)
    ensures
        (r matches Some(c) ==> b@ == spec_token_bytes(keys.spec_secret(), c)),
        forall|c0: Claims| b@ == spec_token_bytes(keys.spec_secret(), c0) ==> r == Some(c0),
{
    let ghost secret = keys.spec_secret();
    let blen = b.len();
    let hb = header_b64();
    let d1 = match find_byte(b, 0, 46) {
        Some(j) => j,
        None => {
            proof {
                assert forall|c0: Claims| b@ == spec_token_bytes(secret, c0) implies false by {
                    lemma_token_structure(secret, c0);
                }
            }
            return None;
        },
    };
    let head = copy_range(b, 0, d1);
    if !bytes_eq(&head, &hb) {
        proof {
            assert forall|c0: Claims| b@ == spec_token_bytes(secret, c0) implies false by {
                lemma_token_structure(secret, c0);
                assert(d1 == spec_header_b64().len());
                assert(head@ =~= spec_header_b64());
            }
        }
        return None;
    }
    let d2 = match find_byte(b, d1 + 1, 46) {
        Some(j) => j,
        None => {
            proof {
                assert forall|c0: Claims| b@ == spec_token_bytes(secret, c0) implies false by {
                    lemma_token_structure(secret, c0);
                }
            }
            return None;
        },
    };
    let pseg = copy_range(b, d1 + 1, d2);
    let pj = match b64_decode(&pseg) {
        Some(v) => v,
        None => {
            proof {
                assert forall|c0: Claims| b@ == spec_token_bytes(secret, c0) implies false by {
                    lemma_token_structure(secret, c0);
                    assert(d2 == spec_header_b64().len() + 1 + spec_b64_encode(
                        spec_claims_json(c0),
                    ).len());
                    assert(pseg@ =~= spec_b64_encode(spec_claims_json(c0)));
                    lemma_decode_encode(spec_claims_json(c0));
                }
            }
            return None;
        },
    };
    let c = match parse_claims(&pj) {
        Some(c) => c,
        None => {
            proof {
                assert forall|c0: Claims| b@ == spec_token_bytes(secret, c0) implies false by {
                    lemma_token_structure(secret, c0);
                    assert(pseg@ =~= spec_b64_encode(spec_claims_json(c0)));
                    lemma_decode_encode(spec_claims_json(c0));
                    assert(pj@ == spec_claims_json(c0));
                }
            }
            return None;
        },
    };
    let msg = copy_range(b, 0, d2);
    let sig = copy_range(b, d2 + 1, b.len());
    if !hs256_verify(&keys.secret, &msg, &sig) {
        proof {
            assert forall|c0: Claims| b@ == spec_token_bytes(secret, c0) implies false by {
                lemma_token_structure(secret, c0);
                assert(msg@ =~= spec_signing_input(c0));
                assert(sig@ =~= spec_b64_encode(spec_hs256_tag(secret, spec_signing_input(c0))));
            }
        }
        return None;
    }
    proof {
        lemma_encode_decode(pseg@);
        assert(pseg@ == spec_b64_encode(pj@));
        assert(b@ =~= head@ + seq![46u8] + pseg@ + seq![46u8] + sig@);
        assert(msg@ =~= head@ + seq![46u8] + pseg@);
        assert(msg@ =~= spec_signing_input(c));
        assert(b@ =~= spec_token_bytes(secret, c));
        assert forall|c0: Claims| b@ == spec_token_bytes(secret, c0) implies Some(c) == Some::<
            Claims,
        >(c0) by {
            lemma_token_structure(secret, c0);
            assert(pseg@ =~= spec_b64_encode(spec_claims_json(c0)));
            lemma_decode_encode(spec_claims_json(c0));
            assert(pj@ == spec_claims_json(c0));
        }
    }
    Some(c)
}

/// Round-trip law, stated over the token form itself: one token never
/// stands for two different claims, so what `jwt_encode` issues for given
/// claims is decoded back to exactly those claims (and `jwt_decode`'s
/// contract owes acceptance of every live issued token).
pub proof fn lemma_token_claims_unique(secret: Seq<u8>, c1: Claims, c2: Claims)
    requires
        spec_token_bytes(secret, c1) == spec_token_bytes(secret, c2),
    ensures
        c1 == c2,
{
    lemma_token_structure(secret, c1);
    lemma_token_structure(secret, c2);
    let t = spec_token_bytes(secret, c1);
    let h = spec_header_b64();
    let p1 = spec_b64_encode(spec_claims_json(c1));
    let p2 = spec_b64_encode(spec_claims_json(c2));
    let d1 = h.len() as int;
    assert(p1.len() == p2.len()) by {
        if p1.len() < p2.len() {
            assert(t[d1 + 1 + p1.len()] == 46);
            assert(t[d1 + 1 + p1.len()] != 46);
        } else if p2.len() < p1.len() {
            assert(t[d1 + 1 + p2.len()] == 46);
            assert(t[d1 + 1 + p2.len()] != 46);
        }
    }
    assert(p1 == t.subrange(d1 + 1, d1 + 1 + p1.len()));
    assert(p2 == t.subrange(d1 + 1, d1 + 1 + p2.len()));
    lemma_decode_encode(spec_claims_json(c1));
    lemma_decode_encode(spec_claims_json(c2));
    assert(spec_claims_json(c1) == spec_claims_json(c2));
    lemma_parse_claims_json(c1);
    lemma_parse_claims_json(c2);
}

/// Verifies a presented credential at time `now`. Exactly the canonical
/// tokens of this codec under these keys are accepted; among those,
/// exactly the ones whose expiry lies strictly in the future (a token is
/// already rejected at the very second it expires). The error says only
/// whether the token was a genuine-but-lapsed one.
pub fn jwt_decode(keys: &Keys, token: &str, now: i64) -> (r: Result<Claims, VerifyError>)
    ensures
        (r matches Ok(c) ==> token@ == spec_token_chars(keys.spec_secret(), c) && now < c.exp),
        forall|c0: Claims|
            token@ == spec_token_chars(keys.spec_secret(), c0) && now < c0.exp ==> r == Ok::<
                Claims,
                VerifyError,
            >(c0),
        (r == Err::<Claims, VerifyError>(VerifyError::Expired) <==> exists|c0: Claims|
            token@ == spec_token_chars(keys.spec_secret(), c0) && now >= c0.exp),
{
    let ghost secret = keys.spec_secret();
    if !token.is_ascii() {
        proof {
            assert forall|c0: Claims| token@ == spec_token_chars(secret, c0) implies false by {
                lemma_token_ascii(secret, c0);
            }
        }
        return Err(VerifyError::Invalid);
    }
    let bytes = token.as_bytes_vec();
    proof {
        vstd::string::is_ascii_spec_bytes(token);
        assert(bytes@.len() == token@.len());
        assert forall|i: int| 0 <= i < bytes@.len() implies bytes@[i] < 128 && token@[i]
            == bytes@[i] as char by {
            assert(bytes@[i] == token@[i] as u8);
            assert('\0' <= token@[i] <= '\u{7f}');
            vstd::utf8::char_u32_cast(token@[i], (token@[i] as u32));
            assert((token@[i] as u32) < 128);
            assert((token@[i] as u8) as u32 == token@[i] as u32);
        }
        assert(token@ =~= spec_ascii_chars(bytes@));
        assert(spec_all_ascii(bytes@));
    }
    let sr = strip_token(keys, &bytes);
    let r: Result<Claims, VerifyError> = match sr {
        Some(c) => {
            if now >= c.exp {
                Err(VerifyError::Expired)
            } else {
                Ok(c)
            }
        },
        None => Err(VerifyError::Invalid),
    };
    proof {
        assert forall|c0: Claims| token@ == spec_token_chars(secret, c0) implies bytes@
            == spec_token_bytes(secret, c0) by {
            lemma_token_ascii(secret, c0);
            lemma_ascii_chars_injective(bytes@, spec_token_bytes(secret, c0));
        }
        match sr {
            Some(c) => {
                assert(token@ =~= spec_token_chars(secret, c));
                if now >= c.exp {
                    assert(exists|c0: Claims|
                        token@ == spec_token_chars(secret, c0) && now >= c0.exp) by {
                        assert(token@ == spec_token_chars(secret, c) && now >= c.exp);
                    }
                }
            },
            None => {},
        }
    }
    r
}

} // verus!
