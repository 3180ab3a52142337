//! Trust guards: the request-boundary gatekeepers. Each strategy locates a
//! credential, verifies it, and either yields the identity claims or fails
//! closed with one generic answer that never says why.

use vstd::prelude::*;
use vstd::string::StringSliceAdditionalSpecFns;
use vstd::utf8::encode_utf8;
use crate::bytesutil::ascii_string;
use crate::bytesutil::copy_range;
use crate::bytesutil::lemma_ascii_encode_utf8;
use crate::codec::Claims;
use crate::codec::Keys;
use crate::codec::VerifyError;
use crate::codec::jwt_decode;
use crate::codec::lemma_token_ascii;
use crate::codec::spec_token_bytes;
use crate::codec::spec_token_chars;
use crate::cookies::get_cookie_value;
use crate::cookies::spec_cookie_value;
use crate::errors::HttpException;
use crate::registry::RegistryOutcome;
use crate::registry::SessionRegistry;

verus! {

/// What a guard answers when it refuses a request: always the same status
/// and the same word, whatever actually went wrong.
#[derive(Debug)]
pub struct GuardRejection {
    pub status: u16,
    pub message: String,
}

/// The one generic rejection. Guards never differentiate a missing from a
/// malformed from an expired credential in their answer.
pub fn unauthorized() -> (r: GuardRejection)
    ensures
        r.status == 401,
        r.message@ == "Unauthorized"@,
{
    GuardRejection { status: 401, message: String::from_str("Unauthorized") }
}

/// Does the cookie header carry, under `name`, exactly the canonical token
/// of claims `c`?
pub open spec fn spec_header_has_token(
    header: Seq<char>,
    name: Seq<char>,
    secret: Seq<u8>,
    c: Claims,
) -> bool {
    spec_cookie_value(encode_utf8(header), encode_utf8(name)) == Some(spec_token_bytes(secret, c))
}

/// The cookie/local strategy: the named cookie's value goes straight to
/// the codec; no registry is involved, so such a credential cannot be
/// revoked server-side before its natural expiry.
pub struct CookieGuard;

impl CookieGuard {
    /// Admits a request exactly when the named cookie holds a token this
    /// codec issued under `keys` that is still live at `now`; populates the
    /// identity claims on success and fails closed otherwise, always with
    /// the one generic rejection.
    pub fn check(keys: &Keys, cookie_header: Option<&str>, cookie_name: &str, now: i64) -> (r:
        Result<Claims, GuardRejection>)
        ensures
            (r matches Ok(c) ==> (cookie_header matches Some(h) && spec_header_has_token(
                h@,
                cookie_name@,
                keys.spec_secret(),
                c,
            ) && now < c.exp)),
            (cookie_header matches Some(h) ==> forall|c0: Claims|
                spec_header_has_token(h@, cookie_name@, keys.spec_secret(), c0) && now < c0.exp
                    ==> r == Ok::<Claims, GuardRejection>(c0)),
            (r matches Err(e) ==> e.status == 401 && e.message@ == "Unauthorized"@),
    {
        let ghost secret = keys.spec_secret();
        let h = match cookie_header {
            Some(h) => h,
            None => {
                return Err(unauthorized());
            },
        };
        let v = match get_cookie_value(h, cookie_name) {
            Some(v) => v,
            None => {
                proof {
                    assert forall|c0: Claims|
                        spec_header_has_token(h@, cookie_name@, secret, c0) && now
                            < c0.exp implies false by {
                        lemma_token_ascii(secret, c0);
                        lemma_ascii_encode_utf8(spec_token_bytes(secret, c0));
                    }
                }
                return Err(unauthorized());
            },
        };
        let d = jwt_decode(keys, v.as_str(), now);
        proof {
            assert forall|c0: Claims|
                spec_header_has_token(h@, cookie_name@, secret, c0) implies v@
                == spec_token_chars(secret, c0) by {
                lemma_token_ascii(secret, c0);
                lemma_ascii_encode_utf8(spec_token_bytes(secret, c0));
                // both v@ and the token's characters encode to the same bytes
                vstd::utf8::encode_utf8_decode_utf8(v@);
                vstd::utf8::encode_utf8_decode_utf8(spec_token_chars(secret, c0));
            }
        }
        match d {
            Ok(c) => {
                proof {
                    lemma_token_ascii(secret, c);
                    lemma_ascii_encode_utf8(spec_token_bytes(secret, c));
                    assert forall|c0: Claims|
                        spec_header_has_token(h@, cookie_name@, secret, c0) && now
                            < c0.exp implies c == c0 by {
                        assert(v@ == spec_token_chars(secret, c0));
                        assert(d == Ok::<Claims, VerifyError>(c0));
                    }
                }
                Ok(c)
            },
            Err(_) => {
                proof {
                    assert forall|c0: Claims|
                        spec_header_has_token(h@, cookie_name@, secret, c0) && now
                            < c0.exp implies false by {
                        assert(v@ == spec_token_chars(secret, c0));
                        assert(d == Ok::<Claims, VerifyError>(c0));
                    }
                }
                Err(unauthorized())
            },
        }
    }
}

/// Does the authorization header carry, as a `Bearer` credential, exactly
/// the canonical token of claims `c`?
pub open spec fn spec_bearer_has_token(header: Seq<char>, secret: Seq<u8>, c: Claims) -> bool {
    header == "Bearer "@ + spec_token_chars(secret, c)
}

/// The header/local strategy: a bearer credential from the authorization
/// header goes straight to the codec.
pub struct JWTGuard;

impl JWTGuard {
    /// Admits a request exactly when the authorization header carries a
    /// bearer token this codec issued under `keys` that is still live at
    /// `now`; fails closed otherwise, always with the one generic
    /// rejection.
    pub fn check(keys: &Keys, authorization: Option<&str>, now: i64) -> (r: Result<
        Claims,
        GuardRejection,
    >)
        ensures
            (r matches Ok(c) ==> (authorization matches Some(h) && spec_bearer_has_token(
                h@,
                keys.spec_secret(),
                c,
            ) && now < c.exp)),
            (authorization matches Some(h) ==> forall|c0: Claims|
                spec_bearer_has_token(h@, keys.spec_secret(), c0) && now < c0.exp ==> r == Ok::<
                    Claims,
                    GuardRejection,
                >(c0)),
            (r matches Err(e) ==> e.status == 401 && e.message@ == "Unauthorized"@),
    {
        let ghost secret = keys.spec_secret();
        let h = match authorization {
            Some(h) => h,
            None => {
                return Err(unauthorized());
            },
        };
        proof {
            reveal_strlit("Bearer ");
        }
        if !h.is_ascii() {
            proof {
                assert forall|c0: Claims|
                    spec_bearer_has_token(h@, secret, c0) && now < c0.exp implies false by {
                    lemma_token_ascii(secret, c0);
                    assert forall|i: int| 0 <= i < h@.len() implies '\0' <= #[trigger] h@[i]
                        <= '\u{7f}' by {
                        if i >= 7 {
                            assert(h@[i] == spec_token_chars(secret, c0)[i - 7]);
                        }
                    }
                }
            }
            return Err(unauthorized());
        }
        let hb = h.as_bytes_vec();
        proof {
            vstd::string::is_ascii_spec_bytes(h);
        }
        let hlen = hb.len();
        if hlen < 7 {
            return Err(unauthorized());
        }
        if !(hb[0] == 66 && hb[1] == 101 && hb[2] == 97 && hb[3] == 114 && hb[4] == 101 && hb[5]
            == 114 && hb[6] == 32) {
            proof {
                assert forall|c0: Claims|
                    spec_bearer_has_token(h@, secret, c0) && now < c0.exp implies false by {
                    assert(h@[0] == 'B' && h@[1] == 'e' && h@[2] == 'a' && h@[3] == 'r' && h@[4]
                        == 'e' && h@[5] == 'r' && h@[6] == ' ');
                }
            }
            return Err(unauthorized());
        }
        let tb = copy_range(&hb, 7, hlen);
        proof {
            assert forall|k: int| 0 <= k < tb@.len() implies tb@[k] < 128 by {
                assert(tb@[k] == hb@[7 + k]);
                assert(hb@[7 + k] == h@[7 + k] as u8);
                assert('\0' <= h@[7 + k] <= '\u{7f}');
                vstd::utf8::char_u32_cast(h@[7 + k], (h@[7 + k] as u32));
            }
        }
        let v = ascii_string(tb);
        proof {
            assert forall|c0: Claims| spec_bearer_has_token(h@, secret, c0) implies v@
                == spec_token_chars(secret, c0) by {
                lemma_token_ascii(secret, c0);
                lemma_ascii_encode_utf8(spec_token_bytes(secret, c0));
                assert forall|k: int| 0 <= k < v@.len() implies v@[k] == spec_token_chars(
                    secret,
                    c0,
                )[k] by {
                    assert(v@[k] == tb@[k] as char);
                    assert(tb@[k] == h@[7 + k] as u8);
                    assert(h@[7 + k] == spec_token_chars(secret, c0)[k]);
                    vstd::utf8::char_u32_cast(h@[7 + k], (h@[7 + k] as u32));
                    assert((h@[7 + k] as u8) < 128);
                }
                assert(v@.len() == h@.len() - 7);
                assert(("Bearer "@ + spec_token_chars(secret, c0)).len() == 7 + spec_token_chars(
                    secret,
                    c0,
                ).len());
                assert(v@ =~= spec_token_chars(secret, c0));
            }
        }
        match jwt_decode(keys, v.as_str(), now) {
            Ok(c) => {
                proof {
                    lemma_token_ascii(secret, c);
                    assert(h@ =~= "Bearer "@ + spec_token_chars(secret, c)) by {
                        assert forall|k: int| 0 <= k < h@.len() implies h@[k] == ("Bearer "@
                            + spec_token_chars(secret, c))[k] by {
                            if k >= 7 {
                                assert(v@[k - 7] == tb@[k - 7] as char);
                                assert(tb@[k - 7] == h@[k] as u8);
                                assert('\0' <= h@[k] <= '\u{7f}');
                                vstd::utf8::char_u32_cast(h@[k], (h@[k] as u32));
                            }
                        }
                        assert(h@.len() == 7 + v@.len());
                    }
                }
                Ok(c)
            },
            Err(_) => Err(unauthorized()),
        }
    }
}

/// The registry namespace key of an identity: the configured prefix, an
/// underscore, the identity as the client names it.
pub open spec fn spec_registry_key(prefix: Seq<char>, user_id: Seq<char>) -> Seq<char> {
    prefix + "_"@ + user_id
}

/// Builds the registry namespace key of an identity.
pub fn registry_key(prefix: &str, user_id: &str) -> (r: String)
    ensures
        r@ == spec_registry_key(prefix@, user_id@),
{
    let mut k = String::new();
    k.append(prefix);
    k.append("_");
    k.append(user_id);
    proof {
        assert(k@ =~= spec_registry_key(prefix@, user_id@));
    }
    k
}

/// The header/registry strategy: the identity hint names the namespace,
/// the raw authorization header is the opaque session discriminator; the
/// registry answers for liveness (refreshing the sliding window on a hit)
/// and the codec for authenticity.
pub fn auth_guard(
    keys: &Keys,
    registry: &mut SessionRegistry,
    prefix: &str,
    user_id_header: Option<&str>,
    authorization: Option<&str>,
    now: i64,
) -> (r: Result<Claims, GuardRejection>)
    requires
        old(registry).wf(),
    ensures
        final(registry).wf(),
        (r matches Err(e) ==> e.status == 401 && e.message@ == "Unauthorized"@),
        (r matches Ok(c) ==> (user_id_header matches Some(u) && authorization matches Some(a)
            && old(registry).spec_hit(spec_registry_key(prefix@, u@), a@, now) == Some(
            spec_token_chars(keys.spec_secret(), c),
        ) && now < c.exp)),
        (user_id_header matches Some(u) ==> authorization matches Some(a) ==> forall|c0: Claims|
            old(registry).spec_hit(spec_registry_key(prefix@, u@), a@, now) == Some(
                spec_token_chars(keys.spec_secret(), c0),
            ) && now < c0.exp ==> r == Ok::<Claims, GuardRejection>(c0)),
        (user_id_header matches Some(u) ==> authorization matches Some(a) ==> old(
            registry,
        ).spec_hit(spec_registry_key(prefix@, u@), a@, now) is Some ==> SessionRegistry::spec_refreshed(
            *old(registry),
            *final(registry),
            spec_registry_key(prefix@, u@),
            now,
        )),
        ((user_id_header is None || authorization is None || old(registry).spec_hit(
            spec_registry_key(
                prefix@,
                match user_id_header {
                    Some(u) => u@,
                    None => Seq::empty(),
                },
            ),
            match authorization {
                Some(a) => a@,
                None => Seq::empty(),
            },
            now,
        ) is None) ==> *final(registry) == *old(registry)),
{
    let u = match user_id_header {
        Some(u) => u,
        None => {
            return Err(unauthorized());
        },
    };
    let a = match authorization {
        Some(a) => a,
        None => {
            return Err(unauthorized());
        },
    };
    let key = registry_key(prefix, u);
    let outcome = registry.lookup_and_refresh(key.as_str(), a, now);
    let tok = match outcome {
        RegistryOutcome::Hit(tok) => tok,
        RegistryOutcome::Miss => {
            return Err(unauthorized());
        },
        RegistryOutcome::Unavailable(_) => {
            // the in-process registry never answers this
            return vstd::pervasive::unreached();
        },
    };
    match jwt_decode(keys, tok.as_str(), now) {
        Ok(c) => Ok(c),
        Err(_) => Err(unauthorized()),
    }
}

/// The decision the header/registry strategy makes once the registry has
/// answered: a live, authentic credential admits the request; a miss or a
/// failed verification is the generic refusal; a registry whose backing
/// store could not be reached is an internal failure, kept distinct from
/// "unauthenticated" and carrying no detail outward (the detail is for
/// the caller's log).
pub fn auth_guard_outcome(keys: &Keys, outcome: &RegistryOutcome, now: i64) -> (r: Result<
    Claims,
    HttpException,
>)
    ensures
        (r matches Ok(c) ==> (outcome matches RegistryOutcome::Hit(tok) && tok@
            == spec_token_chars(keys.spec_secret(), c) && now < c.exp)),
        (outcome matches RegistryOutcome::Hit(tok) ==> forall|c0: Claims|
            tok@ == spec_token_chars(keys.spec_secret(), c0) && now < c0.exp ==> r == Ok::<
                Claims,
                HttpException,
            >(c0)),
        (outcome matches RegistryOutcome::Hit(tok) ==> r matches Err(e) ==> e
            == HttpException::UnauthorizedException(None::<String>)),
        (outcome matches RegistryOutcome::Miss ==> r == Err::<Claims, HttpException>(
            HttpException::UnauthorizedException(None),
        )),
        (outcome matches RegistryOutcome::Unavailable(d) ==> r == Err::<Claims, HttpException>(
            HttpException::InternalServerErrorException(None),
        )),
{
    match outcome {
        RegistryOutcome::Hit(tok) => match jwt_decode(keys, tok.as_str(), now) {
            Ok(c) => Ok(c),
            Err(_) => Err(HttpException::UnauthorizedException(None)),
        },
        RegistryOutcome::Miss => Err(HttpException::UnauthorizedException(None)),
        RegistryOutcome::Unavailable(_) => Err(HttpException::InternalServerErrorException(None)),
    }
}

} // verus!
