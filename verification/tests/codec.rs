use authcore::codec::Claims;
use authcore::codec::Keys;
use authcore::codec::UnixTime;
use authcore::codec::VerifyError;
use authcore::codec::jwt_decode;
use authcore::codec::jwt_encode;
use authcore::codec::TOKEN_LIFETIME_SECS;

fn keys() -> Keys {
    Keys::new(b"test-signing-secret")
}

fn at(secs: i64) -> UnixTime {
    UnixTime { secs, nanos: 0 }
}

#[test]
fn round_trip_exact_claims() {
    let k = keys();
    let now = 1_700_000_000i64;
    let token = jwt_encode(&k, 42, at(now));
    let claims = jwt_decode(&k, token.as_str(), now + 1).expect("fresh token verifies");
    assert_eq!(claims.user_id, 42);
    assert_eq!(claims.iat, now);
    assert_eq!(claims.exp, now + TOKEN_LIFETIME_SECS);
}

#[test]
fn round_trip_negative_user_id_and_times() {
    let k = keys();
    let token = jwt_encode(&k, -5, UnixTime { secs: -100, nanos: 0 });
    let claims = jwt_decode(&k, token.as_str(), -50).expect("token verifies");
    assert_eq!(claims.user_id, -5);
    assert_eq!(claims.iat, -100);
    assert_eq!(claims.exp, -100 + TOKEN_LIFETIME_SECS);
}

#[test]
fn normalization_drops_subsecond_precision() {
    let iat = UnixTime { secs: 5, nanos: 999_999_999 };
    let exp = UnixTime { secs: 7, nanos: 123_456 };
    let c = Claims::new(3, iat, exp);
    assert_eq!(c.iat, 5);
    assert_eq!(c.exp, 7);
}

#[test]
fn expiry_is_inclusive_at_the_boundary() {
    let k = keys();
    let now = 1_700_000_000i64;
    let token = jwt_encode(&k, 1, at(now));
    let exp = now + TOKEN_LIFETIME_SECS;
    // one second before expiry: still accepted
    assert!(jwt_decode(&k, token.as_str(), exp - 1).is_ok());
    // at the very second of expiry: already rejected
    assert_eq!(jwt_decode(&k, token.as_str(), exp), Err(VerifyError::Expired));
    // and any later time as well
    assert_eq!(jwt_decode(&k, token.as_str(), exp + 9999), Err(VerifyError::Expired));
}

#[test]
fn tampered_token_is_invalid() {
    let k = keys();
    let now = 1_700_000_000i64;
    let token = jwt_encode(&k, 1, at(now));
    let mut bytes = token.into_bytes();
    let mid = bytes.len() / 2;
    bytes[mid] = if bytes[mid] == b'A' { b'B' } else { b'A' };
    let tampered = String::from_utf8(bytes).unwrap();
    assert_eq!(jwt_decode(&k, tampered.as_str(), now), Err(VerifyError::Invalid));
}

#[test]
fn wrong_secret_is_invalid() {
    let k = keys();
    let other = Keys::new(b"another-secret");
    let now = 1_700_000_000i64;
    let token = jwt_encode(&k, 1, at(now));
    assert_eq!(jwt_decode(&other, token.as_str(), now), Err(VerifyError::Invalid));
}

#[test]
fn garbage_is_invalid() {
    let k = keys();
    assert_eq!(jwt_decode(&k, "", 0), Err(VerifyError::Invalid));
    assert_eq!(jwt_decode(&k, "not a token", 0), Err(VerifyError::Invalid));
    assert_eq!(jwt_decode(&k, "a.b.c", 0), Err(VerifyError::Invalid));
}

#[test]
fn token_is_a_standard_jwt() {
    // the independent verification path of the jsonwebtoken crate accepts
    // the issued token and reads back the same claims
    let secret = b"test-signing-secret";
    let k = Keys::new(secret);
    let now = 1_700_000_000i64;
    let token = jwt_encode(&k, 42, at(now));

    let mut validation = jsonwebtoken::Validation::new(jsonwebtoken::Algorithm::HS256);
    validation.validate_exp = false;
    validation.required_spec_claims.clear();
    let data = jsonwebtoken::decode::<serde_json::Value>(
        token.as_str(),
        &jsonwebtoken::DecodingKey::from_secret(secret),
        &validation,
    )
    .expect("the issued token is a valid signed JWT");
    assert_eq!(data.claims.get("user_id").and_then(|v| v.as_i64()), Some(42));
    assert_eq!(data.claims.get("iat").and_then(|v| v.as_i64()), Some(now));
    assert_eq!(
        data.claims.get("exp").and_then(|v| v.as_i64()),
        Some(now + TOKEN_LIFETIME_SECS)
    );
}

#[test]
fn distinct_claims_give_distinct_tokens() {
    let k = keys();
    let now = 1_700_000_000i64;
    let t1 = jwt_encode(&k, 1, at(now));
    let t2 = jwt_encode(&k, 2, at(now));
    let t3 = jwt_encode(&k, 1, at(now + 1));
    assert_ne!(t1, t2);
    assert_ne!(t1, t3);
}

#[test]
fn round_trip_at_the_extremes_of_the_clock_and_identity() {
    let k = keys();
    let token = jwt_encode(&k, i32::MAX, at(i64::MIN));
    let claims = jwt_decode(&k, token.as_str(), i64::MIN).expect("token verifies");
    assert_eq!(claims.user_id, i32::MAX);
    assert_eq!(claims.iat, i64::MIN);
    assert_eq!(claims.exp, i64::MIN + TOKEN_LIFETIME_SECS);

    let token2 = jwt_encode(&k, i32::MIN, at(i64::MAX - TOKEN_LIFETIME_SECS));
    let claims2 = jwt_decode(&k, token2.as_str(), i64::MAX - TOKEN_LIFETIME_SECS)
        .expect("token verifies");
    assert_eq!(claims2.user_id, i32::MIN);
    assert_eq!(claims2.exp, i64::MAX);
}
