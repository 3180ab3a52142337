use authcore::codec::Keys;
use authcore::codec::UnixTime;
use authcore::codec::jwt_encode;
use authcore::codec::TOKEN_LIFETIME_SECS;
use authcore::cookies::get_cookie_value;
use authcore::errors::HttpException;
use authcore::guards::CookieGuard;
use authcore::guards::JWTGuard;
use authcore::guards::auth_guard;
use authcore::guards::auth_guard_outcome;
use authcore::guards::registry_key;
use authcore::registry::RegistryOutcome;
use authcore::registry::SessionRegistry;

fn keys() -> Keys {
    Keys::new(b"guard-test-secret")
}

fn at(secs: i64) -> UnixTime {
    UnixTime { secs, nanos: 0 }
}

#[test]
fn cookie_lookup_finds_named_cookie() {
    assert_eq!(
        get_cookie_value("a=1; app_auth_key=tok.en; b=2", "app_auth_key"),
        Some("tok.en".to_string())
    );
    assert_eq!(get_cookie_value("app_auth_key=x", "app_auth_key"), Some("x".to_string()));
    assert_eq!(get_cookie_value("  app_auth_key = spaced ", "app_auth_key"), Some("spaced".to_string()));
    assert_eq!(get_cookie_value("other=1", "app_auth_key"), None);
    assert_eq!(get_cookie_value("", "app_auth_key"), None);
    // the first pair with the name wins
    assert_eq!(get_cookie_value("k=first; k=second", "k"), Some("first".to_string()));
    // a pair without `=` is passed over
    assert_eq!(get_cookie_value("junk; k=v", "k"), Some("v".to_string()));
}

#[test]
fn cookie_guard_accepts_live_credential() {
    let k = keys();
    let now = 1_700_000_000i64;
    let token = jwt_encode(&k, 9, at(now));
    let header = format!("other=1; auth={}", token);
    let claims = CookieGuard::check(&k, Some(header.as_str()), "auth", now + 10)
        .expect("live credential admits the request");
    assert_eq!(claims.user_id, 9);
}

#[test]
fn guard_failures_all_look_the_same() {
    let k = keys();
    let now = 1_700_000_000i64;
    let expired_at = now - 2 * TOKEN_LIFETIME_SECS;
    let expired = jwt_encode(&k, 9, at(expired_at));
    let expired_header = format!("auth={}", expired);

    // no credential, a malformed credential, and a well-formed-but-expired
    // credential: one indistinguishable answer
    let missing = CookieGuard::check(&k, None, "auth", now).unwrap_err();
    let no_cookie = CookieGuard::check(&k, Some("other=1"), "auth", now).unwrap_err();
    let malformed = CookieGuard::check(&k, Some("auth=garbage"), "auth", now).unwrap_err();
    let lapsed = CookieGuard::check(&k, Some(expired_header.as_str()), "auth", now).unwrap_err();

    for r in [missing, no_cookie, malformed, lapsed] {
        assert_eq!(r.status, 401);
        assert_eq!(r.message, "Unauthorized".to_string());
    }
}

#[test]
fn bearer_guard_accepts_and_rejects() {
    let k = keys();
    let now = 1_700_000_000i64;
    let token = jwt_encode(&k, 4, at(now));
    let header = format!("Bearer {}", token);
    let claims = JWTGuard::check(&k, Some(header.as_str()), now).expect("live bearer admits");
    assert_eq!(claims.user_id, 4);

    let missing = JWTGuard::check(&k, None, now).unwrap_err();
    let no_scheme = JWTGuard::check(&k, Some(token.as_str()), now).unwrap_err();
    let malformed = JWTGuard::check(&k, Some("Bearer junk"), now).unwrap_err();
    for r in [missing, no_scheme, malformed] {
        assert_eq!(r.status, 401);
        assert_eq!(r.message, "Unauthorized".to_string());
    }
}

#[test]
fn registry_guard_end_to_end_sliding_window() {
    let k = keys();
    let mut reg = SessionRegistry::new();
    let now = 1_700_000_000i64;

    // issue a credential and register the session under the identity's key
    let token = jwt_encode(&k, 7, at(now));
    let key = registry_key("app_auth_key", "7");
    assert_eq!(key, "app_auth_key_7".to_string());
    reg.insert(key, token.clone(), token.clone(), now);

    // presenting it to the protected boundary succeeds
    let claims = auth_guard(&k, &mut reg, "app_auth_key", Some("7"), Some(token.as_str()), now + 1)
        .expect("registered live credential admits");
    assert_eq!(claims.user_id, 7);

    // letting the sliding window lapse without use, the third call is 401
    // even though the credential itself has not expired
    let later = now + 1 + 3601;
    let r = auth_guard(&k, &mut reg, "app_auth_key", Some("7"), Some(token.as_str()), later);
    let e = r.unwrap_err();
    assert_eq!(e.status, 401);
    assert_eq!(e.message, "Unauthorized".to_string());
}

#[test]
fn registry_guard_rejects_missing_headers() {
    let k = keys();
    let mut reg = SessionRegistry::new();
    let e = auth_guard(&k, &mut reg, "app_auth_key", None, Some("x"), 0).unwrap_err();
    assert_eq!(e.status, 401);
    let e2 = auth_guard(&k, &mut reg, "app_auth_key", Some("1"), None, 0).unwrap_err();
    assert_eq!(e2.status, 401);
}

#[test]
fn outcome_guard_classifies_hits_and_misses() {
    let k = keys();
    let now = 1_700_000_000i64;
    let token = jwt_encode(&k, 3, at(now));

    let ok = auth_guard_outcome(&k, &RegistryOutcome::Hit(token.clone()), now + 1);
    assert_eq!(ok.expect("live stored credential admits").user_id, 3);

    let miss = auth_guard_outcome(&k, &RegistryOutcome::Miss, now).unwrap_err();
    assert!(matches!(miss, HttpException::UnauthorizedException(None)));

    let stale = auth_guard_outcome(
        &k,
        &RegistryOutcome::Hit(token.clone()),
        now + TOKEN_LIFETIME_SECS,
    )
    .unwrap_err();
    assert!(matches!(stale, HttpException::UnauthorizedException(None)));

    // an unreachable backing store is an internal failure, distinct from
    // "unauthenticated" and carrying no detail outward
    let down = auth_guard_outcome(
        &k,
        &RegistryOutcome::Unavailable("connection refused".to_string()),
        now,
    )
    .unwrap_err();
    assert!(matches!(down, HttpException::InternalServerErrorException(None)));
}

#[test]
fn cookie_value_keeps_everything_after_the_first_equals_sign() {
    assert_eq!(get_cookie_value("k=a=b; x=1", "k"), Some("a=b".to_string()));
}
