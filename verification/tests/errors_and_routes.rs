use authcore::codec::Keys;
use authcore::codec::UnixTime;
use authcore::errors::HttpException;
use authcore::errors::StoreError;
use authcore::errors::error_body;
use authcore::routes::CurrentUser;
use authcore::routes::DeletePlan;
use authcore::routes::HttpResponse;
use authcore::routes::UserInfo;
use authcore::routes::UserRecord;
use authcore::routes::create_one;
use authcore::routes::delete_done;
use authcore::routes::delete_plan;
use authcore::routes::fallback;
use authcore::routes::get_all;
use authcore::routes::get_one;
use authcore::routes::login;
use authcore::routes::prepare_password;
use authcore::routes::signout;
use authcore::validate::DeleteUserDto;
use authcore::validate::DeleteUserParam;
use authcore::validate::RedirectParam;

fn keys() -> Keys {
    Keys::new(b"route-test-secret")
}

fn at(secs: i64) -> UnixTime {
    UnixTime { secs, nanos: 0 }
}

fn sample_user(password_hash: String) -> UserRecord {
    UserRecord {
        id: 7,
        name: "Ada".to_string(),
        password: password_hash,
        email: "ada@example.com".to_string(),
        create_at: Some(1_600_000_000),
        update_at: None,
    }
}

#[test]
fn status_table_is_fixed() {
    let cases: [(HttpException, u16, &str); 6] = [
        (HttpException::BadRequestException(None), 400, "Bad Request"),
        (HttpException::UnauthorizedException(None), 401, "Unauthorized"),
        (HttpException::NotFoundException(None), 404, "Not Found"),
        (HttpException::ConflictException(None), 409, "Conflict"),
        (HttpException::UnprocessableEntityException(None), 422, "Unprocessable Entity"),
        (HttpException::InternalServerErrorException(None), 500, "Internal Server Error"),
    ];
    for (e, status, message) in cases {
        let (s, m) = e.status_and_default_message();
        assert_eq!(s, status);
        assert_eq!(m, message.to_string());
    }
}

#[test]
fn override_message_wins_and_default_fills_in() {
    let (s, m) = HttpException::ForbiddenException(Some("no entry".to_string())).response_parts();
    assert_eq!((s, m), (403, "no entry".to_string()));
    let (s2, m2) = HttpException::ForbiddenException(None).response_parts();
    assert_eq!((s2, m2), (403, "Forbidden".to_string()));
}

#[test]
fn error_body_is_the_exact_json_shape() {
    assert_eq!(
        String::from_utf8(error_body(404, "Not Found")).unwrap(),
        r#"{"statusCode":404,"message":"Not Found"}"#
    );
    // quotes, backslashes and control characters are escaped
    assert_eq!(
        String::from_utf8(error_body(400, "a\"b\\c\nd\u{1}")).unwrap(),
        r#"{"statusCode":400,"message":"a\"b\\c\nd\u0001"}"#
    );
}

#[test]
fn store_constraint_violations_become_client_errors() {
    // a uniqueness violation surfaces as 400 with the store's message,
    // never as a raw 500
    let dup = HttpException::DbException(StoreError::UniqueViolation(
        "duplicate email".to_string(),
    ));
    let (status, message) = dup.response_parts();
    assert_eq!((status, message), (400, "duplicate email".to_string()));

    let fk = HttpException::DbException(StoreError::ForeignKeyViolation("fk".to_string()));
    assert_eq!(fk.response_parts(), (400, "fk".to_string()));

    // a classified-but-internal store failure keeps its generic message
    let other = HttpException::DbException(StoreError::OtherSql("boom".to_string()));
    assert_eq!(other.response_parts(), (500, "Unknown Database Error".to_string()));

    // an unclassified store failure never shows its detail to the client;
    // the detail stays reachable for the log
    let infra = StoreError::Other("pool gone".to_string());
    assert_eq!(infra.detail(), "pool gone".to_string());
    let infra_resp = HttpException::DbException(infra);
    assert_eq!(infra_resp.response_parts(), (500, "Internal Server Error".to_string()));
}

#[test]
fn create_one_surfaces_the_store_error_unchanged() {
    let k = keys();
    let r = create_one(
        Err(StoreError::UniqueViolation("duplicate email".to_string())),
        &k,
        "auth",
        at(1_700_000_000),
    );
    let e = r.unwrap_err();
    let (status, message) = e.response_parts();
    assert_eq!((status, message), (400, "duplicate email".to_string()));
}

#[test]
fn create_one_issues_a_locked_down_cookie() {
    let k = keys();
    let user = sample_user("irrelevant".to_string());
    let (resp, cookie) = create_one(Ok(user), &k, "auth", at(1_700_000_000)).unwrap();
    assert_eq!(resp.status(), 200);
    assert_eq!(cookie.name, "auth".to_string());
    assert!(cookie.secure);
    assert!(cookie.http_only);
    assert_eq!(cookie.value.matches('.').count(), 2);
}

#[test]
fn login_rejects_unknown_email_with_named_message() {
    let k = keys();
    let r = login(None, "pw", "who@example.com", &k, "auth", at(0));
    match r.unwrap_err() {
        HttpException::NotFoundException(Some(m)) => {
            assert_eq!(m, "No user found with email who@example.com".to_string());
        }
        _ => panic!("expected Not Found"),
    }
}

#[test]
fn login_checks_the_password_against_the_stored_hash() {
    let k = keys();
    let hash = bcrypt::hash("correct horse", 4).unwrap();
    let user = sample_user(hash.clone());
    let (resp, cookie) = login(
        Some(user),
        "correct horse",
        "ada@example.com",
        &k,
        "auth",
        at(1_700_000_000),
    )
    .expect("right password logs in");
    assert_eq!(resp.status(), 200);
    assert_eq!(cookie.name, "auth".to_string());

    let user2 = sample_user(hash);
    let r = login(Some(user2), "wrong", "ada@example.com", &k, "auth", at(1_700_000_000));
    match r.unwrap_err() {
        HttpException::UnauthorizedException(Some(m)) => {
            assert_eq!(m, "Invalid email or password".to_string());
        }
        _ => panic!("expected Unauthorized"),
    }
}

#[test]
fn prepare_password_hashes_verifiably() {
    let h = prepare_password("a password", true).expect("hashing succeeds");
    assert!(bcrypt::verify("a password", &h).unwrap());
    assert!(!bcrypt::verify("another", &h).unwrap());
}

#[test]
fn signout_redirects_and_names_the_cookie() {
    let (resp, cookie_name) = signout(RedirectParam { uri: None }, "auth");
    match resp {
        HttpResponse::RedirectTo { uri } => assert_eq!(uri, "/login".to_string()),
        _ => panic!("expected a redirect"),
    }
    assert_eq!(cookie_name, "auth".to_string());

    let (resp2, _) = signout(RedirectParam { uri: Some("/bye".to_string()) }, "auth");
    match resp2 {
        HttpResponse::RedirectTo { uri } => assert_eq!(uri, "/bye".to_string()),
        _ => panic!("expected a redirect"),
    }
}

#[test]
fn delete_plan_defaults_to_keeping_posts() {
    let p: DeletePlan = delete_plan(
        &DeleteUserParam { id: 5 },
        &DeleteUserDto { thoroughly: None },
    );
    assert_eq!((p.user_id, p.delete_posts), (5, false));
    let p2 = delete_plan(
        &DeleteUserParam { id: 5 },
        &DeleteUserDto { thoroughly: Some(true) },
    );
    assert!(p2.delete_posts);
}

#[test]
fn delete_done_names_the_identity() {
    let (resp, cookie_name) = delete_done(12, "auth");
    match resp {
        HttpResponse::Json { payload, message } => {
            assert!(payload.is_none());
            assert_eq!(message, Some("The user 12 has been successfully deleted".to_string()));
        }
        _ => panic!("expected a document"),
    }
    assert_eq!(cookie_name, "auth".to_string());
}

#[test]
fn post_lookup_answers_row_or_named_not_found() {
    let r = get_one(None, 3);
    match r.unwrap_err() {
        HttpException::NotFoundException(Some(m)) => {
            assert_eq!(m, "No post found with id 3".to_string());
        }
        _ => panic!("expected Not Found"),
    }
}

#[test]
fn post_listing_wraps_the_rows() {
    let resp = get_all(Vec::new());
    match resp {
        HttpResponse::Json { payload, message } => {
            assert_eq!(payload.map(|v| v.len()), Some(0));
            assert!(message.is_none());
        }
        _ => panic!("expected a document"),
    }
}

#[test]
fn fallback_names_the_path() {
    match fallback("/v9/missing") {
        HttpException::NotFoundException(Some(m)) => {
            assert_eq!(m, "No route for /v9/missing".to_string());
        }
        _ => panic!("expected Not Found"),
    }
}

#[test]
fn current_user_carries_the_snapshot() {
    let info = UserInfo {
        id: 2,
        name: "Ada".to_string(),
        email: "ada@example.com".to_string(),
        created_at: Some(10),
        updated_at: None,
    };
    let cu: CurrentUser = CurrentUser::new(info);
    assert_eq!(cu.id, 2);
    assert_eq!(cu.name, "Ada".to_string());
    assert_eq!(cu.create_at, Some(10));
}
