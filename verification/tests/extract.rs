use authcore::extract::Body;
use authcore::extract::ParserError;
use authcore::extract::PathErrorKind;
use authcore::extract::body_create_user;
use authcore::extract::body_login;
use authcore::extract::body_redirect;
use authcore::extract::handle_path_error;
use authcore::extract::param_delete_user;
use authcore::extract::query_delete_user;
use authcore::extract::query_post;

#[test]
fn all_violations_are_aggregated_not_just_the_first() {
    let body = br#"{"name": "", "email": "not-an-email", "password": "short"}"#.to_vec();
    let err = body_create_user(&body).unwrap_err();
    let vs = match err {
        ParserError::ValidationErrors(vs) => vs,
        _ => panic!("expected a validation failure"),
    };
    assert_eq!(vs.len(), 3);
    assert_eq!(vs[0].field, "name".to_string());
    assert_eq!(vs[0].message, "Invalid name".to_string());
    assert_eq!(vs[1].field, "email".to_string());
    assert_eq!(vs[1].message, "Invalid email".to_string());
    assert_eq!(vs[2].field, "password".to_string());
    assert_eq!(vs[2].message, "Invalid password".to_string());

    let (status, resp) = ParserError::ValidationErrors(vs).into_response();
    assert_eq!(status, 400);
    let text = String::from_utf8(resp).unwrap();
    assert!(text.contains("Invalid name"));
    assert!(text.contains("Invalid email"));
    assert!(text.contains("Invalid password"));
    assert!(text.contains("\"statusCode\":400"));
}

#[test]
fn valid_create_body_passes_parse_then_validate() {
    let body = br#"{"name":"Ada","email":"ada@example.com","password":"longenough"}"#.to_vec();
    let Body(dto) = body_create_user(&body).expect("well-formed valid body");
    assert_eq!(dto.name, "Ada".to_string());
    assert_eq!(dto.email, "ada@example.com".to_string());
    assert_eq!(dto.password, "longenough".to_string());
}

#[test]
fn structurally_invalid_body_is_a_parse_error_not_a_validation_error() {
    for raw in [
        &br#"{"name": "x""#[..],
        &br#"[1,2,3]"#[..],
        &br#"{"name":1,"email":"a@b.co","password":"longenough"}"#[..],
        &br#"{"email":"a@b.co","password":"longenough"}"#[..],
        &b""[..],
    ] {
        let err = body_create_user(&raw.to_vec()).unwrap_err();
        assert!(matches!(err, ParserError::JsonRejection(_)));
    }
}

#[test]
fn body_string_escapes_are_decoded() {
    let body = br#"{"name":"A\"B\\C\nD","email":"ada@example.com","password":"longenough"}"#
        .to_vec();
    let Body(dto) = body_create_user(&body).expect("escaped strings parse");
    assert_eq!(dto.name, "A\"B\\C\nD".to_string());
}

#[test]
fn login_body_aggregates_both_violations() {
    let body = br#"{"email":"nope","password":"short"}"#.to_vec();
    let err = body_login(&body).unwrap_err();
    let vs = match err {
        ParserError::ValidationErrors(vs) => vs,
        _ => panic!("expected a validation failure"),
    };
    assert_eq!(vs.len(), 2);
    assert_eq!(vs[0].field, "email".to_string());
    assert_eq!(vs[1].field, "password".to_string());
}

#[test]
fn empty_body_with_all_optional_fields_is_the_default_value() {
    let Body(dto) = body_redirect(&b"".to_vec()).expect("empty body is valid here");
    assert_eq!(dto.uri, None);
    let Body(dto2) = body_redirect(&b"   ".to_vec()).expect("whitespace body is valid here");
    assert_eq!(dto2.uri, None);
    let Body(dto3) = body_redirect(&br#"{"uri":"/home"}"#.to_vec()).unwrap();
    assert_eq!(dto3.uri, Some("/home".to_string()));
    let Body(dto4) = body_redirect(&br#"{"uri":null}"#.to_vec()).unwrap();
    assert_eq!(dto4.uri, None);
}

#[test]
fn query_flag_parses_strictly() {
    assert_eq!(query_delete_user("").unwrap().0.thoroughly, None);
    assert_eq!(query_delete_user("a=1&b=2").unwrap().0.thoroughly, None);
    assert_eq!(query_delete_user("thoroughly=true").unwrap().0.thoroughly, Some(true));
    assert_eq!(
        query_delete_user("a=1&thoroughly=false").unwrap().0.thoroughly,
        Some(false)
    );
    assert!(matches!(
        query_delete_user("thoroughly=yes").unwrap_err(),
        ParserError::QueryRejection(_)
    ));
}

#[test]
fn query_id_parses_and_validates() {
    assert_eq!(query_post("id=7").unwrap().0.id, 7);
    assert!(matches!(query_post("").unwrap_err(), ParserError::QueryRejection(_)));
    assert!(matches!(query_post("id=abc").unwrap_err(), ParserError::QueryRejection(_)));
    let err = query_post("id=0").unwrap_err();
    match err {
        ParserError::ValidationErrors(vs) => {
            assert_eq!(vs.len(), 1);
            assert_eq!(vs[0].field, "id".to_string());
            assert_eq!(vs[0].message, "Invalid id".to_string());
        }
        _ => panic!("expected a validation failure"),
    }
}

#[test]
fn path_id_parses_and_validates() {
    assert_eq!(param_delete_user("12").unwrap().0.id, 12);
    let bad = param_delete_user("x9").unwrap_err();
    match bad {
        ParserError::PathRejection(PathErrorKind::ParseErrorAtKey { key, .. }) => {
            assert_eq!(key, "id".to_string());
        }
        _ => panic!("expected a path parse failure"),
    }
    let zero = param_delete_user("0").unwrap_err();
    assert!(matches!(zero, ParserError::ValidationErrors(_)));
}

#[test]
fn path_error_classification_matches_the_table() {
    let (s1, p1) = handle_path_error(
        400,
        PathErrorKind::ParseErrorAtKey {
            key: "id".to_string(),
            message: "bad".to_string(),
        },
    );
    assert_eq!((s1, p1.code), (400, 400));
    assert_eq!(p1.location, Some("id".to_string()));

    let (s2, p2) = handle_path_error(
        400,
        PathErrorKind::ParseErrorAtIndex {
            index: 3,
            message: "bad".to_string(),
        },
    );
    assert_eq!(s2, 400);
    assert_eq!(p2.location, Some("3".to_string()));

    // a type the route cannot support is the server's fault
    let (s3, p3) = handle_path_error(
        400,
        PathErrorKind::UnsupportedType { message: "unsupported".to_string() },
    );
    assert_eq!((s3, p3.code), (500, 500));
    assert_eq!(p3.location, None);

    let (s4, p4) = handle_path_error(400, PathErrorKind::Message("m".to_string()));
    assert_eq!(s4, 400);
    assert_eq!(p4.message, "m".to_string());
    assert_eq!(p4.location, None);
}

#[test]
fn parse_error_body_shape_is_exact() {
    let (status, body) =
        ParserError::JsonRejection("missing field name".to_string()).into_response();
    assert_eq!(status, 400);
    assert_eq!(
        String::from_utf8(body).unwrap(),
        r#"{"statusCode":400,"message":"missing field name","location":null}"#
    );
}
