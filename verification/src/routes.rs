//! The decisions of the identity and post routes, from plain values to
//! plain values: the record store supplies rows or a classified failure,
//! the clock supplies the time, and everything in between — password
//! checks, credential issuing, error classification, response assembly —
//! is decided here.

use vstd::prelude::*;
use crate::bytesutil::ascii_string;
use crate::bytesutil::spec_all_ascii;
use crate::bytesutil::spec_ascii_chars;
use crate::codec::Keys;
use crate::codec::TOKEN_LIFETIME_SECS;
use crate::codec::UnixTime;
use crate::codec::jwt_encode;
use crate::codec::spec_issued_claims;
use crate::codec::spec_token_chars;
use crate::errors::HttpException;
use crate::errors::StoreError;
use crate::numdec::lemma_dec_digits_are_digits;
use crate::numdec::push_dec_i64;
use crate::numdec::spec_int_digits;
use crate::validate::DeleteUserDto;
use crate::validate::DeleteUserParam;
use crate::validate::RedirectParam;

verus! {

/// A stored identity row, as the record store hands it out.
#[derive(Debug)]
pub struct UserRecord {
    pub id: i32,
    pub name: String,
    pub password: String,
    pub email: String,
    pub create_at: Option<i64>,
    pub update_at: Option<i64>,
}

/// A stored post row, as the record store hands it out.
#[derive(Debug)]
pub struct PostRecord {
    pub id: i32,
    pub user_id: i32,
    pub title: String,
    pub text: String,
    pub category: String,
    pub created_at: Option<i64>,
    pub updated_at: Option<i64>,
}

/// The public attributes of an identity, as a credential may carry them.
#[derive(Debug)]
pub struct UserInfo {
    pub id: i32,
    pub name: String,
    pub email: String,
    pub created_at: Option<i64>,
    pub updated_at: Option<i64>,
}

/// The trusted identity of the request, created by a guard, read-only for
/// everything downstream, and discarded with the request.
#[derive(Debug)]
pub struct CurrentUser {
    pub id: i32,
    pub name: String,
    pub email: String,
    pub create_at: Option<i64>,
    pub update_at: Option<i64>,
}

impl CurrentUser {
    /// The request identity taken from a verified credential's snapshot.
    pub fn new(info: UserInfo) -> (r: CurrentUser)
        ensures
            r.id == info.id,
            r.name == info.name,
            r.email == info.email,
            r.create_at == info.created_at,
            r.update_at == info.updated_at,
    {
        CurrentUser {
            id: info.id,
            name: info.name,
            email: info.email,
            create_at: info.created_at,
            update_at: info.updated_at,
        }
    }
}

/// What a handler answers: a JSON document around an optional payload and
/// an optional message, or a temporary redirect.
#[derive(Debug)]
pub enum HttpResponse<T> {
    Json { payload: Option<T>, message: Option<String> },
    RedirectTo { uri: String },
}

impl<T> HttpResponse<T> {
    /// The status the answer travels with: 200 for a document, 307 for a
    /// temporary redirect.
    pub open spec fn spec_status(&self) -> int {
        match self {
            HttpResponse::Json { .. } => 200,
            HttpResponse::RedirectTo { .. } => 307,
        }
    }

    /// The status the answer travels with.
    pub fn status(&self) -> (r: u16)
        ensures
            r == self.spec_status(),
    {
        match self {
            HttpResponse::Json { .. } => 200,
            HttpResponse::RedirectTo { .. } => 307,
        }
    }
}

/// A cookie the response sets: the issued credential, locked down.
#[derive(Debug)]
pub struct CookieDirective {
    pub name: String,
    pub value: String,
    pub secure: bool,
    pub http_only: bool,
}

/// Whether the password matches the stored hash, as the hashing library
/// judges it: a fixed predicate of the two arguments.
pub uninterp spec fn bcrypt_accepts(password: Seq<char>, hash: Seq<char>) -> bool;

/// Relies on bcrypt::verify: recomputes the hash of the password under the
/// parameters and salt carried by the stored hash and compares. An error
/// (a malformed stored hash) counts as a mismatch here.
#[verifier::external_body]
fn password_matches(password: &str, hash: &str) -> (r: bool)
    ensures
        r == bcrypt_accepts(password@, hash@),
{
    matches!(bcrypt::verify(password, hash), Ok(true))
}

/// Relies on bcrypt::hash with cost 10: the result embeds a fresh random
/// salt, so no outcome is pinned; but whatever hash comes back, bcrypt's
/// own verification accepts the password under it, since verify recomputes
/// with the salt and cost the hash itself carries.
#[verifier::external_body]
fn bcrypt_hash(password: &str) -> (r: Option<String>)
    ensures
        (r matches Some(h) ==> bcrypt_accepts(password@, h@)),
{
    bcrypt::hash(password, 10).ok()
}

/// What the record store is given to persist in place of the raw
/// password: its hash, or the fixed refusal when the password cannot be
/// hashed at all.
pub fn prepare_password(password: &str, insert: bool) -> (r: Result<String, StoreError>)
    ensures
        (r matches Ok(h) ==> bcrypt_accepts(password@, h@)),
        (r matches Err(e) ==> e matches StoreError::Other(m) && m@
            == "[before_save] Invalid password, insert: "@ + (if insert {
            "true"@
        } else {
            "false"@
        })),
{
    match bcrypt_hash(password) {
        Some(h) => Ok(h),
        None => {
            let mut m = String::from_str("[before_save] Invalid password, insert: ");
            if insert {
                m.append("true");
            } else {
                m.append("false");
            }
            Err(StoreError::Other(m))
        },
    }
}

/// The locked-down credential cookie for an identity, freshly issued at
/// `now` under the configured name.
fn issue_cookie(keys: &Keys, auth_cookie_name: &str, user_id: i32, now: UnixTime) -> (r:
    CookieDirective)
    requires
        now.secs + TOKEN_LIFETIME_SECS <= i64::MAX,
    ensures
        r.name@ == auth_cookie_name@,
        r.value@ == spec_token_chars(keys.spec_secret(), spec_issued_claims(user_id, now)),
        r.secure,
        r.http_only,
{
    let token = jwt_encode(keys, user_id, now);
    CookieDirective {
        name: String::from_str(auth_cookie_name),
        value: token,
        secure: true,
        http_only: true,
    }
}

/// What creating an identity answers once the record store has spoken: a
/// fresh row comes back as the document payload with a fresh credential
/// cookie; a store failure surfaces exactly as the classified store error,
/// never as an unclassified crash.
pub fn create_one(
    store_result: Result<UserRecord, StoreError>,
    keys: &Keys,
    auth_cookie_name: &str,
    now: UnixTime,
) -> (r: Result<(HttpResponse<UserRecord>, CookieDirective), HttpException>)
    requires
        store_result matches Ok(u) ==> now.secs + TOKEN_LIFETIME_SECS <= i64::MAX,
    ensures
        (store_result matches Ok(u) ==> (r matches Ok(p) && (p.0 matches HttpResponse::Json {
            payload,
            message,
        } && payload == Some(u) && message is None) && p.1.name@ == auth_cookie_name@
            && p.1.value@ == spec_token_chars(keys.spec_secret(), spec_issued_claims(u.id, now))
            && p.1.secure && p.1.http_only)),
        (store_result matches Err(e) ==> r == Err::<(HttpResponse<UserRecord>, CookieDirective), HttpException>(
            HttpException::DbException(e),
        )),
{
    match store_result {
        Ok(user) => {
            let cookie = issue_cookie(keys, auth_cookie_name, user.id, now);
            Ok((HttpResponse::Json { payload: Some(user), message: None }, cookie))
        },
        Err(e) => Err(HttpException::DbException(e)),
    }
}

/// What logging in answers once the record store has looked the email up:
/// an unknown email is Not Found naming the email; a known identity with
/// the wrong password is the fixed Unauthorized answer; a match issues a
/// fresh credential cookie beside the row.
pub fn login(
    found: Option<UserRecord>,
    password: &str,
    email: &str,
    keys: &Keys,
    auth_cookie_name: &str,
    now: UnixTime,
) -> (r: Result<(HttpResponse<UserRecord>, CookieDirective), HttpException>)
    requires
        found matches Some(u) ==> now.secs + TOKEN_LIFETIME_SECS <= i64::MAX,
    ensures
        (found is None ==> (r matches Err(e) && e matches HttpException::NotFoundException(m)
            && m matches Some(s) && s@ == "No user found with email "@ + email@)),
        (found matches Some(u) ==> (if bcrypt_accepts(password@, u.password@) {
            r matches Ok(p) && (p.0 matches HttpResponse::Json { payload, message } && payload
                == Some(u) && message is None) && p.1.name@ == auth_cookie_name@ && p.1.value@
                == spec_token_chars(keys.spec_secret(), spec_issued_claims(u.id, now))
                && p.1.secure && p.1.http_only
        } else {
            r matches Err(e) && e matches HttpException::UnauthorizedException(m) && m matches Some(
                s,
            ) && s@ == "Invalid email or password"@
        })),
{
    let user = match found {
        Some(u) => u,
        None => {
            let mut m = String::from_str("No user found with email ");
            m.append(email);
            return Err(HttpException::NotFoundException(Some(m)));
        },
    };
    if !password_matches(password, user.password.as_str()) {
        return Err(
            HttpException::UnauthorizedException(
                Some(String::from_str("Invalid email or password")),
            ),
        );
    }
    let cookie = issue_cookie(keys, auth_cookie_name, user.id, now);
    Ok((HttpResponse::Json { payload: Some(user), message: None }, cookie))
}

/// What a signout answers: the credential cookie is removed and the
/// client is sent where it asked to go, or to the login page.
pub fn signout(input: RedirectParam, auth_cookie_name: &str) -> (r: (HttpResponse<()>, String))
    ensures
        (r.0 matches HttpResponse::RedirectTo { uri } && (match input.uri {
            Some(u) => uri@ == u@,
            None => uri@ == "/login"@,
        })),
        r.1@ == auth_cookie_name@,
{
    let uri = match input.uri {
        Some(u) => u,
        None => String::from_str("/login"),
    };
    (HttpResponse::RedirectTo { uri }, String::from_str(auth_cookie_name))
}

/// What a delete request decides: which identity row goes, and whether
/// the posts it owns go with it — the flag defaults to keeping them.
#[derive(Debug)]
pub struct DeletePlan {
    pub user_id: i32,
    pub delete_posts: bool,
}

/// The plan of a validated delete request.
pub fn delete_plan(param: &DeleteUserParam, dto: &DeleteUserDto) -> (r: DeletePlan)
    ensures
        r.user_id == param.id,
        r.delete_posts == (match dto.thoroughly {
            Some(b) => b,
            None => false,
        }),
{
    DeletePlan {
        user_id: param.id,
        delete_posts: match dto.thoroughly {
            Some(b) => b,
            None => false,
        },
    }
}

/// What a finished delete answers: a message naming the removed identity,
/// and the credential cookie to remove.
pub fn delete_done(user_id: i32, auth_cookie_name: &str) -> (r: (HttpResponse<()>, String))
    ensures
        (r.0 matches HttpResponse::Json { payload, message } && payload is None
            && (message matches Some(m) && m@ == "The user "@ + spec_ascii_chars(
            spec_int_digits(user_id as int),
        ) + " has been successfully deleted"@)),
        r.1@ == auth_cookie_name@,
{
    let mut db: Vec<u8> = Vec::new();
    push_dec_i64(&mut db, user_id as i64);
    proof {
        if user_id >= 0 {
            lemma_dec_digits_are_digits(user_id as nat);
            assert(db@ =~= spec_int_digits(user_id as int));
            assert(spec_all_ascii(db@));
        } else {
            lemma_dec_digits_are_digits((-(user_id as int)) as nat);
            assert(db@ =~= spec_int_digits(user_id as int));
            assert(spec_all_ascii(db@));
        }
    }
    let mut m = String::from_str("The user ");
    m.append(ascii_string(db).as_str());
    m.append(" has been successfully deleted");
    (
        (HttpResponse::Json { payload: None, message: Some(m) }),
        String::from_str(auth_cookie_name),
    )
}

/// What a post lookup answers once the record store has spoken: the row,
/// or Not Found naming the id.
pub fn get_one(found: Option<PostRecord>, id: i32) -> (r: Result<
    HttpResponse<PostRecord>,
    HttpException,
>)
    ensures
        (found matches Some(p) ==> (r matches Ok(resp) && (resp matches HttpResponse::Json {
            payload,
            message,
        } && payload == Some(p) && message is None))),
        (found is None ==> (r matches Err(e) && e matches HttpException::NotFoundException(m)
            && m matches Some(s) && s@ == "No post found with id "@ + spec_ascii_chars(
            spec_int_digits(id as int),
        ))),
{
    match found {
        Some(p) => Ok(HttpResponse::Json { payload: Some(p), message: None }),
        None => {
            let mut db: Vec<u8> = Vec::new();
            push_dec_i64(&mut db, id as i64);
            proof {
                if id >= 0 {
                    lemma_dec_digits_are_digits(id as nat);
                    assert(db@ =~= spec_int_digits(id as int));
                    assert(spec_all_ascii(db@));
                } else {
                    lemma_dec_digits_are_digits((-(id as int)) as nat);
                    assert(db@ =~= spec_int_digits(id as int));
                    assert(spec_all_ascii(db@));
                }
            }
            let mut m = String::from_str("No post found with id ");
            m.append(ascii_string(db).as_str());
            Err(HttpException::NotFoundException(Some(m)))
        },
    }
}

/// What listing an identity's posts answers once the store has filtered
/// them to the requesting identity: the rows as the document payload.
pub fn get_all(posts: Vec<PostRecord>) -> (r: HttpResponse<Vec<PostRecord>>)
    ensures
        (r matches HttpResponse::Json { payload, message } && payload == Some(posts) && message
            is None),
{
    HttpResponse::Json { payload: Some(posts), message: None }
}

/// What an unrouted request answers: Not Found naming the path.
pub fn fallback(uri: &str) -> (r: HttpException)
    ensures
        (r matches HttpException::NotFoundException(m) && m matches Some(s) && s@
            == "No route for "@ + uri@),
{
    let mut m = String::from_str("No route for ");
    m.append(uri);
    HttpException::NotFoundException(Some(m))
}

} // verus!
