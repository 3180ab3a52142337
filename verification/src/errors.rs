//! The closed error taxonomy: every failure a guard, an extractor or the
//! record store produces maps to exactly one HTTP status and one message.

use vstd::prelude::*;
use vstd::string::StringSliceAdditionalSpecFns;
use crate::numdec::push_dec_u64;
use crate::numdec::spec_dec_digits;

verus! {

/// The hexadecimal digit of a value below sixteen, lower case.
pub open spec fn spec_hex_digit(v: int) -> u8 {
    if v < 10 {
        (48 + v) as u8
    } else {
        (97 + (v - 10)) as u8
    }
}

/// How one byte of a message is written inside a JSON string: quote,
/// backslash and the named control characters get a two-byte escape, other
/// control bytes a `\u00..` escape, everything else stands as it is.
pub open spec fn spec_escape_byte(b: u8) -> Seq<u8> {
    if b == 34 {
        seq![92u8, 34]
    } else if b == 92 {
        seq![92u8, 92]
    } else if b == 10 {
        seq![92u8, 110]
    } else if b == 13 {
        seq![92u8, 114]
    } else if b == 9 {
        seq![92u8, 116]
    } else if b < 32 {
        seq![92u8, 117, 48, 48, spec_hex_digit(b as int / 16), spec_hex_digit(b as int % 16)]
    } else {
        seq![b]
    }
}

/// A message escaped for a JSON string, byte by byte.
pub open spec fn spec_escape_bytes(s: Seq<u8>) -> Seq<u8>
    decreases s.len(),
{
    if s.len() == 0 {
        Seq::empty()
    } else {
        spec_escape_byte(s[0]) + spec_escape_bytes(s.drop_first())
    }
}

/// The bytes of `{"statusCode":`.
pub open spec fn spec_lit_status_code() -> Seq<u8> {
    seq![123u8, 34, 115, 116, 97, 116, 117, 115, 67, 111, 100, 101, 34, 58]
}

/// The bytes of `,"message":"`.
pub open spec fn spec_lit_message() -> Seq<u8> {
    seq![44u8, 34, 109, 101, 115, 115, 97, 103, 101, 34, 58, 34]
}

/// The uniform JSON error body: `{"statusCode":<status>,"message":"<msg>"}`.
pub open spec fn spec_error_body(status: int, msg: Seq<u8>) -> Seq<u8> {
    spec_lit_status_code() + spec_dec_digits(status as nat) + spec_lit_message()
        + spec_escape_bytes(msg) + seq![34u8, 125]
}

/// Appends the escaped form of every byte of `msg`.
pub(crate) fn push_escaped(out: &mut Vec<u8>, msg: &Vec<u8>)
    ensures
        final(out)@ == old(out)@ + spec_escape_bytes(msg@),
{
    let mut i: usize = 0;
    proof {
        assert(msg@.skip(0) =~= msg@);
        assert(old(out)@ + spec_escape_bytes(msg@) =~= old(out)@ + spec_escape_bytes(msg@));
    }
    while i < msg.len()
        invariant
            i <= msg@.len(),
            old(out)@ + spec_escape_bytes(msg@) == out@ + spec_escape_bytes(msg@.skip(i as int)),
        decreases msg@.len() - i,
    {
        let b = msg[i];
        proof {
            assert(msg@.skip(i as int)[0] == b);
            assert(msg@.skip(i as int).drop_first() =~= msg@.skip(i + 1));
        }
        if b == 34 {
            out.push(92);
            out.push(34);
        } else if b == 92 {
            out.push(92);
            out.push(92);
        } else if b == 10 {
            out.push(92);
            out.push(110);
        } else if b == 13 {
            out.push(92);
            out.push(114);
        } else if b == 9 {
            out.push(92);
            out.push(116);
        } else if b < 32 {
            out.push(92);
            out.push(117);
            out.push(48);
            out.push(48);
            let hi = b / 16;
            let lo = b % 16;
            out.push(if hi < 10 {
                48 + hi
            } else {
                97 + (hi - 10)
            });
            out.push(if lo < 10 {
                48 + lo
            } else {
                97 + (lo - 10)
            });
        } else {
            out.push(b);
        }
        proof {
            assert(old(out)@ + spec_escape_bytes(msg@) =~= out@ + spec_escape_bytes(
                msg@.skip(i + 1),
            ));
        }
        i = i + 1;
    }
    proof {
        assert(msg@.skip(msg@.len() as int) =~= Seq::<u8>::empty());
        assert(final(out)@ =~= old(out)@ + spec_escape_bytes(msg@));
    }
}

/// The uniform JSON error body for a status and a message.
pub fn error_body(status: u16, message: &str) -> (r: Vec<u8>)
    ensures
        r@ == spec_error_body(status as int, message.spec_bytes()),
{
    let mut out: Vec<u8> = Vec::new();
    out.push(123);
    out.push(34);
    out.push(115);
    out.push(116);
    out.push(97);
    out.push(116);
    out.push(117);
    out.push(115);
    out.push(67);
    out.push(111);
    out.push(100);
    out.push(101);
    out.push(34);
    out.push(58);
    push_dec_u64(&mut out, status as u64);
    out.push(44);
    out.push(34);
    out.push(109);
    out.push(101);
    out.push(115);
    out.push(115);
    out.push(97);
    out.push(103);
    out.push(101);
    out.push(34);
    out.push(58);
    out.push(34);
    let mb = message.as_bytes_vec();
    push_escaped(&mut out, &mb);
    out.push(34);
    out.push(125);
    proof {
        assert(out@ =~= spec_error_body(status as int, message.spec_bytes()));
    }
    out
}

/// Classification of a record-store failure, as read off the store's error
/// value at the boundary. A uniqueness or foreign-key constraint violation is
/// client-attributable and carries the store's own detail message; every
/// other store failure is internal.
#[derive(Debug, Clone)]
pub enum StoreError {
    /// A unique-constraint violation, with the store's detail message.
    UniqueViolation(String),
    /// A foreign-key-constraint violation, with the store's detail message.
    ForeignKeyViolation(String),
    /// Some other constraint or SQL-level failure the store classified.
    OtherSql(String),
    /// A store failure with no classification (connectivity, pool, ...),
    /// carrying the raw detail for the log; the client never sees it.
    Other(String),
}

/// The closed set of outward failure kinds. Each carries an optional message
/// override; without one the kind's fixed default message is used.
#[derive(Debug, Clone)]
pub enum HttpException {
    BadRequestException(Option<String>),
    UnauthorizedException(Option<String>),
    ForbiddenException(Option<String>),
    NotFoundException(Option<String>),
    MethodNotAllowedException(Option<String>),
    NotAcceptableException(Option<String>),
    RequestTimeoutException(Option<String>),
    ConflictException(Option<String>),
    GoneException(Option<String>),
    PreconditionFailedException(Option<String>),
    PayloadTooLargeException(Option<String>),
    UnsupportedMediaTypeException(Option<String>),
    ImATeapotException(Option<String>),
    UnprocessableEntityException(Option<String>),
    InternalServerErrorException(Option<String>),
    NotImplementedException(Option<String>),
    BadGatewayException(Option<String>),
    ServiceUnavailableException(Option<String>),
    GatewayTimeoutException(Option<String>),
    HttpVersionNotSupportedException(Option<String>),
    /// Pass-through wrapper for record-store errors, classified at the
    /// boundary by the constraint table of `spec_status`.
    DbException(StoreError),
}

impl StoreError {
    /// The outward status of a store failure: a unique or foreign-key
    /// constraint violation is the client's fault (400), anything else is
    /// internal (500).
    pub open spec fn spec_status(&self) -> int {
        match self {
            StoreError::UniqueViolation(_) => 400,
            StoreError::ForeignKeyViolation(_) => 400,
            StoreError::OtherSql(_) => 500,
            StoreError::Other(_) => 500,
        }
    }

    /// The outward message: the store's detail for a constraint violation,
    /// and a fixed generic message for everything internal. The raw detail
    /// of an unclassified failure is for the log (`detail`), never for the
    /// client.
    pub open spec fn spec_message(&self) -> Seq<char> {
        match self {
            StoreError::UniqueViolation(m) => m@,
            StoreError::ForeignKeyViolation(m) => m@,
            StoreError::OtherSql(_) => "Unknown Database Error"@,
            StoreError::Other(_) => "Internal Server Error"@,
        }
    }

    /// The detail the store reported, whatever the classification: what a
    /// log line carries.
    pub open spec fn spec_detail(&self) -> Seq<char> {
        match self {
            StoreError::UniqueViolation(m) => m@,
            StoreError::ForeignKeyViolation(m) => m@,
            StoreError::OtherSql(m) => m@,
            StoreError::Other(m) => m@,
        }
    }

    /// The detail the store reported, for the log.
    pub fn detail(&self) -> (r: String)
        ensures
            r@ == self.spec_detail(),
    {
        match self {
            StoreError::UniqueViolation(m) => m.clone(),
            StoreError::ForeignKeyViolation(m) => m.clone(),
            StoreError::OtherSql(m) => m.clone(),
            StoreError::Other(m) => m.clone(),
        }
    }
}

impl HttpException {
    /// The fixed status of each kind.
    pub open spec fn spec_status(&self) -> int {
        match self {
            HttpException::BadRequestException(_) => 400,
            HttpException::UnauthorizedException(_) => 401,
            HttpException::ForbiddenException(_) => 403,
            HttpException::NotFoundException(_) => 404,
            HttpException::MethodNotAllowedException(_) => 405,
            HttpException::NotAcceptableException(_) => 406,
            HttpException::RequestTimeoutException(_) => 408,
            HttpException::ConflictException(_) => 409,
            HttpException::GoneException(_) => 410,
            HttpException::PreconditionFailedException(_) => 412,
            HttpException::PayloadTooLargeException(_) => 413,
            HttpException::UnsupportedMediaTypeException(_) => 415,
            HttpException::ImATeapotException(_) => 418,
            HttpException::UnprocessableEntityException(_) => 422,
            HttpException::InternalServerErrorException(_) => 500,
            HttpException::NotImplementedException(_) => 501,
            HttpException::BadGatewayException(_) => 502,
            HttpException::ServiceUnavailableException(_) => 503,
            HttpException::GatewayTimeoutException(_) => 504,
            HttpException::HttpVersionNotSupportedException(_) => 505,
            HttpException::DbException(e) => e.spec_status(),
        }
    }

    /// The fixed default message of each kind; for a store error, the
    /// message the constraint table assigns.
    pub open spec fn spec_default_message(&self) -> Seq<char> {
        match self {
            HttpException::BadRequestException(_) => "Bad Request"@,
            HttpException::UnauthorizedException(_) => "Unauthorized"@,
            HttpException::ForbiddenException(_) => "Forbidden"@,
            HttpException::NotFoundException(_) => "Not Found"@,
            HttpException::MethodNotAllowedException(_) => "Method Not Allowed"@,
            HttpException::NotAcceptableException(_) => "Not Acceptable"@,
            HttpException::RequestTimeoutException(_) => "Request Timeout"@,
            HttpException::ConflictException(_) => "Conflict"@,
            HttpException::GoneException(_) => "Gone"@,
            HttpException::PreconditionFailedException(_) => "Precondition Failed"@,
            HttpException::PayloadTooLargeException(_) => "Payload Too Large"@,
            HttpException::UnsupportedMediaTypeException(_) => "Unsupported Media Type"@,
            HttpException::ImATeapotException(_) => "I'm a teapot"@,
            HttpException::UnprocessableEntityException(_) => "Unprocessable Entity"@,
            HttpException::InternalServerErrorException(_) => "Internal Server Error"@,
            HttpException::NotImplementedException(_) => "Not Implemented"@,
            HttpException::BadGatewayException(_) => "Bad Gateway"@,
            HttpException::ServiceUnavailableException(_) => "Service Unavailable"@,
            HttpException::GatewayTimeoutException(_) => "Gateway Timeout"@,
            HttpException::HttpVersionNotSupportedException(_) => "HTTP Version Not Supported"@,
            HttpException::DbException(e) => e.spec_message(),
        }
    }

    /// The message override carried by the kind, if any. A store error
    /// carries none: its message always comes from the constraint table.
    pub open spec fn spec_override(&self) -> Option<Seq<char>> {
        match self {
            HttpException::BadRequestException(m) => spec_opt_view(m),
            HttpException::UnauthorizedException(m) => spec_opt_view(m),
            HttpException::ForbiddenException(m) => spec_opt_view(m),
            HttpException::NotFoundException(m) => spec_opt_view(m),
            HttpException::MethodNotAllowedException(m) => spec_opt_view(m),
            HttpException::NotAcceptableException(m) => spec_opt_view(m),
            HttpException::RequestTimeoutException(m) => spec_opt_view(m),
            HttpException::ConflictException(m) => spec_opt_view(m),
            HttpException::GoneException(m) => spec_opt_view(m),
            HttpException::PreconditionFailedException(m) => spec_opt_view(m),
            HttpException::PayloadTooLargeException(m) => spec_opt_view(m),
            HttpException::UnsupportedMediaTypeException(m) => spec_opt_view(m),
            HttpException::ImATeapotException(m) => spec_opt_view(m),
            HttpException::UnprocessableEntityException(m) => spec_opt_view(m),
            HttpException::InternalServerErrorException(m) => spec_opt_view(m),
            HttpException::NotImplementedException(m) => spec_opt_view(m),
            HttpException::BadGatewayException(m) => spec_opt_view(m),
            HttpException::ServiceUnavailableException(m) => spec_opt_view(m),
            HttpException::GatewayTimeoutException(m) => spec_opt_view(m),
            HttpException::HttpVersionNotSupportedException(m) => spec_opt_view(m),
            HttpException::DbException(_) => None,
        }
    }

    /// The message the response carries: the override when present, the
    /// kind's default otherwise.
    pub open spec fn spec_outward_message(&self) -> Seq<char> {
        match self.spec_override() {
            Some(m) => m,
            None => self.spec_default_message(),
        }
    }

    /// The status and the default message of this kind, by the fixed table.
    pub fn status_and_default_message(&self) -> (r: (u16, String))
        ensures
            r.0 == self.spec_status(),
            r.1@ == self.spec_default_message(),
    {
        match self {
            HttpException::BadRequestException(_) => (400, String::from_str("Bad Request")),
            HttpException::UnauthorizedException(_) => (401, String::from_str("Unauthorized")),
            HttpException::ForbiddenException(_) => (403, String::from_str("Forbidden")),
            HttpException::NotFoundException(_) => (404, String::from_str("Not Found")),
            HttpException::MethodNotAllowedException(_) => (
                405,
                String::from_str("Method Not Allowed"),
            ),
            HttpException::NotAcceptableException(_) => (406, String::from_str("Not Acceptable")),
            HttpException::RequestTimeoutException(_) => (408, String::from_str("Request Timeout")),
            HttpException::ConflictException(_) => (409, String::from_str("Conflict")),
            HttpException::GoneException(_) => (410, String::from_str("Gone")),
            HttpException::PreconditionFailedException(_) => (
                412,
                String::from_str("Precondition Failed"),
            ),
            HttpException::PayloadTooLargeException(_) => (
                413,
                String::from_str("Payload Too Large"),
            ),
            HttpException::UnsupportedMediaTypeException(_) => (
                415,
                String::from_str("Unsupported Media Type"),
            ),
            HttpException::ImATeapotException(_) => (418, String::from_str("I'm a teapot")),
            HttpException::UnprocessableEntityException(_) => (
                422,
                String::from_str("Unprocessable Entity"),
            ),
            HttpException::InternalServerErrorException(_) => (
                500,
                String::from_str("Internal Server Error"),
            ),
            HttpException::NotImplementedException(_) => (501, String::from_str("Not Implemented")),
            HttpException::BadGatewayException(_) => (502, String::from_str("Bad Gateway")),
            HttpException::ServiceUnavailableException(_) => (
                503,
                String::from_str("Service Unavailable"),
            ),
            HttpException::GatewayTimeoutException(_) => (504, String::from_str("Gateway Timeout")),
            HttpException::HttpVersionNotSupportedException(_) => (
                505,
                String::from_str("HTTP Version Not Supported"),
            ),
            HttpException::DbException(e) => match e {
                StoreError::UniqueViolation(m) => (400, m.clone()),
                StoreError::ForeignKeyViolation(m) => (400, m.clone()),
                StoreError::OtherSql(_) => (500, String::from_str("Unknown Database Error")),
                StoreError::Other(_) => (500, String::from_str("Internal Server Error")),
            },
        }
    }

    /// The status and outward message of this failure: the override when one
    /// was given, the kind's default otherwise.
    pub fn response_parts(self) -> (r: (u16, String))
        ensures
            r.0 == self.spec_status(),
            r.1@ == self.spec_outward_message(),
    {
        let (status, default_message) = self.status_and_default_message();
        let message = match self {
            HttpException::BadRequestException(Some(m)) => m,
            HttpException::UnauthorizedException(Some(m)) => m,
            HttpException::ForbiddenException(Some(m)) => m,
            HttpException::NotFoundException(Some(m)) => m,
            HttpException::MethodNotAllowedException(Some(m)) => m,
            HttpException::NotAcceptableException(Some(m)) => m,
            HttpException::RequestTimeoutException(Some(m)) => m,
            HttpException::ConflictException(Some(m)) => m,
            HttpException::GoneException(Some(m)) => m,
            HttpException::PreconditionFailedException(Some(m)) => m,
            HttpException::PayloadTooLargeException(Some(m)) => m,
            HttpException::UnsupportedMediaTypeException(Some(m)) => m,
            HttpException::ImATeapotException(Some(m)) => m,
            HttpException::UnprocessableEntityException(Some(m)) => m,
            HttpException::InternalServerErrorException(Some(m)) => m,
            HttpException::NotImplementedException(Some(m)) => m,
            HttpException::BadGatewayException(Some(m)) => m,
            HttpException::ServiceUnavailableException(Some(m)) => m,
            HttpException::GatewayTimeoutException(Some(m)) => m,
            HttpException::HttpVersionNotSupportedException(Some(m)) => m,
            _ => default_message,
        };
        (status, message)
    }
}

impl HttpException {
    /// The status and the uniform JSON body of this failure: the status of
    /// the kind, and `{"statusCode":...,"message":"..."}` carrying the
    /// outward message.
    pub fn into_response(self) -> (r: (u16, Vec<u8>))
        ensures
            r.0 == self.spec_status(),
            r.1@ == spec_error_body(
                self.spec_status(),
                vstd::utf8::encode_utf8(self.spec_outward_message()),
            ),
    {
        let ghost me = self;
        let (status, message) = self.response_parts();
        let body = error_body(status, message.as_str());
        (status, body)
    }
}

/// The view of an optional owned string, as an optional character sequence.
pub open spec fn spec_opt_view(m: &Option<String>) -> Option<Seq<char>> {
    match m {
        Some(s) => Some(s@),
        None => None,
    }
}

} // verus!
