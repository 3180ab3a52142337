//! Validation targets and their declarative rules. Each target structure
//! collects every violated rule, not just the first, so one answer names
//! everything the client has to fix.

use vstd::prelude::*;

verus! {

/// A request body that creates an identity.
#[derive(Debug)]
pub struct CreateUserDto {
    pub name: String,
    pub email: String,
    pub password: String,
}

/// A request body that presents login credentials.
#[derive(Debug)]
pub struct LoginUserDto {
    pub email: String,
    pub password: String,
}

/// A path segment naming the identity to delete.
#[derive(Debug)]
pub struct DeleteUserParam {
    pub id: i32,
}

/// A query flag: whether a delete also removes everything the identity
/// owns.
#[derive(Debug)]
pub struct DeleteUserDto {
    pub thoroughly: Option<bool>,
}

/// An optional location to send the client to afterwards.
#[derive(Debug)]
pub struct RedirectParam {
    pub uri: Option<String>,
}

/// A query naming one stored post.
#[derive(Debug)]
pub struct QueryPostDto {
    pub id: i32,
}

/// One violated rule: the field it concerns and the rule's fixed message.
#[derive(Debug)]
pub struct Violation {
    pub field: String,
    pub message: String,
}

/// Whether a character string is a well-formed email address, as the
/// validation library judges it.
pub uninterp spec fn email_ok(s: Seq<char>) -> bool;

/// Relies on validator::ValidateEmail::validate_email for str: a fixed
/// predicate of the characters alone; its first test rejects the empty
/// string outright.
#[verifier::external_body]
fn check_email(s: &str) -> (r: bool)
    ensures
        r == email_ok(s@),
        s@.len() == 0 ==> !r,
{
    validator::ValidateEmail::validate_email(&s)
}

/// One violation, by field and message.
fn violation(field: &str, message: &str) -> (r: Violation)
    ensures
        r.field@ == field@,
        r.message@ == message@,
{
    Violation { field: String::from_str(field), message: String::from_str(message) }
}

impl CreateUserDto {
    /// Is the name rule violated? The name must not be empty.
    pub open spec fn spec_name_bad(&self) -> bool {
        self.name@.len() == 0
    }

    /// Is the email rule violated?
    pub open spec fn spec_email_bad(&self) -> bool {
        !email_ok(self.email@)
    }

    /// Is the password rule violated? At least eight characters.
    pub open spec fn spec_password_bad(&self) -> bool {
        self.password@.len() < 8
    }

    /// Runs every declared rule and aggregates every violation, in field
    /// order, one entry with its fixed message per violated rule.
    pub fn validate(&self) -> (r: Vec<Violation>)
        ensures
            r@.len() == (if self.spec_name_bad() {
                1int
            } else {
                0
            }) + (if self.spec_email_bad() {
                1int
            } else {
                0
            }) + (if self.spec_password_bad() {
                1int
            } else {
                0
            }),
            self.spec_name_bad() ==> r@[0].field@ == "name"@ && r@[0].message@ == "Invalid name"@,
            self.spec_email_bad() ==> {
                let i = if self.spec_name_bad() {
                    1int
                } else {
                    0
                };
                r@[i].field@ == "email"@ && r@[i].message@ == "Invalid email"@
            },
            self.spec_password_bad() ==> {
                let i = (if self.spec_name_bad() {
                    1int
                } else {
                    0
                }) + (if self.spec_email_bad() {
                    1int
                } else {
                    0
                });
                r@[i].field@ == "password"@ && r@[i].message@ == "Invalid password"@
            },
    {
        let mut out: Vec<Violation> = Vec::new();
        if self.name.as_str().is_empty() {
            out.push(violation("name", "Invalid name"));
        }
        if !check_email(self.email.as_str()) {
            out.push(violation("email", "Invalid email"));
        }
        let pwlen = self.password.as_str().unicode_len();
        if pwlen < 8 {
            out.push(violation("password", "Invalid password"));
        }
        out
    }
}

impl LoginUserDto {
    /// Is the email rule violated?
    pub open spec fn spec_email_bad(&self) -> bool {
        !email_ok(self.email@)
    }

    /// Is the password rule violated? At least eight characters.
    pub open spec fn spec_password_bad(&self) -> bool {
        self.password@.len() < 8
    }

    /// Runs every declared rule and aggregates every violation.
    pub fn validate(&self) -> (r: Vec<Violation>)
        ensures
            r@.len() == (if self.spec_email_bad() {
                1int
            } else {
                0
            }) + (if self.spec_password_bad() {
                1int
            } else {
                0
            }),
            self.spec_email_bad() ==> r@[0].field@ == "email"@ && r@[0].message@
                == "Invalid email"@,
            self.spec_password_bad() ==> {
                let i = if self.spec_email_bad() {
                    1int
                } else {
                    0
                };
                r@[i].field@ == "password"@ && r@[i].message@ == "Invalid password"@
            },
    {
        let mut out: Vec<Violation> = Vec::new();
        if !check_email(self.email.as_str()) {
            out.push(violation("email", "Invalid email"));
        }
        let pwlen = self.password.as_str().unicode_len();
        if pwlen < 8 {
            out.push(violation("password", "Invalid password"));
        }
        out
    }
}

impl DeleteUserParam {
    /// Is the id rule violated? The id must be at least one.
    pub open spec fn spec_id_bad(&self) -> bool {
        self.id < 1
    }

    /// Runs the declared rule.
    pub fn validate(&self) -> (r: Vec<Violation>)
        ensures
            r@.len() == (if self.spec_id_bad() {
                1int
            } else {
                0
            }),
            self.spec_id_bad() ==> r@[0].field@ == "id"@ && r@[0].message@ == "Invalid id"@,
    {
        let mut out: Vec<Violation> = Vec::new();
        if self.id < 1 {
            out.push(violation("id", "Invalid id"));
        }
        out
    }
}

impl QueryPostDto {
    /// Is the id rule violated? The id must be at least one.
    pub open spec fn spec_id_bad(&self) -> bool {
        self.id < 1
    }

    /// Runs the declared rule.
    pub fn validate(&self) -> (r: Vec<Violation>)
        ensures
            r@.len() == (if self.spec_id_bad() {
                1int
            } else {
                0
            }),
            self.spec_id_bad() ==> r@[0].field@ == "id"@ && r@[0].message@ == "Invalid id"@,
    {
        let mut out: Vec<Violation> = Vec::new();
        if self.id < 1 {
            out.push(violation("id", "Invalid id"));
        }
        out
    }
}

impl DeleteUserDto {
    /// The structure declares no rules: validation never fails.
    pub fn validate(&self) -> (r: Vec<Violation>)
        ensures
            r@.len() == 0,
    {
        Vec::new()
    }
}

impl RedirectParam {
    /// The structure declares no rules: validation never fails.
    pub fn validate(&self) -> (r: Vec<Violation>)
        ensures
            r@.len() == 0,
    {
        Vec::new()
    }
}

} // verus!
