//! The errors that requests end in, and the status and message each one
//! is answered with.
use crate::text::{decimal, push_decimal};
use crate::users::UserServiceError;
use vstd::prelude::*;
use vstd::string::*;

verus! {

#[verifier::external_type_specification]
#[verifier::external_body]
pub struct ExSqlxError(sqlx::Error);

/// Why a request failed.
#[derive(Debug)]
pub enum AppError {
    Database(sqlx::Error),
    Conflict(String),
    NotFound(String),
    Internal,
    Forbidden,
}

/// The message shown for failures whose detail stays in the logs.
pub open spec fn internal_message() -> Seq<char> {
    "Internal server error"@
}

impl AppError {
    /// The HTTP status code of the answer.
    pub open spec fn spec_status(&self) -> u16 {
        match self {
            AppError::Database(_) => 500,
            AppError::Conflict(_) => 409,
            AppError::NotFound(_) => 404,
            AppError::Internal => 500,
            AppError::Forbidden => 403,
        }
    }

    /// The text of the `error` field of the JSON answer.
    pub open spec fn spec_message(&self) -> Seq<char> {
        match self {
            AppError::Database(_) => internal_message(),
            AppError::Conflict(m) => m@,
            AppError::NotFound(m) => m@,
            AppError::Internal => internal_message(),
            AppError::Forbidden => "Forbidden"@,
        }
    }

    /// The HTTP status code of the answer.
    pub fn status(&self) -> (r: u16)
        ensures
            r == self.spec_status(),
            self is Database || self is Internal ==> r == 500,
            self is NotFound ==> r == 404,
            self is Conflict ==> r == 409,
            self is Forbidden ==> r == 403,
    {
        match self {
            AppError::Database(_) => 500,
            AppError::Conflict(_) => 409,
            AppError::NotFound(_) => 404,
            AppError::Internal => 500,
            AppError::Forbidden => 403,
        }
    }

    /// The text of the `error` field of the JSON answer.
    pub fn message(&self) -> (r: String)
        ensures
            r@ == self.spec_message(),
            self is Database || self is Internal ==> r@ == "Internal server error"@,
            self is NotFound ==> r@ == self->NotFound_0@,
            self is Conflict ==> r@ == self->Conflict_0@,
    {
        match self {
            AppError::Database(_) => String::from_str("Internal server error"),
            AppError::Conflict(m) => m.clone(),
            AppError::NotFound(m) => m.clone(),
            AppError::Internal => String::from_str("Internal server error"),
            AppError::Forbidden => String::from_str("Forbidden"),
        }
    }
}

/// A database failure is answered as an internal error: status 500 and a
/// message that tells nothing of the failure; a missing thing or a conflict
/// is answered with its own message.
pub proof fn lemma_failures_answered(e: AppError)
    ensures
        e is Database ==> e.spec_status() == 500 && e.spec_message() == "Internal server error"@,
        e is Internal ==> e.spec_status() == 500 && e.spec_message() == "Internal server error"@,
        e is NotFound ==> e.spec_status() == 404 && e.spec_message() == e->NotFound_0@,
        e is Conflict ==> e.spec_status() == 409 && e.spec_message() == e->Conflict_0@,
        e is Forbidden ==> e.spec_status() == 403,
{
}

/// The text `<prefix><id><suffix>`.
pub fn framed_id(prefix: &str, id: i64, suffix: &str) -> (r: String)
    ensures
        r@ == prefix@ + decimal(id as int) + suffix@,
{
    let mut s = String::from_str(prefix);
    push_decimal(&mut s, id);
    s.append(suffix);
    proof {
        r_assoc(prefix@, decimal(id as int), suffix@);
    }
    s
}

proof fn r_assoc(a: Seq<char>, b: Seq<char>, c: Seq<char>)
    ensures
        (a + b) + c == a + b + c,
{
}

/// The answer for a user id that no user has.
pub fn user_not_found(id: i64) -> (e: AppError)
    ensures
        e matches AppError::NotFound(m) && m@ == "User with id "@ + decimal(id as int)
            + " not found"@,
{
    AppError::NotFound(framed_id("User with id ", id, " not found"))
}

/// The answer for an invitation that is not open to the viewer.
pub fn invite_not_found(id: i64) -> (e: AppError)
    ensures
        e matches AppError::NotFound(m) && m@ == "Invite with id "@ + decimal(id as int)
            + " not found"@,
{
    AppError::NotFound(framed_id("Invite with id ", id, " not found"))
}

/// The answer for a file that the viewer may not or cannot fetch.
pub fn file_not_found(message_id: i64) -> (e: AppError)
    ensures
        e matches AppError::NotFound(m) && m@ == "File for message "@ + decimal(
            message_id as int,
        ) + " not found"@,
{
    AppError::NotFound(framed_id("File for message ", message_id, " not found"))
}

impl AppError {
    /// How a failure of the user service is answered: a duplicate email is a
    /// conflict, a database failure stays one, anything else is internal.
    pub fn from_service(err: UserServiceError) -> (r: AppError)
        ensures
            match err {
                UserServiceError::Database(e) => r == AppError::Database(e),
                UserServiceError::DuplicateEmail => r matches AppError::Conflict(m) && m@
                    == "Email already exists."@,
                UserServiceError::InvalidCredentials => r == AppError::Internal,
                UserServiceError::PasswordHash(_) => r == AppError::Internal,
            },
    {
        match err {
            UserServiceError::Database(e) => AppError::Database(e),
            UserServiceError::DuplicateEmail => AppError::Conflict(
                String::from_str("Email already exists."),
            ),
            UserServiceError::InvalidCredentials => AppError::Internal,
            UserServiceError::PasswordHash(_) => AppError::Internal,
        }
    }
}

} // verus!
