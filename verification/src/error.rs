//! Errors of the service and the answer each one gets.

use vstd::prelude::*;
use crate::auth::{AuthLevel, level_name_spec, level_name};

verus! {

/// Route error, presented to the user through [`Error::into_response`].
#[derive(Debug, PartialEq, Eq)]
pub enum Error {
    /// A static file that does not exist; holds the requested path.
    FileNotFound(String),
    /// The database failed; holds the database's own description of it.
    DatabaseError(String),
    /// A group name outside `[0-9a-z]+`; holds the name.
    InvalidGroupFormat(String),
    /// The keys could not be taken from the request extension; holds the reason.
    KeysExtension(String),
    /// The request carried no token.
    AuthRequired,
    /// The token was refused; holds the token library's reason.
    Token(String),
    /// The token's level is below what the endpoint asks.
    InsufficientPrivilege { expected: AuthLevel, got: AuthLevel },
}

/// An HTTP answer to an error: its status code and its plain-text body.
#[derive(Debug, PartialEq, Eq)]
pub struct ErrorResponse {
    pub status: u16,
    pub body: String,
}

pub const STATUS_BAD_REQUEST: u16 = 400;
pub const STATUS_UNAUTHORIZED: u16 = 401;
pub const STATUS_NOT_FOUND: u16 = 404;
pub const STATUS_INTERNAL_SERVER_ERROR: u16 = 500;

/// The Rust `Debug` rendering of a string: the text between double quotes,
/// with the characters that `str::escape_debug` escapes escaped.
pub uninterp spec fn debug_text(s: Seq<char>) -> Seq<char>;

/// Calls `format!("{:?}", s)` (std's `Debug` for `str`).
/// Claimed: the result is `debug_text` of the argument, a function of the text alone.
#[verifier::external_body]
fn debug_quoted(s: &str) -> (r: String)
    ensures
        r@ == debug_text(s@),
{
    format!("{:?}", s)
}

/// The status code each error is answered with.
pub open spec fn status_spec(e: Error) -> u16 {
    match e {
        Error::InvalidGroupFormat(_) => STATUS_BAD_REQUEST,
        Error::FileNotFound(_) => STATUS_NOT_FOUND,
        Error::DatabaseError(_) | Error::KeysExtension(_) => STATUS_INTERNAL_SERVER_ERROR,
        Error::AuthRequired | Error::Token(_) | Error::InsufficientPrivilege { .. } => STATUS_UNAUTHORIZED,
    }
}

/// The text each error is shown with.
pub open spec fn message_spec(e: Error) -> Seq<char> {
    match e {
        Error::FileNotFound(path) => "File "@ + debug_text(path@) + " not found"@,
        Error::DatabaseError(_) => "Database error"@,
        Error::InvalidGroupFormat(_) => "Invalid group format"@,
        Error::KeysExtension(reason) => "Failed to acquire keys from request extension: "@ + reason@,
        Error::AuthRequired => "Missing cookie or token"@,
        Error::Token(reason) => "JSON web token error: "@ + reason@,
        Error::InsufficientPrivilege { expected, got } =>
            "Level "@ + level_name_spec(got) + " attempted action requiring "@ + level_name_spec(expected),
    }
}

/// Whether an error is one of those that refuse a request for want of authorization.
pub open spec fn is_auth_error(e: Error) -> bool {
    e is AuthRequired || e is Token || e is InsufficientPrivilege
}

impl Error {
    /// The HTTP status code of this error.
    pub fn status_code(&self) -> (r: u16)
        ensures
            r == status_spec(*self),
    {
        match self {
            Error::InvalidGroupFormat(_) => STATUS_BAD_REQUEST,
            Error::FileNotFound(_) => STATUS_NOT_FOUND,
            Error::DatabaseError(_) | Error::KeysExtension(_) => STATUS_INTERNAL_SERVER_ERROR,
            Error::AuthRequired | Error::Token(_) | Error::InsufficientPrivilege { .. } => STATUS_UNAUTHORIZED,
        }
    }

    /// The text of this error, as shown to the user.
    pub fn message(&self) -> (r: String)
        ensures
            r@ == message_spec(*self),
    {
        match self {
            Error::FileNotFound(path) => {
                let s = String::from_str("File ");
                let s = s.concat(debug_quoted(path.as_str()).as_str());
                s.concat(" not found")
            },
            Error::DatabaseError(_) => String::from_str("Database error"),
            Error::InvalidGroupFormat(_) => String::from_str("Invalid group format"),
            Error::KeysExtension(reason) => {
                let s = String::from_str("Failed to acquire keys from request extension: ");
                s.concat(reason.as_str())
            },
            Error::AuthRequired => String::from_str("Missing cookie or token"),
            Error::Token(reason) => {
                let s = String::from_str("JSON web token error: ");
                s.concat(reason.as_str())
            },
            Error::InsufficientPrivilege { expected, got } => {
                let s = String::from_str("Level ");
                let s = s.concat(level_name(*got));
                let s = s.concat(" attempted action requiring ");
                s.concat(level_name(*expected))
            },
        }
    }

    /// The answer to this error: its status code, with its text as the body.
    pub fn into_response(self) -> (r: ErrorResponse)
        ensures
            r.status == status_spec(self),
            r.body@ == message_spec(self),
    {
        let status = self.status_code();
        let body = self.message();
        ErrorResponse { status, body }
    }
}

/// The status is decided by the kind of error alone, never by what it holds:
/// a refused group name is always 400, whatever the name; a missing file always
/// 404; a database or extension failure always 500; a refused token always 401.
pub proof fn lemma_status_is_decided_by_kind(e1: Error, e2: Error)
    ensures
        e1 is InvalidGroupFormat ==> status_spec(e1) == STATUS_BAD_REQUEST,
        e1 is FileNotFound ==> status_spec(e1) == STATUS_NOT_FOUND,
        e1 is DatabaseError || e1 is KeysExtension ==> status_spec(e1) == STATUS_INTERNAL_SERVER_ERROR,
        is_auth_error(e1) ==> status_spec(e1) == STATUS_UNAUTHORIZED,
        e1 is InvalidGroupFormat && e2 is InvalidGroupFormat ==> status_spec(e1) == status_spec(e2),
        e1 is Token && e2 is Token ==> status_spec(e1) == status_spec(e2),
        e1 is InsufficientPrivilege && e2 is InsufficientPrivilege ==> status_spec(e1) == status_spec(e2),
{
}

/// Every error is answered with a client or server error status (400 to 599),
/// and exactly the authorization errors are answered with 401.
pub proof fn lemma_error_status_is_failure(e: Error)
    ensures
        400 <= status_spec(e) < 600,
        status_spec(e) == STATUS_UNAUTHORIZED <==> is_auth_error(e),
{
}

} // verus!
