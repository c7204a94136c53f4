//! The error that a refused request is answered with: an HTTP status and a message.
use vstd::prelude::*;

verus! {

/// An HTTP status code and the message sent with it.
#[derive(Debug)]
pub struct ApiError {
    pub status: u16,
    pub message: String,
}

impl ApiError {
    pub fn new(status: u16, message: &str) -> (e: ApiError)
        ensures
            e.status == status,
            e.message@ == message@,
    {
        ApiError { status, message: message.to_string() }
    }

    pub fn from_chars(status: u16, message: &Vec<char>) -> (e: ApiError)
        ensures
            e.status == status,
            e.message@ == message@,
    {
        ApiError { status, message: crate::text::string_of(message) }
    }
}

/// A failure of the server itself (a database, the file system, a task):
/// answered 500.
pub fn internal() -> (e: ApiError)
    ensures
        is_error(e, 500, "Internal server error"@),
{
    ApiError::new(500, "Internal server error")
}

/// A failed insert or update whose database error text mentions `UNIQUE`
/// (a uniqueness constraint) is a conflict, answered 409 with `message`;
/// any other database error is not decided here.
pub fn unique_conflict(db_error: &str, message: &str) -> (r: Option<ApiError>)
    ensures
        crate::text::contains_seq(db_error@, "UNIQUE"@) ==> (r matches Some(e) && is_error(e, 409, message@)),
        !crate::text::contains_seq(db_error@, "UNIQUE"@) ==> r is None,
{
    if crate::text::contains_vec(&crate::text::chars_of(db_error), &crate::text::chars_of("UNIQUE")) {
        Some(ApiError::new(409, message))
    } else {
        None
    }
}

/// The error is `status` with message `msg`.
pub open spec fn is_error(e: ApiError, status: u16, msg: Seq<char>) -> bool {
    e.status == status && e.message@ == msg
}

} // verus!
