//! Errors as they are answered: a text and an HTTP status.

use vstd::prelude::*;

verus! {

/// An error with the status that it is answered with.
#[derive(Debug)]
pub struct AppError {
    pub error: String,
    pub status: u16,
}

impl AppError {
    /// An error answered with `status`.
    pub fn new(error: String, status: u16) -> (e: AppError)
        ensures
            e.error == error,
            e.status == status,
    {
        AppError { error, status }
    }

    /// Whether this is the error of the given text and status.
    pub open spec fn says(self, status: u16, text: Seq<char>) -> bool {
        self.status == status && self.error@ == text
    }
}

/// 500 Internal Server Error.
pub fn e500(error: String) -> (e: AppError)
    ensures
        e.says(500, error@),
{
    AppError::new(error, 500)
}

/// 400 Bad Request.
pub fn e400(error: String) -> (e: AppError)
    ensures
        e.says(400, error@),
{
    AppError::new(error, 400)
}

/// 401 Unauthorized.
pub fn e401(error: String) -> (e: AppError)
    ensures
        e.says(401, error@),
{
    AppError::new(error, 401)
}

/// 404 Not Found.
pub fn e404(error: String) -> (e: AppError)
    ensures
        e.says(404, error@),
{
    AppError::new(error, 404)
}

/// 413 Payload Too Large.
pub fn e413(error: String) -> (e: AppError)
    ensures
        e.says(413, error@),
{
    AppError::new(error, 413)
}

/// 416 Range Not Satisfiable.
pub fn e416(error: String) -> (e: AppError)
    ensures
        e.says(416, error@),
{
    AppError::new(error, 416)
}

/// An error says one status and one text.
pub proof fn law_error_says_its_status_and_text(e: AppError, status: u16, text: Seq<char>)
    ensures
        e.says(e.status, e.error@),
        e.says(status, text) ==> e.status == status && e.error@ == text,
{
}

} // verus!
