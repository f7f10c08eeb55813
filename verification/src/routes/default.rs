//! Answers to requests that no route takes, and to failures that the
//! transport reports.

use vstd::prelude::*;

use crate::routes::response::{refusal, Refusal, StatusCode};
use crate::utils::text::Text;

verus! {

/// The seconds that a request may take.
pub const REQUEST_TIMEOUT_SECS: u64 = 5;

/// The answer to a request for a path that no route takes.
pub fn default() -> (answer: Refusal)
    ensures
        answer.0 == StatusCode::NOT_FOUND,
        answer.1.response@ == "ERROR"@,
        answer.1.text@ == "Not found."@,
{
    refusal(StatusCode::NOT_FOUND, "Not found.")
}

/// The explanation that replaces the transport's own body under the status
/// `status`, if one does.
pub open spec fn transformed(status: int) -> Option<(StatusCode, Text)> {
    if status == 405 {
        Some((StatusCode::METHOD_NOT_ALLOWED, "Method not allowed."@))
    } else if status == 422 {
        Some(
            (
                StatusCode::UNPROCESSABLE_ENTITY,
                "The given data is missing a field or is otherwise unprocessable."@,
            ),
        )
    } else {
        None
    }
}

/// The answer that replaces a response of the transport with the status
/// `status`: one for a method that the route does not allow, one for a body
/// that could not be read, and none otherwise.
pub fn error_transformer(status: u16) -> (answer: Option<Refusal>)
    ensures
        match answer {
            Some((code, body)) => transformed(status as int) == Some((code, body.text@))
                && body.response@ == "ERROR"@ && code.code() == status,
            None => transformed(status as int) is None,
        },
{
    if status == 405 {
        Some(refusal(StatusCode::METHOD_NOT_ALLOWED, "Method not allowed."))
    } else if status == 422 {
        Some(
            refusal(
                StatusCode::UNPROCESSABLE_ENTITY,
                "The given data is missing a field or is otherwise unprocessable.",
            ),
        )
    } else {
        None
    }
}

/// The answer to a request that failed in the transport: it timed out, or it
/// failed otherwise.
pub fn error_handler(timed_out: bool) -> (answer: Refusal)
    ensures
        answer.1.response@ == "ERROR"@,
        timed_out ==> answer.0 == StatusCode::REQUEST_TIMEOUT && answer.1.text@
            == "Request timed out."@,
        !timed_out ==> answer.0 == StatusCode::INTERNAL_SERVER_ERROR && answer.1.text@
            == "Internal server error."@,
{
    if timed_out {
        refusal(StatusCode::REQUEST_TIMEOUT, "Request timed out.")
    } else {
        refusal(StatusCode::INTERNAL_SERVER_ERROR, "Internal server error.")
    }
}

} // verus!
