//! The front page.

use vstd::prelude::*;

use crate::routes::response::{OkResponse, StatusCode};

verus! {

/// Answers that the server is there.
pub fn frontpage() -> (answer: (StatusCode, OkResponse))
    ensures
        answer.0 == StatusCode::OK,
        answer.1.response@ == "OK"@,
{
    (StatusCode::OK, OkResponse::new())
}

} // verus!
