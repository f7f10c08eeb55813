//! Stopping the server.

use vstd::prelude::*;

use crate::concepts::user::User;
use crate::routes::response::{refusal, OkResponse, Refusal, StatusCode};

verus! {

/// The seconds that a stopping server gives its open requests.
pub const SHUTDOWN_GRACE_SECS: u64 = 5;

/// Whether `user` may stop the server: administrators may. The caller stops
/// the server on `Ok`.
pub fn halt(user: &User) -> (answer: Result<(StatusCode, OkResponse), Refusal>)
    ensures
        match answer {
            Ok((status, body)) => user@.admin && status == StatusCode::OK && body.response@
                == "OK"@,
            Err((status, body)) => !user@.admin && status == StatusCode::UNAUTHORIZED
                && body.response@ == "ERROR"@ && body.text@ == "Unauthorised."@,
        },
{
    if user.admin {
        Ok((StatusCode::OK, OkResponse::new()))
    } else {
        Err(refusal(StatusCode::UNAUTHORIZED, "Unauthorised."))
    }
}

} // verus!
