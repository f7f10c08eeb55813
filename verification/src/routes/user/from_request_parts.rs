//! The access boundary: from the key that a request carries to the operator
//! who sent it.

use vstd::prelude::*;

use crate::concepts::user::{with_hashed_key, User};
use crate::database::Database;
use crate::routes::response::{refusal, Refusal, StatusCode};
use crate::utils::random::{digest_hex, hash_string};
use crate::utils::search::first_item_where;

verus! {

/// The name of the header that carries the operator's key.
pub const API_KEY_HEADER: &'static str = "x-api-key";

/// The operator who sent a request that carries `key` in its key header, or
/// no key where `key` is `None`: the operator whose stored digest is that of
/// the key.
///
/// Refused as unauthorised: a request without a key, or with a key that is
/// no operator's.
pub fn from_request_parts(key: Option<&str>, db: &Database) -> (caller: Result<User, Refusal>)
    ensures
        match caller {
            Ok(user) => key matches Some(key) && first_item_where(
                db@.users,
                with_hashed_key(digest_hex(key@)),
            ) == Some(user@),
            Err((status, body)) => {
                &&& status == StatusCode::UNAUTHORIZED
                &&& body.response@ == "ERROR"@
                &&& body.text@ == "Unauthorised."@
                &&& key matches Some(key) ==> first_item_where(
                    db@.users,
                    with_hashed_key(digest_hex(key@)),
                ) is None
            },
        },
{
    match key {
        Some(key) => {
            let hashed_key = hash_string(key);
            match User::with_key(hashed_key.as_str(), db) {
                Some(user) => Ok(user),
                None => Err(refusal(StatusCode::UNAUTHORIZED, "Unauthorised.")),
            }
        },
        None => Err(refusal(StatusCode::UNAUTHORIZED, "Unauthorised.")),
    }
}

} // verus!
