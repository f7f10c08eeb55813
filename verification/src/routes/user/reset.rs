//! Replacing an operator's key.

use vstd::prelude::*;

use crate::concepts::user::{with_hashed_key, User, UserView};
use crate::database::{
    lemma_operators_stay, lemma_update_keeps_operators, Database, DatabaseView,
};
use crate::routes::response::{refusal, Refusal, ResetResponse, StatusCode};
use crate::utils::random::{digest_hex, hash_string, is_credential, new_key};
use crate::utils::search::{
    any_where, first_where, lemma_first_where, lemma_first_where_is, lemma_first_where_none,
};
use crate::utils::text::{lemma_deep_view_update, Text};

verus! {

/// Why a key is not replaced, if it is not: the status and the explanation.
pub open spec fn reset_refusal(db: DatabaseView, hashed_key: Text, new_key: Text) -> Option<
    (StatusCode, Text),
> {
    if first_where(db.users, with_hashed_key(hashed_key)) is None {
        Some((StatusCode::UNAUTHORIZED, "Unauthorised."@))
    } else if any_where(db.users, with_hashed_key(digest_hex(new_key))) {
        Some(
            (
                StatusCode::INTERNAL_SERVER_ERROR,
                "Could not reset key. Your key remains the same. Please try again."@,
            ),
        )
    } else {
        None
    }
}

/// An operator with the key `new_key` in place of the one before.
pub open spec fn rekeyed(user: UserView, new_key: Text) -> UserView {
    UserView { hashed_key: digest_hex(new_key), ..user }
}

fn find_key(db: &Database, hashed_key: &str) -> (found: Option<usize>)
    ensures
        match found {
            Some(i) => first_where(db@.users, with_hashed_key(hashed_key@)) == Some(i as int) && i
                < db.users.len(),
            None => first_where(db@.users, with_hashed_key(hashed_key@)) is None,
        },
        found is Some <==> any_where(db@.users, with_hashed_key(hashed_key@)),
{
    proof {
        lemma_first_where(db@.users, with_hashed_key(hashed_key@));
    }
    let mut i: usize = 0;
    while i < db.users.len()
        invariant
            i <= db.users.len(),
            forall|j: int| 0 <= j < i ==> !with_hashed_key(hashed_key@)(#[trigger] db@.users[j]),
        decreases db.users.len() - i,
    {
        assert(db@.users[i as int] == db.users[i as int]@);
        if *db.users[i].hashed_key == *hashed_key {
            proof {
                lemma_first_where_is(db@.users, with_hashed_key(hashed_key@), i as int);
            }
            return Some(i);
        }
        i += 1;
    }
    proof {
        lemma_first_where_none(db@.users, with_hashed_key(hashed_key@));
    }
    None
}

/// Replaces the key of `user` by `new_key` and answers with it. The operator
/// keeps the digest of the key only.
///
/// Refused, with nothing changed: a caller whose key digest is no
/// operator's (unauthorised); a key whose digest some operator carries
/// (internal error).
pub fn reset_with(user: &User, db: &mut Database, new_key: String) -> (answer: Result<
    (StatusCode, ResetResponse),
    Refusal,
>)
    requires
        old(db)@.wf(),
    ensures
        final(db)@.wf(),
        match answer {
            Ok((status, body)) => {
                &&& reset_refusal(old(db)@, user@.hashed_key, new_key@) is None
                &&& first_where(old(db)@.users, with_hashed_key(user@.hashed_key)) matches Some(i)
                &&& status == StatusCode::OK
                &&& body.response@ == "OK"@
                &&& body.key@ == new_key@
                &&& final(db)@ == (DatabaseView {
                    users: old(db)@.users.update(i, rekeyed(old(db)@.users[i], new_key@)),
                    ..old(db)@
                })
            },
            Err((status, body)) => {
                &&& reset_refusal(old(db)@, user@.hashed_key, new_key@) == Some(
                    (status, body.text@),
                )
                &&& body.response@ == "ERROR"@
                &&& final(db)@ == old(db)@
            },
        },
{
    let i = match find_key(db, user.hashed_key.as_str()) {
        Some(i) => i,
        None => {
            return Err(refusal(StatusCode::UNAUTHORIZED, "Unauthorised."));
        },
    };
    let hashed_new_key = hash_string(new_key.as_str());
    if find_key(db, hashed_new_key.as_str()).is_some() {
        return Err(
            refusal(
                StatusCode::INTERNAL_SERVER_ERROR,
                "Could not reset key. Your key remains the same. Please try again.",
            ),
        );
    }
    assert(db@.users[i as int] == db.users[i as int]@);
    let changed = User {
        uuid: db.users[i].uuid.clone(),
        name: db.users[i].name.clone(),
        hashed_key: hashed_new_key,
        admin: db.users[i].admin,
        banned: db.users[i].banned,
        created_at: db.users[i].created_at,
    };
    let ghost before = db.users;
    db.users.set(i, changed);
    proof {
        lemma_deep_view_update(before, db.users, i as int, changed);
        let users = old(db)@.users;
        lemma_update_keeps_operators(users, i as int, changed@);
        lemma_operators_stay(users, db@.users, old(db)@.data, old(db)@.referrals);
        assert forall|a: int, b: int| 0 <= a < b < db@.users.len() implies {
            &&& (#[trigger] db@.users[a]).uuid != (#[trigger] db@.users[b]).uuid
            &&& db@.users[a].hashed_key != db@.users[b].hashed_key
        } by {
            assert(users[a].uuid != users[b].uuid);
            assert(!with_hashed_key(changed@.hashed_key)(users[a]));
            assert(!with_hashed_key(changed@.hashed_key)(users[b]));
        }
    }
    Ok((StatusCode::OK, ResetResponse::from_key(new_key)))
}

/// Replaces the key of `user` by a fresh key of 32 random bytes and answers
/// with it.
///
/// Refused, with nothing changed: a caller whose key digest is no
/// operator's (unauthorised); otherwise, as an internal error, where the
/// system's random source fails or the key's digest is taken.
pub fn reset(user: &User, db: &mut Database) -> (answer: Result<(StatusCode, ResetResponse), Refusal>)
    requires
        old(db)@.wf(),
    ensures
        final(db)@.wf(),
        answer is Ok ==> {
            &&& answer->Ok_0.0 == StatusCode::OK
            &&& answer->Ok_0.1.response@ == "OK"@
            &&& is_credential(answer->Ok_0.1.key@, digest_hex(answer->Ok_0.1.key@), 32)
            &&& reset_refusal(old(db)@, user@.hashed_key, answer->Ok_0.1.key@) is None
            &&& first_where(old(db)@.users, with_hashed_key(user@.hashed_key)) matches Some(i)
            &&& final(db)@ == (DatabaseView {
                users: old(db)@.users.update(i, rekeyed(old(db)@.users[i], answer->Ok_0.1.key@)),
                ..old(db)@
            })
        },
        answer is Err ==> {
            &&& answer->Err_0.1.response@ == "ERROR"@
            &&& final(db)@ == old(db)@
            &&& if first_where(old(db)@.users, with_hashed_key(user@.hashed_key)) is None {
                answer->Err_0.0 == StatusCode::UNAUTHORIZED && answer->Err_0.1.text@
                    == "Unauthorised."@
            } else {
                answer->Err_0.0 == StatusCode::INTERNAL_SERVER_ERROR && answer->Err_0.1.text@
                    == "Could not reset key. Your key remains the same. Please try again."@
            }
        },
{
    if find_key(db, user.hashed_key.as_str()).is_none() {
        return Err(refusal(StatusCode::UNAUTHORIZED, "Unauthorised."));
    }
    match new_key() {
        Ok((new_key, _)) => reset_with(user, db, new_key),
        Err(_) => Err(
            refusal(
                StatusCode::INTERNAL_SERVER_ERROR,
                "Could not reset key. Your key remains the same. Please try again.",
            ),
        ),
    }
}

} // verus!
