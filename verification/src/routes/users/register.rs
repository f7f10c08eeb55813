//! Registering an operator against an invite.

use vstd::prelude::*;

use crate::concepts::user::{with_hashed_key, User, UserView};
use crate::database::{
    is_operator, lemma_operators_stay, lemma_push_keeps_operators, user_with_uuid, Database,
    DatabaseView,
};
use crate::routes::response::{refusal, Refusal, RegisterResponse, StatusCode};
use crate::routes::users::invite::{Referral, ReferralView};
use crate::utils::clock::now;
use crate::utils::random::{digest_hex, hash_string, is_credential, new_key, new_uuid};
use crate::utils::search::{any_where, first_where, lemma_first_where_is, lemma_first_where_none};
use crate::utils::text::{lemma_deep_view_push, lemma_deep_view_update, Text};

verus! {

#[derive(Debug, PartialEq, Eq)]
pub struct RegisterRequest {
    pub code: String,
    pub name: String,
}

/// The invite code was not one that is open.
#[derive(Debug)]
pub struct RegisterError;

/// The condition of standing for the code with the digest `hashed_code` and
/// being unused.
pub open spec fn open_invite(hashed_code: Text) -> spec_fn(ReferralView) -> bool {
    |referral: ReferralView| referral.hashed_code == hashed_code && !referral.used
}

/// An invite as used by the operator `uuid`.
pub open spec fn used_by(referral: ReferralView, uuid: Text) -> ReferralView {
    ReferralView { used: true, used_by: Some(uuid), ..referral }
}

/// The operator who registers as `name` with the identifier `uuid` and the
/// key `key` at `now`.
pub open spec fn newcomer(name: Text, uuid: Text, key: Text, now: i64) -> UserView {
    UserView {
        uuid,
        name,
        hashed_key: digest_hex(key),
        admin: false,
        banned: false,
        created_at: now,
    }
}

/// Why a registration is refused, if it is: the status and the explanation.
pub open spec fn register_refusal(db: DatabaseView, code: Text, uuid: Text, key: Text) -> Option<
    (StatusCode, Text),
> {
    if first_where(db.referrals, open_invite(digest_hex(code))) is None {
        Some((StatusCode::UNAUTHORIZED, "Invalid invite code."@))
    } else if is_operator(db.users, uuid) || any_where(db.users, with_hashed_key(digest_hex(key))) {
        Some((StatusCode::INTERNAL_SERVER_ERROR, "Internal server error."@))
    } else {
        None
    }
}

/// The state after an operator registered against the invite at index `i`:
/// the invite is used, by the operator, who is the last of the operators.
pub open spec fn registered(db: DatabaseView, i: int, user: UserView) -> DatabaseView {
    DatabaseView {
        referrals: db.referrals.update(i, used_by(db.referrals[i], user.uuid)),
        users: db.users.push(user),
        ..db
    }
}

fn find_invite(db: &Database, hashed_code: &str) -> (found: Option<usize>)
    ensures
        match found {
            Some(i) => first_where(db@.referrals, open_invite(hashed_code@)) == Some(i as int) && i
                < db.referrals.len(),
            None => first_where(db@.referrals, open_invite(hashed_code@)) is None,
        },
{
    let mut i: usize = 0;
    while i < db.referrals.len()
        invariant
            i <= db.referrals.len(),
            forall|j: int| 0 <= j < i ==> !open_invite(hashed_code@)(#[trigger] db@.referrals[j]),
        decreases db.referrals.len() - i,
    {
        assert(db@.referrals[i as int] == db.referrals[i as int]@);
        if *db.referrals[i].hashed_code == *hashed_code && !db.referrals[i].used {
            proof {
                lemma_first_where_is(db@.referrals, open_invite(hashed_code@), i as int);
            }
            return Some(i);
        }
        i += 1;
    }
    proof {
        lemma_first_where_none(db@.referrals, open_invite(hashed_code@));
    }
    None
}

/// Whether an operator carries the key digest `hashed_key`.
pub fn has_key(db: &Database, hashed_key: &str) -> (found: bool)
    ensures
        found == any_where(db@.users, with_hashed_key(hashed_key@)),
{
    let mut i: usize = 0;
    while i < db.users.len()
        invariant
            i <= db.users.len(),
            forall|j: int| 0 <= j < i ==> !with_hashed_key(hashed_key@)(#[trigger] db@.users[j]),
        decreases db.users.len() - i,
    {
        assert(db@.users[i as int] == db.users[i as int]@);
        if *db.users[i].hashed_key == *hashed_key {
            return true;
        }
        i += 1;
    }
    false
}

/// Registers, at the instant `now`, an operator called `req.name` with the
/// identifier `uuid` and the key `key`, against the invite that `req.code`
/// opens. The invite is used up. The answer holds the operator and the key.
///
/// Refused, with nothing changed: a code that opens no unused invite
/// (unauthorised); an identifier or a key that is taken (internal error).
pub fn register_with(db: &mut Database, req: RegisterRequest, uuid: String, key: String, now: i64) -> (answer:
    Result<(StatusCode, RegisterResponse), Refusal>)
    requires
        old(db)@.wf(),
    ensures
        final(db)@.wf(),
        match answer {
            Ok((status, body)) => {
                &&& register_refusal(old(db)@, req.code@, uuid@, key@) is None
                &&& first_where(old(db)@.referrals, open_invite(digest_hex(req.code@)))
                    matches Some(i)
                &&& status == StatusCode::CREATED
                &&& body.response@ == "OK"@
                &&& body.user@ == newcomer(req.name@, uuid@, key@, now)
                &&& body.key@ == key@
                &&& final(db)@ == registered(
                    old(db)@,
                    i,
                    newcomer(req.name@, uuid@, key@, now),
                )
            },
            Err((status, body)) => {
                &&& register_refusal(old(db)@, req.code@, uuid@, key@) == Some((status, body.text@))
                &&& body.response@ == "ERROR"@
                &&& final(db)@ == old(db)@
            },
        },
{
    let hashed_code = hash_string(req.code.as_str());
    let i = match find_invite(db, hashed_code.as_str()) {
        Some(i) => i,
        None => {
            return Err(refusal(StatusCode::UNAUTHORIZED, "Invalid invite code."));
        },
    };
    let hashed_key = hash_string(key.as_str());
    if db.is_operator(uuid.as_str()) || has_key(db, hashed_key.as_str()) {
        return Err(refusal(StatusCode::INTERNAL_SERVER_ERROR, "Internal server error."));
    }
    let user = User::with_identity(req.name.as_str(), uuid, hashed_key, now);
    assert(db@.referrals[i as int] == db.referrals[i as int]@);
    let referral = Referral {
        created_by: db.referrals[i].created_by.clone(),
        created_at: db.referrals[i].created_at,
        hashed_code: db.referrals[i].hashed_code.clone(),
        used: true,
        used_by: Some(user.uuid.clone()),
    };
    let ghost referrals_before = db.referrals;
    db.referrals.set(i, referral);
    let ghost users_before = db.users;
    let answer_user = user.clone();
    db.users.push(user);
    proof {
        lemma_deep_view_update(referrals_before, db.referrals, i as int, referral);
        lemma_deep_view_push(users_before, db.users, user);
        let users = old(db)@.users;
        let referrals = old(db)@.referrals;
        lemma_push_keeps_operators(users, user@);
        lemma_operators_stay(users, db@.users, old(db)@.data, referrals);
        assert forall|a: int, b: int| 0 <= a < b < db@.users.len() implies {
            &&& (#[trigger] db@.users[a]).uuid != (#[trigger] db@.users[b]).uuid
            &&& db@.users[a].hashed_key != db@.users[b].hashed_key
        } by {
            assert(db@.users[a] == users[a]);
            if b == users.len() {
                assert(!user_with_uuid(user@.uuid)(users[a]));
                assert(!with_hashed_key(user@.hashed_key)(users[a]));
            } else {
                assert(db@.users[b] == users[b]);
            }
        }
        let after = db@.referrals;
        assert forall|a: int| 0 <= a < after.len() implies {
            &&& is_operator(db@.users, (#[trigger] after[a]).created_by)
            &&& after[a].used <==> after[a].used_by is Some
            &&& after[a].used_by matches Some(operator) ==> is_operator(db@.users, operator)
        } by {
            assert(is_operator(db@.users, referrals[a].created_by));
            if a != i {
                assert(after[a] == referrals[a]);
            }
        }
        assert forall|a: int, b: int| 0 <= a < b < after.len() implies (#[trigger] after[a]).hashed_code
            != (#[trigger] after[b]).hashed_code by {
            assert(referrals[a].hashed_code != referrals[b].hashed_code);
        }
    }
    Ok((StatusCode::CREATED, RegisterResponse::from_user_with_code(answer_user, key)))
}

/// Registers, at present, an operator called `req.name` with a fresh
/// identifier and a fresh key, against the invite that `req.code` opens.
///
/// Refused, with nothing changed: a code that opens no unused invite
/// (unauthorised); otherwise, as an internal error, where the system's random
/// source fails or the identifier or the key is taken.
pub fn register(db: &mut Database, req: RegisterRequest) -> (answer: Result<
    (StatusCode, RegisterResponse),
    Refusal,
>)
    requires
        old(db)@.wf(),
    ensures
        final(db)@.wf(),
        answer is Ok ==> {
            &&& answer->Ok_0.0 == StatusCode::CREATED
            &&& answer->Ok_0.1.response@ == "OK"@
            &&& answer->Ok_0.1.user@.name == req.name@
            &&& answer->Ok_0.1.user@.hashed_key == digest_hex(answer->Ok_0.1.key@)
            &&& is_credential(answer->Ok_0.1.key@, answer->Ok_0.1.user@.hashed_key, 32)
            &&& !answer->Ok_0.1.user@.admin
            &&& !answer->Ok_0.1.user@.banned
            &&& first_where(old(db)@.referrals, open_invite(digest_hex(req.code@))) matches Some(i)
            &&& final(db)@ == registered(old(db)@, i, answer->Ok_0.1.user@)
        },
        answer is Err ==> {
            &&& answer->Err_0.1.response@ == "ERROR"@
            &&& final(db)@ == old(db)@
            &&& if first_where(old(db)@.referrals, open_invite(digest_hex(req.code@))) is None {
                answer->Err_0.0 == StatusCode::UNAUTHORIZED && answer->Err_0.1.text@
                    == "Invalid invite code."@
            } else {
                answer->Err_0.0 == StatusCode::INTERNAL_SERVER_ERROR && answer->Err_0.1.text@
                    == "Internal server error."@
            }
        },
{
    let hashed_code = hash_string(req.code.as_str());
    if find_invite(db, hashed_code.as_str()).is_none() {
        return Err(refusal(StatusCode::UNAUTHORIZED, "Invalid invite code."));
    }
    match new_key() {
        Ok((key, _)) => {
            match new_uuid() {
                Ok(uuid) => {
                    let at = now();
                    register_with(db, req, uuid, key, at)
                },
                Err(_) => Err(
                    refusal(StatusCode::INTERNAL_SERVER_ERROR, "Internal server error."),
                ),
            }
        },
        Err(_) => Err(refusal(StatusCode::INTERNAL_SERVER_ERROR, "Internal server error.")),
    }
}

/// An invite admits one registration. After an invite was issued for a code,
/// a registration with the code is not refused for the code, and succeeds
/// where its identifier and its key are not taken. It adds the one operator
/// and marks the invite used by that operator, and from then on every
/// registration with the code is refused as unauthorised.
pub proof fn lemma_invite_single_use(
    db: DatabaseView,
    issuer: Text,
    code: Text,
    issued_at: i64,
    first: UserView,
    first_key: Text,
    second_uuid: Text,
    second_key: Text,
)
    requires
        db.wf(),
        crate::routes::users::invite::invite_refusal(db, issuer, code) is None,
    ensures
        ({
            let invited = crate::routes::users::invite::invited(db, issuer, code, issued_at);
            let at = db.referrals.len() as int;
            &&& first_where(invited.referrals, open_invite(digest_hex(code))) == Some(at)
            &&& register_refusal(invited, code, first.uuid, first_key) matches Some(refused)
                ==> refused.0 == StatusCode::INTERNAL_SERVER_ERROR
            &&& !is_operator(db.users, first.uuid) && !any_where(
                db.users,
                with_hashed_key(digest_hex(first_key)),
            ) ==> register_refusal(invited, code, first.uuid, first_key) is None
            &&& registered(invited, at, first).users == db.users.push(first)
            &&& registered(invited, at, first).referrals[at].used
            &&& registered(invited, at, first).referrals[at].used_by == Some(first.uuid)
            &&& register_refusal(registered(invited, at, first), code, second_uuid, second_key)
                == Some((StatusCode::UNAUTHORIZED, "Invalid invite code."@))
        }),
{
    let invited = crate::routes::users::invite::invited(db, issuer, code, issued_at);
    let at = db.referrals.len() as int;
    let wanted = open_invite(digest_hex(code));
    assert forall|j: int| 0 <= j < at implies !wanted(#[trigger] invited.referrals[j]) by {
        assert(invited.referrals[j] == db.referrals[j]);
        assert(!crate::routes::users::invite::for_code(digest_hex(code))(db.referrals[j]));
    }
    assert(wanted(invited.referrals[at]));
    lemma_first_where_is(invited.referrals, wanted, at);
    let after = registered(invited, at, first);
    assert forall|j: int| 0 <= j < after.referrals.len() implies !wanted(
        #[trigger] after.referrals[j],
    ) by {
        if j != at {
            assert(after.referrals[j] == db.referrals[j]);
            assert(!crate::routes::users::invite::for_code(digest_hex(code))(db.referrals[j]));
        }
    }
    lemma_first_where_none(after.referrals, wanted);
}

} // verus!
