//! Invites: single-use codes that let a new operator register.

use vstd::prelude::*;

use crate::concepts::user::User;
use crate::database::{is_operator, Database, DatabaseView};
use crate::routes::response::{refusal, InviteResponse, Refusal, StatusCode};
use crate::utils::clock::now;
use crate::utils::random::{digest_hex, hash_string, is_credential, new_invite_code, EntropyError};
use crate::utils::search::any_where;
use crate::utils::text::{copy_optional, lemma_deep_view_push, Text};

verus! {

/// A single-use invite. Only the digest of its code is kept.
#[derive(Debug, PartialEq, Eq)]
pub struct Referral {
    pub created_by: String,
    pub created_at: i64,
    pub hashed_code: String,
    pub used: bool,
    pub used_by: Option<String>,
}

/// The mathematical value of an invite.
pub struct ReferralView {
    pub created_by: Text,
    pub created_at: i64,
    pub hashed_code: Text,
    pub used: bool,
    pub used_by: Option<Text>,
}

impl View for Referral {
    type V = ReferralView;

    open spec fn view(&self) -> ReferralView {
        ReferralView {
            created_by: self.created_by@,
            created_at: self.created_at,
            hashed_code: self.hashed_code@,
            used: self.used,
            used_by: self.used_by.deep_view(),
        }
    }
}

impl DeepView for Referral {
    type V = ReferralView;

    open spec fn deep_view(&self) -> ReferralView {
        self@
    }
}

impl Clone for Referral {
    fn clone(&self) -> (copy: Self)
        ensures
            copy@ == self@,
    {
        Referral {
            created_by: self.created_by.clone(),
            created_at: self.created_at,
            hashed_code: self.hashed_code.clone(),
            used: self.used,
            used_by: copy_optional(&self.used_by),
        }
    }
}

/// An invite could not be issued.
#[derive(Debug)]
pub struct InviteError;

/// The invite that `issuer` issues at `now` for the code with the digest
/// `hashed_code`.
pub open spec fn issued(issuer: Text, hashed_code: Text, now: i64) -> ReferralView {
    ReferralView { created_by: issuer, created_at: now, hashed_code, used: false, used_by: None }
}

/// The condition of standing for the code with the digest `hashed_code`.
pub open spec fn for_code(hashed_code: Text) -> spec_fn(ReferralView) -> bool {
    |referral: ReferralView| referral.hashed_code == hashed_code
}

impl Referral {
    /// The invite that `created_by` issues at `now` for the code with the
    /// digest `hashed_code`.
    pub fn with_code(created_by: String, hashed_code: String, now: i64) -> (referral: Self)
        ensures
            referral@ == issued(created_by@, hashed_code@, now),
    {
        Self { created_by, created_at: now, hashed_code, used: false, used_by: None }
    }

    /// A new invite that `created_by` issues at present, for a fresh code.
    /// The code is returned beside the invite, which keeps only its digest.
    pub fn new(created_by: String) -> (outcome: Result<(Self, String), EntropyError>)
        ensures
            outcome matches Ok(made) ==> {
                &&& is_credential(made.1@, made.0@.hashed_code, 64)
                &&& exists|at: i64|
                    made.0@ == #[trigger] issued(created_by@, digest_hex(made.1@), at)
            },
    {
        match new_invite_code() {
            Ok((invite_code, hashed_invite_code)) => {
                let at = now();
                let referral = Self::with_code(created_by, hashed_invite_code, at);
                assert(referral@ == issued(created_by@, digest_hex(invite_code@), at));
                Ok((referral, invite_code))
            },
            Err(error) => Err(error),
        }
    }
}

/// Why an invite is not issued, if it is not: the status and the explanation.
pub open spec fn invite_refusal(db: DatabaseView, issuer: Text, invite_code: Text) -> Option<
    (StatusCode, Text),
> {
    if !is_operator(db.users, issuer) {
        Some((StatusCode::UNAUTHORIZED, "Unauthorised."@))
    } else if any_where(db.referrals, for_code(digest_hex(invite_code))) {
        Some((StatusCode::INTERNAL_SERVER_ERROR, "Internal server error."@))
    } else {
        None
    }
}

/// The state after `issuer` issued an invite for `invite_code` at `now`.
pub open spec fn invited(db: DatabaseView, issuer: Text, invite_code: Text, now: i64) -> DatabaseView {
    DatabaseView {
        referrals: db.referrals.push(issued(issuer, digest_hex(invite_code), now)),
        ..db
    }
}

/// Whether an invite stands for the code with the digest `hashed_code`.
pub fn has_code(db: &Database, hashed_code: &str) -> (found: bool)
    ensures
        found == any_where(db@.referrals, for_code(hashed_code@)),
{
    let mut i: usize = 0;
    while i < db.referrals.len()
        invariant
            i <= db.referrals.len(),
            forall|j: int| 0 <= j < i ==> !for_code(hashed_code@)(#[trigger] db@.referrals[j]),
        decreases db.referrals.len() - i,
    {
        assert(db@.referrals[i as int] == db.referrals[i as int]@);
        if *db.referrals[i].hashed_code == *hashed_code {
            return true;
        }
        i += 1;
    }
    false
}

fn issue(user: &User, db: &mut Database, invite_code: String, hashed_code: String, now: i64) -> (answer:
    Result<(StatusCode, InviteResponse), Refusal>)
    requires
        old(db)@.wf(),
        hashed_code@ == digest_hex(invite_code@),
    ensures
        final(db)@.wf(),
        match answer {
            Ok((status, body)) => {
                &&& invite_refusal(old(db)@, user@.uuid, invite_code@) is None
                &&& status == StatusCode::CREATED
                &&& body.response@ == "OK"@
                &&& body.code@ == invite_code@
                &&& final(db)@ == invited(old(db)@, user@.uuid, invite_code@, now)
            },
            Err((status, body)) => {
                &&& invite_refusal(old(db)@, user@.uuid, invite_code@) == Some((status, body.text@))
                &&& body.response@ == "ERROR"@
                &&& final(db)@ == old(db)@
            },
        },
{
    if !db.is_operator(user.uuid.as_str()) {
        return Err(refusal(StatusCode::UNAUTHORIZED, "Unauthorised."));
    }
    if has_code(db, hashed_code.as_str()) {
        return Err(refusal(StatusCode::INTERNAL_SERVER_ERROR, "Internal server error."));
    }
    let referral = Referral::with_code(user.uuid.clone(), hashed_code, now);
    let ghost before = db.referrals;
    db.referrals.push(referral);
    proof {
        lemma_deep_view_push(before, db.referrals, referral);
        let referrals = old(db)@.referrals;
        let after = db@.referrals;
        assert forall|i: int| 0 <= i < after.len() implies {
            &&& is_operator(db@.users, (#[trigger] after[i]).created_by)
            &&& after[i].used <==> after[i].used_by is Some
            &&& after[i].used_by matches Some(operator) ==> is_operator(db@.users, operator)
        } by {
            if i < referrals.len() {
                assert(after[i] == referrals[i]);
            }
        }
        assert forall|i: int, j: int| 0 <= i < j < after.len() implies (#[trigger] after[i]).hashed_code
            != (#[trigger] after[j]).hashed_code by {
            assert(after[i] == referrals[i]);
            if j == referrals.len() {
                assert(!for_code(hashed_code@)(referrals[i]));
            } else {
                assert(after[j] == referrals[j]);
            }
        }
    }
    Ok((StatusCode::CREATED, InviteResponse::new(invite_code)))
}

/// Issues, at the instant `now`, an invite of `user` for the code
/// `invite_code`, and answers with the code. The invite keeps the digest of
/// the code only.
///
/// Refused, with nothing changed: an issuer who is not registered
/// (unauthorised); a code whose digest an earlier invite carries (internal
/// error).
pub fn invite_with(user: &User, db: &mut Database, invite_code: String, now: i64) -> (answer: Result<
    (StatusCode, InviteResponse),
    Refusal,
>)
    requires
        old(db)@.wf(),
    ensures
        final(db)@.wf(),
        match answer {
            Ok((status, body)) => {
                &&& invite_refusal(old(db)@, user@.uuid, invite_code@) is None
                &&& status == StatusCode::CREATED
                &&& body.response@ == "OK"@
                &&& body.code@ == invite_code@
                &&& final(db)@ == invited(old(db)@, user@.uuid, invite_code@, now)
            },
            Err((status, body)) => {
                &&& invite_refusal(old(db)@, user@.uuid, invite_code@) == Some((status, body.text@))
                &&& body.response@ == "ERROR"@
                &&& final(db)@ == old(db)@
            },
        },
{
    let hashed_code = hash_string(invite_code.as_str());
    issue(user, db, invite_code, hashed_code, now)
}

/// Issues, at present, an invite of `user` for a fresh code of 64 random
/// bytes, and answers with the code.
///
/// Refused, with nothing changed: an issuer who is not registered
/// (unauthorised); otherwise, as an internal error, where the system's random
/// source fails or the code's digest is taken.
pub fn invite(user: &User, db: &mut Database) -> (answer: Result<
    (StatusCode, InviteResponse),
    Refusal,
>)
    requires
        old(db)@.wf(),
    ensures
        final(db)@.wf(),
        answer is Ok ==> {
            &&& answer->Ok_0.0 == StatusCode::CREATED
            &&& answer->Ok_0.1.response@ == "OK"@
            &&& is_credential(answer->Ok_0.1.code@, digest_hex(answer->Ok_0.1.code@), 64)
            &&& invite_refusal(old(db)@, user@.uuid, answer->Ok_0.1.code@) is None
            &&& exists|at: i64|
                final(db)@ == #[trigger] invited(old(db)@, user@.uuid, answer->Ok_0.1.code@, at)
        },
        answer is Err ==> {
            &&& answer->Err_0.1.response@ == "ERROR"@
            &&& final(db)@ == old(db)@
            &&& if is_operator(old(db)@.users, user@.uuid) {
                answer->Err_0.0 == StatusCode::INTERNAL_SERVER_ERROR && answer->Err_0.1.text@
                    == "Internal server error."@
            } else {
                answer->Err_0.0 == StatusCode::UNAUTHORIZED && answer->Err_0.1.text@
                    == "Unauthorised."@
            }
        },
{
    if !db.is_operator(user.uuid.as_str()) {
        return Err(refusal(StatusCode::UNAUTHORIZED, "Unauthorised."));
    }
    match new_invite_code() {
        Ok((invite_code, hashed_invite_code)) => {
            let at = now();
            let ghost code = invite_code@;
            let answer = issue(user, db, invite_code, hashed_invite_code, at);
            proof {
                if answer is Ok {
                    assert(db@ == invited(old(db)@, user@.uuid, code, at));
                }
            }
            answer
        },
        Err(_) => Err(refusal(StatusCode::INTERNAL_SERVER_ERROR, "Internal server error.")),
    }
}

} // verus!
