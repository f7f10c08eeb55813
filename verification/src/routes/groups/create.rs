//! Making a group.

use vstd::prelude::*;

use crate::concepts::group::{Group, GroupView};
use crate::concepts::user::User;
use crate::database::{all_subjects, Database, DatabaseView};
use crate::routes::response::{refusal, CreateResponse, Refusal, StatusCode};
use crate::utils::clock::now;
use crate::utils::random::{new_uuid, EntropyError};
use crate::utils::search::any_where;
use crate::utils::text::{lemma_deep_view_push, Text};

verus! {

#[derive(Debug, PartialEq, Eq)]
pub struct CreateGroupRequest {
    pub name: String,
    pub subjects: Vec<String>,
    pub description: Option<String>,
}

/// The group that a request describes, owned by `owner`, with the identifier
/// `uuid`, made at `now`.
pub open spec fn described_group(cg: CreateGroupRequest, owner: Text, uuid: Text, now: i64) -> GroupView {
    GroupView {
        uuid,
        created_at: now,
        created_by: owner,
        name: cg.name@,
        subjects: cg.subjects.deep_view(),
        description: cg.description.deep_view(),
    }
}

/// The group that `cg` describes, owned by `user`, with the identifier
/// `uuid`, made at `now`.
pub fn group_from_create_with(cg: CreateGroupRequest, user: &User, uuid: String, now: i64) -> (group:
    Group)
    ensures
        group@ == described_group(cg, user@.uuid, uuid@, now),
{
    Group {
        uuid,
        created_at: now,
        created_by: user.uuid.clone(),
        name: cg.name,
        subjects: cg.subjects,
        description: cg.description,
    }
}

/// The group that `cg` describes, owned by `user`, with a fresh identifier,
/// made at present. Fails exactly when the system's random source does.
pub fn group_from_create(cg: CreateGroupRequest, user: &User) -> (outcome: Result<
    Group,
    EntropyError,
>)
    ensures
        outcome matches Ok(group) ==> exists|uuid: Text, at: i64|
            group@ == #[trigger] described_group(cg, user@.uuid, uuid, at),
{
    match new_uuid() {
        Ok(uuid) => {
            let at = now();
            Ok(group_from_create_with(cg, user, uuid, at))
        },
        Err(error) => Err(error),
    }
}

/// The condition of being owned by `owner` under the name `name`.
pub open spec fn group_named(owner: Text, name: Text) -> spec_fn(GroupView) -> bool {
    |group: GroupView| group.created_by == owner && group.name == name
}

/// The condition of carrying the identifier `uuid`.
pub open spec fn group_with_uuid(uuid: Text) -> spec_fn(GroupView) -> bool {
    |group: GroupView| group.uuid == uuid
}

/// Why a group is not made whatever identifier is at hand, if it is not: the
/// status and the explanation.
pub open spec fn create_refusal_outright(
    db: DatabaseView,
    owner: Text,
    name: Text,
    subjects: Seq<Text>,
) -> Option<(StatusCode, Text)> {
    if !all_subjects(subjects, db.subjects) {
        Some((StatusCode::BAD_REQUEST, "One or more of the subjects does not exist."@))
    } else if any_where(db.groups, group_named(owner, name)) {
        Some((StatusCode::CONFLICT, "Group by that name already exists."@))
    } else {
        None
    }
}

/// Why a group is not made, if it is not: the status and the explanation.
pub open spec fn create_refusal(db: DatabaseView, group: GroupView) -> Option<(StatusCode, Text)> {
    if create_refusal_outright(db, group.created_by, group.name, group.subjects) is Some {
        create_refusal_outright(db, group.created_by, group.name, group.subjects)
    } else if any_where(db.groups, group_with_uuid(group.uuid)) {
        Some((StatusCode::INTERNAL_SERVER_ERROR, "Internal server error."@))
    } else {
        None
    }
}

/// Whether every one of `listed` is the identifier of a subject.
pub fn subjects_exist(db: &Database, listed: &Vec<String>) -> (all: bool)
    ensures
        all == all_subjects(listed.deep_view(), db@.subjects),
{
    let mut k: usize = 0;
    while k < listed.len()
        invariant
            k <= listed.len(),
            forall|j: int|
                0 <= j < k ==> crate::database::is_subject(
                    db@.subjects,
                    #[trigger] listed.deep_view()[j],
                ),
        decreases listed.len() - k,
    {
        assert(listed.deep_view()[k as int] == listed[k as int]@);
        if !db.is_subject(listed[k].as_str()) {
            return false;
        }
        k += 1;
    }
    true
}

/// Whether `owner` has a group called `name`.
pub fn has_group_named(db: &Database, owner: &str, name: &str) -> (found: bool)
    ensures
        found == any_where(db@.groups, group_named(owner@, name@)),
{
    let mut i: usize = 0;
    while i < db.groups.len()
        invariant
            i <= db.groups.len(),
            forall|j: int| 0 <= j < i ==> !group_named(owner@, name@)(#[trigger] db@.groups[j]),
        decreases db.groups.len() - i,
    {
        assert(db@.groups[i as int] == db.groups[i as int]@);
        if *db.groups[i].created_by == *owner && *db.groups[i].name == *name {
            return true;
        }
        i += 1;
    }
    false
}

/// Whether a group with identifier `uuid` exists.
pub fn has_group(db: &Database, uuid: &str) -> (found: bool)
    ensures
        found == any_where(db@.groups, group_with_uuid(uuid@)),
{
    let mut i: usize = 0;
    while i < db.groups.len()
        invariant
            i <= db.groups.len(),
            forall|j: int| 0 <= j < i ==> !group_with_uuid(uuid@)(#[trigger] db@.groups[j]),
        decreases db.groups.len() - i,
    {
        assert(db@.groups[i as int] == db.groups[i as int]@);
        if *db.groups[i].uuid == *uuid {
            return true;
        }
        i += 1;
    }
    false
}

/// Makes the group that `data` describes for `user`, with the identifier
/// `uuid`, at the instant `now`.
///
/// Refused, with nothing changed: a listed subject that does not exist (bad
/// request); a name that the operator has used for another group (conflict);
/// an identifier that is taken (internal error).
pub fn create_with(user: &User, db: &mut Database, data: CreateGroupRequest, uuid: String, now: i64) -> (answer:
    Result<(StatusCode, CreateResponse), Refusal>)
    requires
        old(db)@.wf(),
    ensures
        final(db)@.wf(),
        match answer {
            Ok((status, body)) => {
                &&& create_refusal(old(db)@, described_group(data, user@.uuid, uuid@, now)) is None
                &&& status == StatusCode::CREATED
                &&& body.response@ == "OK"@
                &&& body.uuid@ == uuid@
                &&& final(db)@ == (DatabaseView {
                    groups: old(db)@.groups.push(described_group(data, user@.uuid, uuid@, now)),
                    ..old(db)@
                })
            },
            Err((status, body)) => {
                &&& create_refusal(old(db)@, described_group(data, user@.uuid, uuid@, now)) == Some(
                    (status, body.text@),
                )
                &&& body.response@ == "ERROR"@
                &&& final(db)@ == old(db)@
            },
        },
{
    let ghost described = described_group(data, user@.uuid, uuid@, now);
    if !subjects_exist(db, &data.subjects) {
        return Err(
            refusal(StatusCode::BAD_REQUEST, "One or more of the subjects does not exist."),
        );
    }
    if has_group_named(db, user.uuid.as_str(), data.name.as_str()) {
        return Err(refusal(StatusCode::CONFLICT, "Group by that name already exists."));
    }
    if has_group(db, uuid.as_str()) {
        return Err(refusal(StatusCode::INTERNAL_SERVER_ERROR, "Internal server error."));
    }
    let group = group_from_create_with(data, user, uuid, now);
    let body = CreateResponse::from_uuid(group.uuid.as_str());
    let ghost before = db.groups;
    db.groups.push(group);
    proof {
        lemma_deep_view_push(before, db.groups, group);
        assert forall|i: int, j: int| 0 <= i < j < db@.groups.len() implies {
            &&& (#[trigger] db@.groups[i]).uuid != (#[trigger] db@.groups[j]).uuid
            &&& !(db@.groups[i].created_by == db@.groups[j].created_by && db@.groups[i].name
                == db@.groups[j].name)
        } by {
            assert(db@.groups[i] == old(db)@.groups[i]);
            if j == old(db)@.groups.len() {
                assert(!group_named(described.created_by, described.name)(old(db)@.groups[i]));
                assert(!group_with_uuid(described.uuid)(old(db)@.groups[i]));
            } else {
                assert(db@.groups[j] == old(db)@.groups[j]);
            }
        }
        assert forall|i: int| 0 <= i < db@.groups.len() implies all_subjects(
            (#[trigger] db@.groups[i]).subjects,
            db@.subjects,
        ) by {
            if i < old(db)@.groups.len() {
                assert(db@.groups[i] == old(db)@.groups[i]);
            }
        }
    }
    Ok((StatusCode::CREATED, body))
}

/// Makes the group that `data` describes for `user`, with a fresh identifier,
/// at present. The identifier is drawn before anything changes.
///
/// Refused, with nothing changed: what is refused whatever identifier is at
/// hand, as [`create_with`] says; otherwise, as an internal error, where the
/// system's random source fails or the drawn identifier is taken.
pub fn create(user: &User, db: &mut Database, data: CreateGroupRequest) -> (answer: Result<
    (StatusCode, CreateResponse),
    Refusal,
>)
    requires
        old(db)@.wf(),
    ensures
        final(db)@.wf(),
        answer is Ok ==> {
            &&& answer->Ok_0.0 == StatusCode::CREATED
            &&& answer->Ok_0.1.response@ == "OK"@
            &&& exists|at: i64|
                {
                    &&& create_refusal(
                        old(db)@,
                        #[trigger] described_group(data, user@.uuid, answer->Ok_0.1.uuid@, at),
                    ) is None
                    &&& final(db)@ == (DatabaseView {
                        groups: old(db)@.groups.push(
                            described_group(data, user@.uuid, answer->Ok_0.1.uuid@, at),
                        ),
                        ..old(db)@
                    })
                }
        },
        answer is Err ==> {
            &&& answer->Err_0.1.response@ == "ERROR"@
            &&& final(db)@ == old(db)@
            &&& (answer->Err_0.0, answer->Err_0.1.text@) == match create_refusal_outright(
                old(db)@,
                user@.uuid,
                data.name@,
                data.subjects.deep_view(),
            ) {
                Some(refused) => refused,
                None => (StatusCode::INTERNAL_SERVER_ERROR, "Internal server error."@),
            }
        },
{
    if !subjects_exist(db, &data.subjects) {
        return Err(
            refusal(StatusCode::BAD_REQUEST, "One or more of the subjects does not exist."),
        );
    }
    if has_group_named(db, user.uuid.as_str(), data.name.as_str()) {
        return Err(refusal(StatusCode::CONFLICT, "Group by that name already exists."));
    }
    let uuid = match new_uuid() {
        Ok(uuid) => uuid,
        Err(_) => {
            return Err(refusal(StatusCode::INTERNAL_SERVER_ERROR, "Internal server error."));
        },
    };
    let at = now();
    let ghost minted = uuid@;
    let answer = create_with(user, db, data, uuid, at);
    proof {
        let described = described_group(data, user@.uuid, minted, at);
        if answer is Ok {
            assert(create_refusal(old(db)@, described) is None);
        }
    }
    answer
}

} // verus!
