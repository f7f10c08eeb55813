//! Changing a group.

use vstd::prelude::*;

use crate::concepts::group::{Group, GroupView};
use crate::concepts::user::User;
use crate::database::{all_subjects, Database, DatabaseView};
use crate::routes::groups::create::{group_named, subjects_exist};
use crate::routes::groups::delete::{find_group, group_owned};
use crate::routes::response::{refusal, OkResponse, Refusal, StatusCode};
use crate::utils::search::{first_where, lemma_first_where};
use crate::utils::text::{lemma_deep_view_update, Text};

verus! {

#[derive(Debug, PartialEq, Eq)]
pub struct UpdateGroupRequest {
    pub uuid: String,
    pub name: String,
    pub subjects: Vec<String>,
    pub description: Option<String>,
}

/// Whether `owner` has a group called `name` elsewhere than at index `i`.
pub open spec fn name_taken_elsewhere(groups: Seq<GroupView>, owner: Text, name: Text, i: int) -> bool {
    exists|j: int| 0 <= j < groups.len() && j != i && group_named(owner, name)(#[trigger] groups[j])
}

/// The group as changed: its name, subjects and description are those of the
/// request.
pub open spec fn changed_group(group: GroupView, data: UpdateGroupRequest) -> GroupView {
    GroupView {
        name: data.name@,
        subjects: data.subjects.deep_view(),
        description: data.description.deep_view(),
        ..group
    }
}

/// Why a group is not changed, if it is not: the status and the explanation.
pub open spec fn update_refusal(db: DatabaseView, owner: Text, data: UpdateGroupRequest) -> Option<
    (StatusCode, Text),
> {
    match first_where(db.groups, group_owned(data.uuid@, owner)) {
        None => Some((StatusCode::BAD_REQUEST, "Group does not exist or was not created by you."@)),
        Some(i) => if !all_subjects(data.subjects.deep_view(), db.subjects) {
            Some((StatusCode::BAD_REQUEST, "One or more of the subjects does not exist."@))
        } else if name_taken_elsewhere(db.groups, owner, data.name@, i) {
            Some((StatusCode::CONFLICT, "Group by that name already exists."@))
        } else {
            None
        },
    }
}

fn name_taken(db: &Database, owner: &str, name: &str, except: usize) -> (taken: bool)
    ensures
        taken == name_taken_elsewhere(db@.groups, owner@, name@, except as int),
{
    let mut j: usize = 0;
    while j < db.groups.len()
        invariant
            j <= db.groups.len(),
            forall|k: int|
                0 <= k < j && k != except ==> !group_named(owner@, name@)(#[trigger] db@.groups[k]),
        decreases db.groups.len() - j,
    {
        assert(db@.groups[j as int] == db.groups[j as int]@);
        if j != except && *db.groups[j].created_by == *owner && *db.groups[j].name == *name {
            return true;
        }
        j += 1;
    }
    false
}

/// Changes the group that `data` names, if it is `user`'s, to the name,
/// subjects and description of `data`.
///
/// Refused, with nothing changed: a group that `user` does not have, or a
/// listed subject that does not exist (bad request); a name that the operator
/// has used for another group (conflict).
pub fn update(user: &User, db: &mut Database, data: UpdateGroupRequest) -> (answer: Result<
    (StatusCode, OkResponse),
    Refusal,
>)
    requires
        old(db)@.wf(),
    ensures
        final(db)@.wf(),
        match answer {
            Ok((status, body)) => {
                &&& update_refusal(old(db)@, user@.uuid, data) is None
                &&& first_where(old(db)@.groups, group_owned(data.uuid@, user@.uuid)) matches Some(
                    i,
                )
                &&& status == StatusCode::OK
                &&& body.response@ == "OK"@
                &&& final(db)@ == (DatabaseView {
                    groups: old(db)@.groups.update(i, changed_group(old(db)@.groups[i], data)),
                    ..old(db)@
                })
            },
            Err((status, body)) => {
                &&& update_refusal(old(db)@, user@.uuid, data) == Some((status, body.text@))
                &&& body.response@ == "ERROR"@
                &&& final(db)@ == old(db)@
            },
        },
{
    let i = match find_group(db, data.uuid.as_str(), user.uuid.as_str()) {
        Some(i) => i,
        None => {
            return Err(
                refusal(StatusCode::BAD_REQUEST, "Group does not exist or was not created by you."),
            );
        },
    };
    if !subjects_exist(db, &data.subjects) {
        return Err(
            refusal(StatusCode::BAD_REQUEST, "One or more of the subjects does not exist."),
        );
    }
    if name_taken(db, user.uuid.as_str(), data.name.as_str(), i) {
        return Err(refusal(StatusCode::CONFLICT, "Group by that name already exists."));
    }
    assert(db@.groups[i as int] == db.groups[i as int]@);
    proof {
        lemma_first_where(old(db)@.groups, group_owned(data.uuid@, user@.uuid));
    }
    let group = Group {
        uuid: db.groups[i].uuid.clone(),
        created_at: db.groups[i].created_at,
        created_by: db.groups[i].created_by.clone(),
        name: data.name,
        subjects: data.subjects,
        description: data.description,
    };
    let ghost before = db.groups;
    db.groups.set(i, group);
    proof {
        lemma_deep_view_update(before, db.groups, i as int, group);
        let groups = old(db)@.groups;
        let after = db@.groups;
        assert forall|a: int, b: int| 0 <= a < b < after.len() implies {
            &&& (#[trigger] after[a]).uuid != (#[trigger] after[b]).uuid
            &&& !(after[a].created_by == after[b].created_by && after[a].name == after[b].name)
        } by {
            assert(groups[a].uuid != groups[b].uuid);
            if a == i {
                assert(!group_named(user@.uuid, data.name@)(groups[b]));
            }
            if b == i {
                assert(!group_named(user@.uuid, data.name@)(groups[a]));
            }
        }
        assert forall|a: int| 0 <= a < after.len() implies all_subjects(
            (#[trigger] after[a]).subjects,
            db@.subjects,
        ) by {
            if a != i {
                assert(after[a] == groups[a]);
            }
        }
    }
    Ok((StatusCode::OK, OkResponse::new()))
}

} // verus!
