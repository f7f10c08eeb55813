//! Dropping a group.

use vstd::prelude::*;

use crate::concepts::group::GroupView;
use crate::concepts::user::User;
use crate::database::{all_subjects, Database, DatabaseView};
use crate::routes::response::{refusal, OkResponse, Refusal, StatusCode};
use crate::utils::search::{first_where, lemma_first_where_is, lemma_first_where_none};
use crate::utils::text::{lemma_deep_view_remove, Text};

verus! {

#[derive(Debug, PartialEq, Eq)]
pub struct DeleteGroupRequest {
    pub uuid: String,
}

/// The condition of carrying the identifier `uuid` and being owned by
/// `owner`.
pub open spec fn group_owned(uuid: Text, owner: Text) -> spec_fn(GroupView) -> bool {
    |group: GroupView| group.uuid == uuid && group.created_by == owner
}

/// The index of the group `uuid` of `owner`, if there is one.
pub fn find_group(db: &Database, uuid: &str, owner: &str) -> (found: Option<usize>)
    ensures
        match found {
            Some(i) => first_where(db@.groups, group_owned(uuid@, owner@)) == Some(i as int) && i
                < db.groups.len(),
            None => first_where(db@.groups, group_owned(uuid@, owner@)) is None,
        },
{
    let mut i: usize = 0;
    while i < db.groups.len()
        invariant
            i <= db.groups.len(),
            forall|j: int| 0 <= j < i ==> !group_owned(uuid@, owner@)(#[trigger] db@.groups[j]),
        decreases db.groups.len() - i,
    {
        assert(db@.groups[i as int] == db.groups[i as int]@);
        if *db.groups[i].uuid == *uuid && *db.groups[i].created_by == *owner {
            proof {
                lemma_first_where_is(db@.groups, group_owned(uuid@, owner@), i as int);
            }
            return Some(i);
        }
        i += 1;
    }
    proof {
        lemma_first_where_none(db@.groups, group_owned(uuid@, owner@));
    }
    None
}

/// Drops the group that `data` names, if it is `user`'s.
///
/// Refused as a bad request, with nothing changed, where `user` has no such
/// group.
pub fn delete(user: &User, db: &mut Database, data: DeleteGroupRequest) -> (answer: Result<
    (StatusCode, OkResponse),
    Refusal,
>)
    requires
        old(db)@.wf(),
    ensures
        final(db)@.wf(),
        match first_where(old(db)@.groups, group_owned(data.uuid@, user@.uuid)) {
            Some(i) => {
                &&& answer matches Ok((status, body))
                &&& status == StatusCode::OK
                &&& body.response@ == "OK"@
                &&& final(db)@ == (DatabaseView { groups: old(db)@.groups.remove(i), ..old(db)@ })
            },
            None => {
                &&& answer matches Err((status, body))
                &&& status == StatusCode::BAD_REQUEST
                &&& body.response@ == "ERROR"@
                &&& body.text@
                    == "No such group exists or it was not created by the user with the given key."@
                &&& final(db)@ == old(db)@
            },
        },
{
    match find_group(db, data.uuid.as_str(), user.uuid.as_str()) {
        Some(i) => {
            let ghost before = db.groups;
            db.groups.remove(i);
            proof {
                lemma_deep_view_remove(before, db.groups, i as int);
                let groups = old(db)@.groups;
                let rest = db@.groups;
                assert forall|a: int, b: int| 0 <= a < b < rest.len() implies {
                    &&& (#[trigger] rest[a]).uuid != (#[trigger] rest[b]).uuid
                    &&& !(rest[a].created_by == rest[b].created_by && rest[a].name == rest[b].name)
                } by {
                    let from_a = if a < i { a } else { a + 1 };
                    let from_b = if b < i { b } else { b + 1 };
                    assert(rest[a] == groups[from_a]);
                    assert(rest[b] == groups[from_b]);
                }
                assert forall|a: int| 0 <= a < rest.len() implies all_subjects(
                    (#[trigger] rest[a]).subjects,
                    db@.subjects,
                ) by {
                    let from_a = if a < i { a } else { a + 1 };
                    assert(rest[a] == groups[from_a]);
                }
            }
            Ok((StatusCode::OK, OkResponse::new()))
        },
        None => Err(
            refusal(
                StatusCode::BAD_REQUEST,
                "No such group exists or it was not created by the user with the given key.",
            ),
        ),
    }
}

} // verus!
