//! Dropping a subject.

use vstd::prelude::*;

use crate::concepts::group::{Group, GroupView};
use crate::concepts::subject::{flatten_profiles, profile_pairs, SubjectView};
use crate::concepts::user::User;
use crate::database::{
    all_subjects, groups_wf, is_subject, subject_with_uuid, subjects_wf, Database, DatabaseView,
};
use crate::routes::queue::{queue_remove_all, remove_queue_items};
use crate::routes::response::{refusal, OkResponse, Refusal, StatusCode};
use crate::utils::search::{first_where, lemma_first_where, lemma_first_where_is, lemma_first_where_none};
use crate::utils::text::{
    copy_optional, lemma_deep_view_push, lemma_deep_view_remove, lemma_deep_view_update, Text,
};

verus! {

#[derive(Debug, PartialEq, Eq)]
pub struct DeleteSubjectRequest {
    pub uuid: String,
}

/// The condition of carrying the identifier `uuid` and being owned by
/// `owner`.
pub open spec fn subject_owned(uuid: Text, owner: Text) -> spec_fn(SubjectView) -> bool {
    |subject: SubjectView| subject.uuid == uuid && subject.created_by == owner
}

/// The condition of being another text than `text`.
pub open spec fn other_than(text: Text) -> spec_fn(Text) -> bool {
    |other: Text| other != text
}

/// A group without the subject `uuid`.
pub open spec fn without_subject(uuid: Text) -> spec_fn(GroupView) -> GroupView {
    |group: GroupView| GroupView { subjects: group.subjects.filter(other_than(uuid)), ..group }
}

/// The state after the subject at index `i` was dropped: no group lists it,
/// it is gone from the subjects, and its references to the queue are dropped.
pub open spec fn subject_deleted(db: DatabaseView, i: int) -> DatabaseView {
    DatabaseView {
        groups: db.groups.map_values(without_subject(db.subjects[i].uuid)),
        subjects: db.subjects.remove(i),
        queue: queue_remove_all(db.queue, profile_pairs(db.subjects[i].profiles)),
        ..db
    }
}

/// The index of the subject `uuid` of `owner`, if there is one.
pub fn find_subject(db: &Database, uuid: &str, owner: &str) -> (found: Option<usize>)
    ensures
        match found {
            Some(i) => first_where(db@.subjects, subject_owned(uuid@, owner@)) == Some(i as int)
                && i < db.subjects.len(),
            None => first_where(db@.subjects, subject_owned(uuid@, owner@)) is None,
        },
{
    let mut i: usize = 0;
    while i < db.subjects.len()
        invariant
            i <= db.subjects.len(),
            forall|j: int|
                0 <= j < i ==> !subject_owned(uuid@, owner@)(#[trigger] db@.subjects[j]),
        decreases db.subjects.len() - i,
    {
        assert(db@.subjects[i as int] == db.subjects[i as int]@);
        if *db.subjects[i].uuid == *uuid && *db.subjects[i].created_by == *owner {
            proof {
                lemma_first_where_is(db@.subjects, subject_owned(uuid@, owner@), i as int);
            }
            return Some(i);
        }
        i += 1;
    }
    proof {
        lemma_first_where_none(db@.subjects, subject_owned(uuid@, owner@));
    }
    None
}

impl Group {
    /// The group without the subject `uuid`.
    pub fn without(&self, uuid: &str) -> (rest: Self)
        ensures
            rest@ == without_subject(uuid@)(self@),
    {
        let mut subjects: Vec<String> = Vec::new();
        let mut i: usize = 0;
        proof {
            reveal(Seq::filter);
        }
        while i < self.subjects.len()
            invariant
                i <= self.subjects.len(),
                subjects.deep_view() == self@.subjects.take(i as int).filter(other_than(uuid@)),
            decreases self.subjects.len() - i,
        {
            proof {
                let sofar = self@.subjects.take(i as int);
                assert(self@.subjects.take(i + 1) =~= sofar.push(self.subjects[i as int]@));
                sofar.lemma_filter_push(self.subjects[i as int]@, other_than(uuid@));
            }
            if !(*self.subjects[i].as_str() == *uuid) {
                let ghost before = subjects;
                let item = self.subjects[i].clone();
                subjects.push(item);
                proof {
                    lemma_deep_view_push(before, subjects, item);
                }
            }
            i += 1;
        }
        assert(self@.subjects.take(self.subjects.len() as int) =~= self@.subjects);
        Group {
            uuid: self.uuid.clone(),
            created_at: self.created_at,
            created_by: self.created_by.clone(),
            name: self.name.clone(),
            subjects,
            description: copy_optional(&self.description),
        }
    }
}

fn pull_from_groups(db: &mut Database, uuid: &str)
    ensures
        final(db)@ == (DatabaseView {
            groups: old(db)@.groups.map_values(without_subject(uuid@)),
            ..old(db)@
        }),
{
    let ghost groups = db@.groups;
    let ghost pulled = without_subject(uuid@);
    let mut i: usize = 0;
    while i < db.groups.len()
        invariant
            i <= db.groups.len(),
            groups.len() == db.groups.len(),
            groups == old(db)@.groups,
            pulled == without_subject(uuid@),
            db@ == (DatabaseView { groups: db@.groups, ..old(db)@ }),
            forall|j: int| 0 <= j < i ==> #[trigger] db@.groups[j] == pulled(groups[j]),
            forall|j: int| i <= j < groups.len() ==> #[trigger] db@.groups[j] == groups[j],
        decreases db.groups.len() - i,
    {
        assert(db@.groups[i as int] == db.groups[i as int]@);
        let ghost before = db.groups;
        let group = db.groups[i].without(uuid);
        db.groups.set(i, group);
        proof {
            lemma_deep_view_update(before, db.groups, i as int, group);
        }
        i += 1;
    }
    assert(db@.groups =~= groups.map_values(pulled));
}

/// Without one subject, and with that subject pulled from every group, what
/// holds of subjects and groups at rest still holds.
pub proof fn lemma_delete_keeps_wf(subjects: Seq<SubjectView>, groups: Seq<GroupView>, i: int)
    requires
        subjects_wf(subjects),
        groups_wf(groups, subjects),
        0 <= i < subjects.len(),
    ensures
        subjects_wf(subjects.remove(i)),
        groups_wf(groups.map_values(without_subject(subjects[i].uuid)), subjects.remove(i)),
{
    let uuid = subjects[i].uuid;
    let rest = subjects.remove(i);
    let pulled = groups.map_values(without_subject(uuid));
    assert forall|a: int, b: int| 0 <= a < b < rest.len() implies {
        &&& (#[trigger] rest[a]).uuid != (#[trigger] rest[b]).uuid
        &&& !(rest[a].created_by == rest[b].created_by && rest[a].name == rest[b].name)
    } by {
        let from_a = if a < i { a } else { a + 1 };
        let from_b = if b < i { b } else { b + 1 };
        assert(rest[a] == subjects[from_a]);
        assert(rest[b] == subjects[from_b]);
    }
    assert forall|g: int| 0 <= g < pulled.len() implies all_subjects(
        (#[trigger] pulled[g]).subjects,
        rest,
    ) by {
        let listed = groups[g].subjects;
        let kept = pulled[g].subjects;
        assert(kept == listed.filter(other_than(uuid)));
        assert(all_subjects(listed, subjects));
        assert forall|k: int| 0 <= k < kept.len() implies is_subject(rest, #[trigger] kept[k]) by {
            listed.lemma_filter_pred(other_than(uuid), k);
            let wanted = kept[k];
            assert(kept.contains(wanted));
            listed.lemma_filter_contains_rev(other_than(uuid), wanted);
            let at_listed = choose|m: int| 0 <= m < listed.len() && listed[m] == wanted;
            assert(is_subject(subjects, listed[at_listed]));
            let at = choose|at: int|
                0 <= at < subjects.len() && subject_with_uuid(wanted)(#[trigger] subjects[at]);
            assert(at != i);
            let moved = if at < i { at } else { at - 1 };
            assert(rest[moved] == subjects[at]);
            assert(subject_with_uuid(wanted)(rest[moved]));
        }
    }
}

/// Drops the subject that `data` names, if it is `user`'s: pulls it from
/// every group that lists it, and drops its references to the queue.
///
/// Refused as a bad request, with nothing changed, where `user` has no such
/// subject.
pub fn delete(user: &User, db: &mut Database, data: DeleteSubjectRequest) -> (answer: Result<
    (StatusCode, OkResponse),
    Refusal,
>)
    requires
        old(db)@.wf(),
    ensures
        final(db)@.wf(),
        match first_where(old(db)@.subjects, subject_owned(data.uuid@, user@.uuid)) {
            Some(i) => {
                &&& answer matches Ok((status, body))
                &&& status == StatusCode::OK
                &&& body.response@ == "OK"@
                &&& final(db)@ == subject_deleted(old(db)@, i)
            },
            None => {
                &&& answer matches Err((status, body))
                &&& status == StatusCode::BAD_REQUEST
                &&& body.response@ == "ERROR"@
                &&& body.text@
                    == "No such subject exists, or it was not created by the user with the given key."@
                &&& final(db)@ == old(db)@
            },
        },
{
    match find_subject(db, data.uuid.as_str(), user.uuid.as_str()) {
        Some(i) => {
            proof {
                lemma_first_where(old(db)@.subjects, subject_owned(data.uuid@, user@.uuid));
                lemma_delete_keeps_wf(old(db)@.subjects, old(db)@.groups, i as int);
            }
            assert(db@.subjects[i as int] == db.subjects[i as int]@);
            pull_from_groups(db, data.uuid.as_str());
            let ghost before = db.subjects;
            let subject = db.subjects.remove(i);
            proof {
                lemma_deep_view_remove(before, db.subjects, i as int);
            }
            let pairs = flatten_profiles(&subject.profiles);
            remove_queue_items(&pairs, db);
            Ok((StatusCode::OK, OkResponse::new()))
        },
        None => Err(
            refusal(
                StatusCode::BAD_REQUEST,
                "No such subject exists, or it was not created by the user with the given key.",
            ),
        ),
    }
}

} // verus!
