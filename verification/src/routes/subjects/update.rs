//! Changing a subject.

use vstd::prelude::*;

use crate::concepts::subject::{flatten_profiles, profile_pairs, Profiles, Subject, SubjectView};
use crate::concepts::user::User;
use crate::database::{
    all_subjects, distinct_platforms, groups_wf, is_subject, subject_with_uuid, subjects_wf,
    Database, DatabaseView,
};
use crate::routes::queue::{
    add_queue_items_with_ids, can_add_all, draw_ids, ids_fresh, queue_add_all, queue_remove_all,
    remove_queue_items,
};
use crate::routes::response::{refusal, OkResponse, Refusal, StatusCode};
use crate::routes::subjects::create::{platforms_distinct, subject_named};
use crate::routes::subjects::delete::{find_subject, subject_owned};
use crate::utils::search::{first_where, lemma_first_where};
use crate::utils::text::{lemma_deep_view_push, lemma_deep_view_update, Text};

verus! {

#[derive(Debug, PartialEq, Eq)]
pub struct UpdateSubjectRequest {
    pub uuid: String,
    pub name: String,
    pub profiles: Profiles,
    pub description: Option<String>,
}

/// The condition of not being among `pairs`.
pub open spec fn absent_from(pairs: Seq<(Text, Text)>) -> spec_fn((Text, Text)) -> bool {
    |pair: (Text, Text)| !pairs.contains(pair)
}

/// Whether `owner` has a subject called `name` elsewhere than at index `i`.
pub open spec fn name_taken_elsewhere(
    subjects: Seq<SubjectView>,
    owner: Text,
    name: Text,
    i: int,
) -> bool {
    exists|j: int|
        0 <= j < subjects.len() && j != i && subject_named(owner, name)(#[trigger] subjects[j])
}

/// The subject as changed: its name, profiles and description are those of
/// the request.
pub open spec fn changed_subject(subject: SubjectView, data: UpdateSubjectRequest) -> SubjectView {
    SubjectView {
        name: data.name@,
        profiles: data.profiles.deep_view(),
        description: data.description.deep_view(),
        ..subject
    }
}

/// The state after the subject at index `i` was changed as `data` asks: it
/// refers to the profiles that it did not list before, and no longer to those
/// that it lists no more.
pub open spec fn subject_updated(
    db: DatabaseView,
    i: int,
    data: UpdateSubjectRequest,
    queue_ids: Seq<Text>,
) -> DatabaseView {
    let old_pairs = profile_pairs(db.subjects[i].profiles);
    let new_pairs = profile_pairs(data.profiles.deep_view());
    DatabaseView {
        subjects: db.subjects.update(i, changed_subject(db.subjects[i], data)),
        queue: queue_remove_all(
            queue_add_all(db.queue, new_pairs.filter(absent_from(old_pairs)), queue_ids),
            old_pairs.filter(absent_from(new_pairs)),
        ),
        ..db
    }
}

/// Why a subject is not changed whatever identifiers are at hand, if it is
/// not: the status and the explanation.
pub open spec fn update_refusal_outright(
    db: DatabaseView,
    owner: Text,
    data: UpdateSubjectRequest,
) -> Option<(StatusCode, Text)> {
    match first_where(db.subjects, subject_owned(data.uuid@, owner)) {
        None => Some(
            (StatusCode::BAD_REQUEST, "Subject does not exist or was not created by you."@),
        ),
        Some(i) => if !distinct_platforms(data.profiles.deep_view()) {
            Some((StatusCode::BAD_REQUEST, "Profiles name a platform more than once."@))
        } else if name_taken_elsewhere(db.subjects, owner, data.name@, i) {
            Some((StatusCode::CONFLICT, "Subject by that name already exists."@))
        } else {
            None
        },
    }
}

/// The profiles that a change adds to the subject at index `i`: those that
/// the request lists and the subject did not.
pub open spec fn added_pairs(db: DatabaseView, i: int, data: UpdateSubjectRequest) -> Seq<
    (Text, Text),
> {
    profile_pairs(data.profiles.deep_view()).filter(
        absent_from(profile_pairs(db.subjects[i].profiles)),
    )
}

/// Why a subject is not changed, if it is not: the status and the
/// explanation. `queue_ids` are the identifiers at hand for new queue
/// entries, one for each profile that the change adds.
pub open spec fn update_refusal(
    db: DatabaseView,
    owner: Text,
    data: UpdateSubjectRequest,
    queue_ids: Seq<Text>,
) -> Option<(StatusCode, Text)> {
    if update_refusal_outright(db, owner, data) is Some {
        update_refusal_outright(db, owner, data)
    } else if !can_add_all(
        db.queue,
        added_pairs(db, first_where(db.subjects, subject_owned(data.uuid@, owner)).unwrap(), data),
        queue_ids,
    ) {
        Some((StatusCode::INTERNAL_SERVER_ERROR, "Internal server error."@))
    } else {
        None
    }
}

fn contains_pair(pairs: &Vec<(String, String)>, platform: &str, id: &str) -> (found: bool)
    ensures
        found == pairs.deep_view().contains((platform@, id@)),
{
    let mut i: usize = 0;
    while i < pairs.len()
        invariant
            i <= pairs.len(),
            forall|j: int| 0 <= j < i ==> pairs.deep_view()[j] != (platform@, id@),
        decreases pairs.len() - i,
    {
        assert(pairs.deep_view()[i as int] == pairs[i as int].deep_view());
        if *pairs[i].0.as_str() == *platform && *pairs[i].1.as_str() == *id {
            return true;
        }
        i += 1;
    }
    false
}

/// Those of `pairs` that are not among `others`, in their order.
pub fn pairs_absent_from(pairs: &Vec<(String, String)>, others: &Vec<(String, String)>) -> (kept: Vec<
    (String, String),
>)
    ensures
        kept.deep_view() == pairs.deep_view().filter(absent_from(others.deep_view())),
{
    let mut kept: Vec<(String, String)> = Vec::new();
    let ghost all = pairs.deep_view();
    let ghost absent = absent_from(others.deep_view());
    let mut i: usize = 0;
    proof {
        reveal(Seq::filter);
    }
    while i < pairs.len()
        invariant
            i <= pairs.len(),
            all == pairs.deep_view(),
            absent == absent_from(others.deep_view()),
            kept.deep_view() == all.take(i as int).filter(absent),
        decreases pairs.len() - i,
    {
        assert(all[i as int] == pairs[i as int].deep_view());
        proof {
            let sofar = all.take(i as int);
            assert(all.take(i + 1) =~= sofar.push(all[i as int]));
            sofar.lemma_filter_push(all[i as int], absent);
        }
        if !contains_pair(others, pairs[i].0.as_str(), pairs[i].1.as_str()) {
            let ghost before = kept;
            let item = (pairs[i].0.clone(), pairs[i].1.clone());
            kept.push(item);
            proof {
                lemma_deep_view_push(before, kept, item);
            }
        }
        i += 1;
    }
    assert(all.take(pairs.len() as int) =~= all);
    kept
}

fn name_taken(db: &Database, owner: &str, name: &str, except: usize) -> (taken: bool)
    ensures
        taken == name_taken_elsewhere(db@.subjects, owner@, name@, except as int),
{
    let mut j: usize = 0;
    while j < db.subjects.len()
        invariant
            j <= db.subjects.len(),
            forall|k: int|
                0 <= k < j && k != except ==> !subject_named(owner@, name@)(
                    #[trigger] db@.subjects[k],
                ),
        decreases db.subjects.len() - j,
    {
        assert(db@.subjects[j as int] == db.subjects[j as int]@);
        if j != except && *db.subjects[j].created_by == *owner && *db.subjects[j].name == *name {
            return true;
        }
        j += 1;
    }
    false
}

/// A subject changed in place, with its identifier and owner kept and its
/// name not taken elsewhere, leaves what holds of subjects and groups at rest
/// in force.
pub proof fn lemma_update_keeps_wf(
    subjects: Seq<SubjectView>,
    groups: Seq<crate::concepts::group::GroupView>,
    i: int,
    changed: SubjectView,
)
    requires
        subjects_wf(subjects),
        groups_wf(groups, subjects),
        0 <= i < subjects.len(),
        changed.uuid == subjects[i].uuid,
        changed.created_by == subjects[i].created_by,
        distinct_platforms(changed.profiles),
        !name_taken_elsewhere(subjects, changed.created_by, changed.name, i),
    ensures
        subjects_wf(subjects.update(i, changed)),
        groups_wf(groups, subjects.update(i, changed)),
{
    let after = subjects.update(i, changed);
    assert forall|a: int| 0 <= a < after.len() implies distinct_platforms(
        (#[trigger] after[a]).profiles,
    ) by {
        if a != i {
            assert(after[a] == subjects[a]);
        }
    }
    assert forall|a: int, b: int| 0 <= a < b < after.len() implies {
        &&& (#[trigger] after[a]).uuid != (#[trigger] after[b]).uuid
        &&& !(after[a].created_by == after[b].created_by && after[a].name == after[b].name)
    } by {
        assert(subjects[a].uuid != subjects[b].uuid);
        if a == i {
            assert(!subject_named(changed.created_by, changed.name)(subjects[b]));
        }
        if b == i {
            assert(!subject_named(changed.created_by, changed.name)(subjects[a]));
        }
    }
    assert forall|g: int| 0 <= g < groups.len() implies all_subjects(
        (#[trigger] groups[g]).subjects,
        after,
    ) by {
        assert(all_subjects(groups[g].subjects, subjects));
        assert forall|k: int| 0 <= k < groups[g].subjects.len() implies is_subject(
            after,
            #[trigger] groups[g].subjects[k],
        ) by {
            let uuid = groups[g].subjects[k];
            assert(is_subject(subjects, uuid));
            let at = choose|at: int|
                0 <= at < subjects.len() && subject_with_uuid(uuid)(#[trigger] subjects[at]);
            assert(subject_with_uuid(uuid)(after[at]));
        }
    }
}

fn refuse_outright(user: &User, db: &Database, data: &UpdateSubjectRequest) -> (refused: Result<
    usize,
    Refusal,
>)
    ensures
        match refused {
            Ok(i) => update_refusal_outright(db@, user@.uuid, *data) is None && first_where(
                db@.subjects,
                subject_owned(data.uuid@, user@.uuid),
            ) == Some(i as int) && i < db.subjects.len(),
            Err((status, body)) => update_refusal_outright(db@, user@.uuid, *data) == Some(
                (status, body.text@),
            ) && body.response@ == "ERROR"@,
        },
{
    let i = match find_subject(db, data.uuid.as_str(), user.uuid.as_str()) {
        Some(i) => i,
        None => {
            return Err(
                refusal(
                    StatusCode::BAD_REQUEST,
                    "Subject does not exist or was not created by you.",
                ),
            );
        },
    };
    if !platforms_distinct(&data.profiles) {
        return Err(refusal(StatusCode::BAD_REQUEST, "Profiles name a platform more than once."));
    }
    if name_taken(db, user.uuid.as_str(), data.name.as_str(), i) {
        return Err(refusal(StatusCode::CONFLICT, "Subject by that name already exists."));
    }
    Ok(i)
}

/// Changes the subject that `data` names, if it is `user`'s, to the name,
/// profiles and description of `data`. The subject refers to the profiles
/// that it did not list before and no longer to those that it lists no more.
/// The `i`-th profile that it did not list before, where it has no entry
/// yet, gets one with the identifier `queue_ids[i]`.
///
/// Refused, with nothing changed: a subject that `user` does not have, or a
/// platform that is listed twice (bad request); a name that the operator has
/// used for another subject (conflict); identifiers for the queue that are
/// not one for each added profile, fresh and distinct (internal error).
pub fn update_with(user: &User, db: &mut Database, data: UpdateSubjectRequest, queue_ids: Vec<String>) -> (answer:
    Result<(StatusCode, OkResponse), Refusal>)
    requires
        old(db)@.wf(),
    ensures
        final(db)@.wf(),
        match answer {
            Ok((status, body)) => {
                &&& update_refusal(old(db)@, user@.uuid, data, queue_ids.deep_view()) is None
                &&& first_where(old(db)@.subjects, subject_owned(data.uuid@, user@.uuid))
                    matches Some(i)
                &&& status == StatusCode::OK
                &&& body.response@ == "OK"@
                &&& final(db)@ == subject_updated(old(db)@, i, data, queue_ids.deep_view())
            },
            Err((status, body)) => {
                &&& update_refusal(old(db)@, user@.uuid, data, queue_ids.deep_view()) == Some(
                    (status, body.text@),
                )
                &&& body.response@ == "ERROR"@
                &&& final(db)@ == old(db)@
            },
        },
{
    let i = match refuse_outright(user, db, &data) {
        Ok(i) => i,
        Err(refused) => {
            return Err(refused);
        },
    };
    assert(db@.subjects[i as int] == db.subjects[i as int]@);
    let old_profiles = flatten_profiles(&db.subjects[i].profiles);
    let new_profiles = flatten_profiles(&data.profiles);
    let added_profiles = pairs_absent_from(&new_profiles, &old_profiles);
    let removed_profiles = pairs_absent_from(&old_profiles, &new_profiles);
    if queue_ids.len() != added_profiles.len() || !ids_fresh(&db.queue, &queue_ids)
        || !crate::routes::queue::room_for_pairs(&db.queue, &added_profiles) {
        return Err(refusal(StatusCode::INTERNAL_SERVER_ERROR, "Internal server error."));
    }
    let ghost changed = changed_subject(old(db)@.subjects[i as int], data);
    proof {
        lemma_first_where(old(db)@.subjects, subject_owned(data.uuid@, user@.uuid));
        lemma_update_keeps_wf(old(db)@.subjects, old(db)@.groups, i as int, changed);
    }
    let subject = Subject {
        uuid: db.subjects[i].uuid.clone(),
        created_at: db.subjects[i].created_at,
        created_by: db.subjects[i].created_by.clone(),
        name: data.name,
        profiles: data.profiles,
        description: data.description,
    };
    let ghost before = db.subjects;
    db.subjects.set(i, subject);
    proof {
        lemma_deep_view_update(before, db.subjects, i as int, subject);
    }
    let recorded = add_queue_items_with_ids(&added_profiles, db, &queue_ids);
    assert(recorded);
    remove_queue_items(&removed_profiles, db);
    assert(db@ == subject_updated(old(db)@, i as int, data, queue_ids.deep_view()));
    Ok((StatusCode::OK, OkResponse::new()))
}

/// Changes the subject that `data` names, if it is `user`'s, to the name,
/// profiles and description of `data`, with identifiers for new queue
/// entries that are drawn before anything changes.
///
/// Refused, with nothing changed: what is refused whatever identifiers are
/// at hand, as [`update_with`] says; otherwise, as an internal error, where
/// the system's random source fails, a drawn identifier is taken, or a count
/// has no room. A change that adds no profile draws nothing and is made
/// whenever it is not refused outright.
pub fn update(user: &User, db: &mut Database, data: UpdateSubjectRequest) -> (answer: Result<
    (StatusCode, OkResponse),
    Refusal,
>)
    requires
        old(db)@.wf(),
    ensures
        final(db)@.wf(),
        answer is Ok ==> {
            &&& answer->Ok_0.0 == StatusCode::OK
            &&& answer->Ok_0.1.response@ == "OK"@
            &&& first_where(old(db)@.subjects, subject_owned(data.uuid@, user@.uuid)) matches Some(
                i,
            )
            &&& exists|queue_ids: Seq<Text>|
                {
                    &&& update_refusal(old(db)@, user@.uuid, data, queue_ids) is None
                    &&& final(db)@ == #[trigger] subject_updated(old(db)@, i, data, queue_ids)
                }
        },
        answer is Err ==> {
            &&& answer->Err_0.1.response@ == "ERROR"@
            &&& final(db)@ == old(db)@
            &&& (answer->Err_0.0, answer->Err_0.1.text@) == match update_refusal_outright(
                old(db)@,
                user@.uuid,
                data,
            ) {
                Some(refused) => refused,
                None => (StatusCode::INTERNAL_SERVER_ERROR, "Internal server error."@),
            }
        },
        first_where(old(db)@.subjects, subject_owned(data.uuid@, user@.uuid)) matches Some(i)
            ==> (update_refusal_outright(old(db)@, user@.uuid, data) is None && added_pairs(
            old(db)@,
            i,
            data,
        ).len() == 0 ==> {
            &&& answer is Ok
            &&& final(db)@ == subject_updated(old(db)@, i, data, Seq::empty())
        }),
{
    let i = match refuse_outright(user, db, &data) {
        Ok(i) => i,
        Err(refused) => {
            return Err(refused);
        },
    };
    assert(db@.subjects[i as int] == db.subjects[i as int]@);
    let old_profiles = flatten_profiles(&db.subjects[i].profiles);
    let new_profiles = flatten_profiles(&data.profiles);
    let count = pairs_absent_from(&new_profiles, &old_profiles).len();
    let queue_ids = match draw_ids(count) {
        Ok(queue_ids) => queue_ids,
        Err(_) => {
            return Err(refusal(StatusCode::INTERNAL_SERVER_ERROR, "Internal server error."));
        },
    };
    let ghost drawn = queue_ids.deep_view();
    let answer = update_with(user, db, data, queue_ids);
    proof {
        if answer is Ok {
            assert(db@ == subject_updated(old(db)@, i as int, data, drawn));
        }
        if added_pairs(old(db)@, i as int, data).len() == 0 {
            assert(drawn =~= Seq::empty());
            assert(crate::routes::queue::has_room(
                old(db)@.queue,
                added_pairs(old(db)@, i as int, data),
            )) by {
                assert forall|platform: Text, platform_id: Text|
                    crate::routes::queue::references_of(old(db)@.queue, platform, platform_id)
                        <= u64::MAX by {
                    lemma_first_where(
                        old(db)@.queue,
                        crate::routes::queue::for_profile(platform, platform_id),
                    );
                }
            }
        }
    }
    answer
}

} // verus!
