//! Making a subject.

use vstd::prelude::*;

use crate::concepts::subject::{flatten_profiles, profile_pairs, Profiles, Subject, SubjectView};
use crate::concepts::user::User;
use crate::config::{ConfigView, IConfig};
use crate::database::{
    all_subjects, distinct_platforms, groups_wf, is_subject, subject_with_uuid, Database,
    DatabaseView,
};
use crate::routes::queue::{add_queue_items_with_ids, can_add_all, draw_ids, queue_add_all};
use crate::routes::response::{refusal, CreateResponse, Refusal, StatusCode};
use crate::utils::clock::now;
use crate::utils::random::{new_uuid, EntropyError};
use crate::utils::search::any_where;
use crate::utils::text::{lemma_deep_view_push, Text};

verus! {

#[derive(Debug, PartialEq, Eq)]
pub struct CreateSubjectRequest {
    pub name: String,
    pub profiles: Profiles,
    pub description: Option<String>,
}

/// The subject that a request describes, owned by `owner`, with the
/// identifier `uuid`, made at `now`.
pub open spec fn described_subject(
    cs: CreateSubjectRequest,
    owner: Text,
    uuid: Text,
    now: i64,
) -> SubjectView {
    SubjectView {
        uuid,
        created_at: now,
        created_by: owner,
        name: cs.name@,
        profiles: cs.profiles.deep_view(),
        description: cs.description.deep_view(),
    }
}

/// The subject that `cs` describes, owned by `user`, with the identifier
/// `uuid`, made at `now`.
pub fn subject_from_create_with(cs: CreateSubjectRequest, user: &User, uuid: String, now: i64) -> (subject:
    Subject)
    ensures
        subject@ == described_subject(cs, user@.uuid, uuid@, now),
{
    Subject {
        uuid,
        created_at: now,
        created_by: user.uuid.clone(),
        name: cs.name,
        profiles: cs.profiles,
        description: cs.description,
    }
}

/// The subject that `cs` describes, owned by `user`, with a fresh identifier,
/// made at present. Fails exactly when the system's random source does.
pub fn subject_from_create(cs: CreateSubjectRequest, user: &User) -> (outcome: Result<
    Subject,
    EntropyError,
>)
    ensures
        outcome matches Ok(subject) ==> exists|uuid: Text, at: i64|
            subject@ == #[trigger] described_subject(cs, user@.uuid, uuid, at),
{
    match new_uuid() {
        Ok(uuid) => {
            let at = now();
            Ok(subject_from_create_with(cs, user, uuid, at))
        },
        Err(error) => Err(error),
    }
}

/// The condition of being owned by `owner` under the name `name`.
pub open spec fn subject_named(owner: Text, name: Text) -> spec_fn(SubjectView) -> bool {
    |subject: SubjectView| subject.created_by == owner && subject.name == name
}

/// Whether the configuration knows every platform of `profiles`.
pub open spec fn platforms_valid(profiles: Seq<(Text, Seq<Text>)>, config: ConfigView) -> bool {
    forall|i: int| 0 <= i < profiles.len() ==> config.valid_platform((#[trigger] profiles[i]).0)
}

/// Why a request to make or change a subject is refused whatever identifiers
/// are at hand, if it is: the status and the explanation.
pub open spec fn request_refusal(
    profiles: Seq<(Text, Seq<Text>)>,
    config: ConfigView,
) -> Option<(StatusCode, Text)> {
    if !platforms_valid(profiles, config) {
        Some((StatusCode::BAD_REQUEST, "Profiles contains unsupported platform(s)."@))
    } else if !distinct_platforms(profiles) {
        Some((StatusCode::BAD_REQUEST, "Profiles name a platform more than once."@))
    } else {
        None
    }
}

/// Why a subject is not made whatever identifiers are at hand, if it is not:
/// the status and the explanation.
pub open spec fn create_refusal_outright(
    db: DatabaseView,
    config: ConfigView,
    owner: Text,
    name: Text,
    profiles: Seq<(Text, Seq<Text>)>,
) -> Option<(StatusCode, Text)> {
    if request_refusal(profiles, config) is Some {
        request_refusal(profiles, config)
    } else if any_where(db.subjects, subject_named(owner, name)) {
        Some((StatusCode::CONFLICT, "Subject by that name already exists."@))
    } else {
        None
    }
}

/// Why a subject is not made, if it is not: the status and the explanation.
/// `queue_ids` are the identifiers at hand for new queue entries.
pub open spec fn create_refusal(
    db: DatabaseView,
    config: ConfigView,
    subject: SubjectView,
    queue_ids: Seq<Text>,
) -> Option<(StatusCode, Text)> {
    if create_refusal_outright(db, config, subject.created_by, subject.name, subject.profiles)
        is Some {
        create_refusal_outright(db, config, subject.created_by, subject.name, subject.profiles)
    } else if is_subject(db.subjects, subject.uuid) || !can_add_all(
        db.queue,
        profile_pairs(subject.profiles),
        queue_ids,
    ) {
        Some((StatusCode::INTERNAL_SERVER_ERROR, "Internal server error."@))
    } else {
        None
    }
}

/// The state after `subject` was made: it is the last of the subjects, and it
/// refers to each of its profiles.
pub open spec fn subject_created(
    db: DatabaseView,
    subject: SubjectView,
    queue_ids: Seq<Text>,
) -> DatabaseView {
    DatabaseView {
        subjects: db.subjects.push(subject),
        queue: queue_add_all(db.queue, profile_pairs(subject.profiles), queue_ids),
        ..db
    }
}

/// Whether `owner` has a subject called `name`.
pub fn has_subject_named(db: &Database, owner: &str, name: &str) -> (found: bool)
    ensures
        found == any_where(db@.subjects, subject_named(owner@, name@)),
{
    let mut i: usize = 0;
    while i < db.subjects.len()
        invariant
            i <= db.subjects.len(),
            forall|j: int|
                0 <= j < i ==> !subject_named(owner@, name@)(#[trigger] db@.subjects[j]),
        decreases db.subjects.len() - i,
    {
        assert(db@.subjects[i as int] == db.subjects[i as int]@);
        if *db.subjects[i].created_by == *owner && *db.subjects[i].name == *name {
            return true;
        }
        i += 1;
    }
    false
}

/// Whether the configuration knows every platform of `profiles`.
pub fn profiles_valid(profiles: &Profiles, config: &IConfig) -> (valid: bool)
    requires
        config@.wf(),
    ensures
        valid == platforms_valid(profiles.deep_view(), config@),
{
    let mut i: usize = 0;
    while i < profiles.len()
        invariant
            config@.wf(),
            i <= profiles.len(),
            forall|j: int|
                0 <= j < i ==> config@.valid_platform((#[trigger] profiles.deep_view()[j]).0),
        decreases profiles.len() - i,
    {
        assert(profiles.deep_view()[i as int] == profiles[i as int].deep_view());
        if !config.valid_platform(profiles[i].0.as_str()) {
            return false;
        }
        i += 1;
    }
    true
}

/// One more subject leaves every subject that existed in existence.
pub proof fn lemma_push_keeps_subjects(
    subjects: Seq<SubjectView>,
    groups: Seq<crate::concepts::group::GroupView>,
    subject: SubjectView,
)
    requires
        groups_wf(groups, subjects),
    ensures
        groups_wf(groups, subjects.push(subject)),
{
    let after = subjects.push(subject);
    assert forall|i: int| 0 <= i < groups.len() implies all_subjects(
        (#[trigger] groups[i]).subjects,
        after,
    ) by {
        assert(all_subjects(groups[i].subjects, subjects));
        assert forall|k: int| 0 <= k < groups[i].subjects.len() implies is_subject(
            after,
            #[trigger] groups[i].subjects[k],
        ) by {
            let uuid = groups[i].subjects[k];
            assert(is_subject(subjects, uuid));
            let at = choose|at: int|
                0 <= at < subjects.len() && subject_with_uuid(uuid)(#[trigger] subjects[at]);
            assert(after[at] == subjects[at]);
            assert(subject_with_uuid(uuid)(after[at]));
        }
    }
}

/// Whether `profiles` list no platform twice.
pub fn platforms_distinct(profiles: &Profiles) -> (distinct: bool)
    ensures
        distinct == distinct_platforms(profiles.deep_view()),
{
    let ghost listed = profiles.deep_view();
    let mut j: usize = 0;
    while j < profiles.len()
        invariant
            j <= profiles.len(),
            listed == profiles.deep_view(),
            forall|a: int, b: int|
                0 <= a < b < j ==> (#[trigger] listed[a]).0 != (#[trigger] listed[b]).0,
        decreases profiles.len() - j,
    {
        let mut i: usize = 0;
        while i < j
            invariant
                i <= j < profiles.len(),
                listed == profiles.deep_view(),
                forall|a: int| 0 <= a < i ==> (#[trigger] listed[a]).0 != listed[j as int].0,
            decreases j - i,
        {
            assert(listed[i as int] == profiles[i as int].deep_view());
            assert(listed[j as int] == profiles[j as int].deep_view());
            if *profiles[i].0.as_str() == *profiles[j].0.as_str() {
                return false;
            }
            i += 1;
        }
        j += 1;
    }
    true
}

/// The refusal of a request to make or change a subject that holds whatever
/// identifiers are at hand, if there is one.
pub fn refuse_request(profiles: &Profiles, config: &IConfig) -> (refused: Option<Refusal>)
    requires
        config@.wf(),
    ensures
        match refused {
            Some((status, body)) => request_refusal(profiles.deep_view(), config@) == Some(
                (status, body.text@),
            ) && body.response@ == "ERROR"@,
            None => request_refusal(profiles.deep_view(), config@) is None,
        },
{
    if !profiles_valid(profiles, config) {
        return Some(
            refusal(StatusCode::BAD_REQUEST, "Profiles contains unsupported platform(s)."),
        );
    }
    if !platforms_distinct(profiles) {
        return Some(refusal(StatusCode::BAD_REQUEST, "Profiles name a platform more than once."));
    }
    None
}

fn refuse_outright(user: &User, db: &Database, config: &IConfig, data: &CreateSubjectRequest) -> (refused:
    Option<Refusal>)
    requires
        config@.wf(),
    ensures
        match refused {
            Some((status, body)) => create_refusal_outright(
                db@,
                config@,
                user@.uuid,
                data.name@,
                data.profiles.deep_view(),
            ) == Some((status, body.text@)) && body.response@ == "ERROR"@,
            None => create_refusal_outright(
                db@,
                config@,
                user@.uuid,
                data.name@,
                data.profiles.deep_view(),
            ) is None,
        },
{
    match refuse_request(&data.profiles, config) {
        Some(refused) => {
            return Some(refused);
        },
        None => {},
    }
    if has_subject_named(db, user.uuid.as_str(), data.name.as_str()) {
        return Some(refusal(StatusCode::CONFLICT, "Subject by that name already exists."));
    }
    None
}

/// Makes the subject that `data` describes for `user`, with the identifier
/// `uuid`, at the instant `now`, and refers to each of its profiles in the
/// queue. The `i`-th profile, where it has no entry yet, gets one with the
/// identifier `queue_ids[i]`.
///
/// Refused, with nothing changed: a profile on a platform that the
/// configuration does not know, or a platform that is listed twice (bad
/// request); a name that the operator has used for another subject
/// (conflict); an identifier that is taken, or identifiers for the queue that
/// are not one for each profile, fresh and distinct (internal error).
pub fn create_with(
    user: &User,
    db: &mut Database,
    config: &IConfig,
    data: CreateSubjectRequest,
    uuid: String,
    now: i64,
    queue_ids: Vec<String>,
) -> (answer: Result<(StatusCode, CreateResponse), Refusal>)
    requires
        config@.wf(),
        old(db)@.wf(),
    ensures
        final(db)@.wf(),
        match answer {
            Ok((status, body)) => {
                &&& create_refusal(
                    old(db)@,
                    config@,
                    described_subject(data, user@.uuid, uuid@, now),
                    queue_ids.deep_view(),
                ) is None
                &&& status == StatusCode::CREATED
                &&& body.response@ == "OK"@
                &&& body.uuid@ == uuid@
                &&& final(db)@ == subject_created(
                    old(db)@,
                    described_subject(data, user@.uuid, uuid@, now),
                    queue_ids.deep_view(),
                )
            },
            Err((status, body)) => {
                &&& create_refusal(
                    old(db)@,
                    config@,
                    described_subject(data, user@.uuid, uuid@, now),
                    queue_ids.deep_view(),
                ) == Some((status, body.text@))
                &&& body.response@ == "ERROR"@
                &&& final(db)@ == old(db)@
            },
        },
{
    let ghost described = described_subject(data, user@.uuid, uuid@, now);
    match refuse_outright(user, db, config, &data) {
        Some(refused) => {
            return Err(refused);
        },
        None => {},
    }
    let pairs = flatten_profiles(&data.profiles);
    if db.is_subject(uuid.as_str()) || queue_ids.len() != pairs.len()
        || !crate::routes::queue::ids_fresh(&db.queue, &queue_ids)
        || !crate::routes::queue::room_for_pairs(&db.queue, &pairs) {
        return Err(refusal(StatusCode::INTERNAL_SERVER_ERROR, "Internal server error."));
    }
    let subject = subject_from_create_with(data, user, uuid, now);
    let body = CreateResponse::from_uuid(subject.uuid.as_str());
    let ghost before = db.subjects;
    db.subjects.push(subject);
    proof {
        lemma_deep_view_push(before, db.subjects, subject);
        lemma_push_keeps_subjects(old(db)@.subjects, old(db)@.groups, described);
        assert forall|i: int, j: int| 0 <= i < j < db@.subjects.len() implies {
            &&& (#[trigger] db@.subjects[i]).uuid != (#[trigger] db@.subjects[j]).uuid
            &&& !(db@.subjects[i].created_by == db@.subjects[j].created_by && db@.subjects[i].name
                == db@.subjects[j].name)
        } by {
            if j == old(db)@.subjects.len() {
                assert(db@.subjects[i] == old(db)@.subjects[i]);
                assert(!subject_named(described.created_by, described.name)(old(db)@.subjects[i]));
                assert(!subject_with_uuid(described.uuid)(old(db)@.subjects[i]));
            } else {
                assert(db@.subjects[i] == old(db)@.subjects[i]);
                assert(db@.subjects[j] == old(db)@.subjects[j]);
            }
        }
        assert forall|i: int| 0 <= i < db@.subjects.len() implies distinct_platforms(
            (#[trigger] db@.subjects[i]).profiles,
        ) by {
            if i < old(db)@.subjects.len() {
                assert(db@.subjects[i] == old(db)@.subjects[i]);
            }
        }
    }
    let recorded = add_queue_items_with_ids(&pairs, db, &queue_ids);
    assert(recorded);
    Ok((StatusCode::CREATED, body))
}

/// Makes the subject that `data` describes for `user`, with a fresh
/// identifier, at present, and refers to each of its profiles in the queue.
/// Identifiers are drawn before anything changes.
///
/// Refused, with nothing changed: what is refused whatever identifiers are
/// at hand, as [`create_with`] says; otherwise, as an internal error, where
/// the system's random source fails or a drawn identifier is taken.
pub fn create(user: &User, db: &mut Database, config: &IConfig, data: CreateSubjectRequest) -> (answer:
    Result<(StatusCode, CreateResponse), Refusal>)
    requires
        config@.wf(),
        old(db)@.wf(),
    ensures
        final(db)@.wf(),
        answer is Ok ==> {
            &&& answer->Ok_0.0 == StatusCode::CREATED
            &&& answer->Ok_0.1.response@ == "OK"@
            &&& exists|at: i64, queue_ids: Seq<Text>|
                {
                    &&& create_refusal(
                        old(db)@,
                        config@,
                        described_subject(data, user@.uuid, answer->Ok_0.1.uuid@, at),
                        queue_ids,
                    ) is None
                    &&& final(db)@ == #[trigger] subject_created(
                        old(db)@,
                        described_subject(data, user@.uuid, answer->Ok_0.1.uuid@, at),
                        queue_ids,
                    )
                }
        },
        answer is Err ==> {
            &&& answer->Err_0.1.response@ == "ERROR"@
            &&& final(db)@ == old(db)@
            &&& (answer->Err_0.0, answer->Err_0.1.text@) == match create_refusal_outright(
                old(db)@,
                config@,
                user@.uuid,
                data.name@,
                data.profiles.deep_view(),
            ) {
                Some(refused) => refused,
                None => (StatusCode::INTERNAL_SERVER_ERROR, "Internal server error."@),
            }
        },
{
    match refuse_outright(user, db, config, &data) {
        Some(refused) => {
            return Err(refused);
        },
        None => {},
    }
    let count = flatten_profiles(&data.profiles).len();
    let uuid = match new_uuid() {
        Ok(uuid) => uuid,
        Err(_) => {
            return Err(refusal(StatusCode::INTERNAL_SERVER_ERROR, "Internal server error."));
        },
    };
    let queue_ids = match draw_ids(count) {
        Ok(queue_ids) => queue_ids,
        Err(_) => {
            return Err(refusal(StatusCode::INTERNAL_SERVER_ERROR, "Internal server error."));
        },
    };
    let at = now();
    let ghost minted = uuid@;
    let ghost drawn = queue_ids.deep_view();
    let answer = create_with(user, db, config, data, uuid, at, queue_ids);
    proof {
        let described = described_subject(data, user@.uuid, minted, at);
        if answer is Ok {
            assert(db@ == subject_created(old(db)@, described, drawn));
        }
    }
    answer
}

} // verus!
