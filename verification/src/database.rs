//! The state that the server's rules read and change.
//!
//! A [`Database`] holds six collections. Its view, a [`DatabaseView`], is what
//! the contracts of the crate speak of, and [`DatabaseView::wf`] is what holds
//! of it between any two operations.

use vstd::prelude::*;

use crate::concepts::data::{Data, DataView};
use crate::concepts::group::{Group, GroupView};
use crate::concepts::subject::{Subject, SubjectView};
use crate::concepts::user::{User, UserView};
use crate::routes::queue::{InternalQueueItem, QueueItemView};
use crate::routes::users::invite::{Referral, ReferralView};
use crate::utils::search::any_where;
use crate::utils::text::Text;

verus! {

pub struct Database {
    pub users: Vec<User>,
    pub subjects: Vec<Subject>,
    pub groups: Vec<Group>,
    pub queue: Vec<InternalQueueItem>,
    pub data: Vec<Data>,
    pub referrals: Vec<Referral>,
}

/// The mathematical value of a [`Database`].
pub struct DatabaseView {
    pub users: Seq<UserView>,
    pub subjects: Seq<SubjectView>,
    pub groups: Seq<GroupView>,
    pub queue: Seq<QueueItemView>,
    pub data: Seq<DataView>,
    pub referrals: Seq<ReferralView>,
}

impl View for Database {
    type V = DatabaseView;

    open spec fn view(&self) -> DatabaseView {
        DatabaseView {
            users: self.users.deep_view(),
            subjects: self.subjects.deep_view(),
            groups: self.groups.deep_view(),
            queue: self.queue.deep_view(),
            data: self.data.deep_view(),
            referrals: self.referrals.deep_view(),
        }
    }
}

/// The condition of carrying the identifier `uuid`.
pub open spec fn user_with_uuid(uuid: Text) -> spec_fn(UserView) -> bool {
    |user: UserView| user.uuid == uuid
}

/// The condition of carrying the identifier `uuid`.
pub open spec fn subject_with_uuid(uuid: Text) -> spec_fn(SubjectView) -> bool {
    |subject: SubjectView| subject.uuid == uuid
}

/// Whether an operator with identifier `uuid` is registered.
pub open spec fn is_operator(users: Seq<UserView>, uuid: Text) -> bool {
    any_where(users, user_with_uuid(uuid))
}

/// Whether a subject with identifier `uuid` exists.
pub open spec fn is_subject(subjects: Seq<SubjectView>, uuid: Text) -> bool {
    any_where(subjects, subject_with_uuid(uuid))
}

/// Whether no profile has two entries.
pub open spec fn distinct_profiles(queue: Seq<QueueItemView>) -> bool {
    forall|i: int, j: int|
        0 <= i < j < queue.len() ==> !((#[trigger] queue[i]).platform == (
        #[trigger] queue[j]).platform && queue[i].platform_id == queue[j].platform_id)
}

/// Whether no identifier goes with two entries.
pub open spec fn distinct_queue_ids(queue: Seq<QueueItemView>) -> bool {
    forall|i: int, j: int|
        0 <= i < j < queue.len() ==> (#[trigger] queue[i]).queue_id != (
        #[trigger] queue[j]).queue_id
}

/// What holds of the queue at rest: every entry is referred to at least once,
/// a lease has a holder exactly when it has an instant, no profile has two
/// entries, and no identifier goes with two entries.
pub open spec fn queue_wf(queue: Seq<QueueItemView>) -> bool {
    &&& forall|i: int|
        0 <= i < queue.len() ==> {
            &&& 1 <= (#[trigger] queue[i]).references <= u64::MAX
            &&& queue[i].lock_holder is Some <==> queue[i].lock_acquired_at is Some
        }
    &&& distinct_profiles(queue)
    &&& distinct_queue_ids(queue)
}

/// Whether no platform is listed twice: what makes a list of platforms with
/// their identifiers a table by platform.
pub open spec fn distinct_platforms(profiles: Seq<(Text, Seq<Text>)>) -> bool {
    forall|i: int, j: int|
        0 <= i < j < profiles.len() ==> (#[trigger] profiles[i]).0 != (#[trigger] profiles[j]).0
}

/// Whether no two subjects have one identifier, and no owner two subjects of
/// one name.
pub open spec fn distinct_subjects(subjects: Seq<SubjectView>) -> bool {
    forall|i: int, j: int|
        0 <= i < j < subjects.len() ==> {
            &&& (#[trigger] subjects[i]).uuid != (#[trigger] subjects[j]).uuid
            &&& !(subjects[i].created_by == subjects[j].created_by && subjects[i].name
                == subjects[j].name)
        }
}

/// What holds of the subjects at rest: no identifier occurs twice, no owner
/// has two subjects of one name, and no subject lists a platform twice.
pub open spec fn subjects_wf(subjects: Seq<SubjectView>) -> bool {
    &&& distinct_subjects(subjects)
    &&& forall|i: int|
        0 <= i < subjects.len() ==> distinct_platforms((#[trigger] subjects[i]).profiles)
}

/// What holds of the groups at rest: no identifier occurs twice, no owner has
/// two groups of one name, and every subject that a group lists exists.
pub open spec fn groups_wf(groups: Seq<GroupView>, subjects: Seq<SubjectView>) -> bool {
    &&& forall|i: int, j: int|
        0 <= i < j < groups.len() ==> {
            &&& (#[trigger] groups[i]).uuid != (#[trigger] groups[j]).uuid
            &&& !(groups[i].created_by == groups[j].created_by && groups[i].name == groups[j].name)
        }
    &&& forall|i: int| 0 <= i < groups.len() ==> all_subjects((#[trigger] groups[i]).subjects, subjects)
}

/// Whether every identifier of `listed` is that of a subject.
pub open spec fn all_subjects(listed: Seq<Text>, subjects: Seq<SubjectView>) -> bool {
    forall|k: int| 0 <= k < listed.len() ==> is_subject(subjects, #[trigger] listed[k])
}

/// What holds of the operators at rest: no identifier and no key digest
/// occurs twice.
pub open spec fn users_wf(users: Seq<UserView>) -> bool {
    forall|i: int, j: int|
        0 <= i < j < users.len() ==> {
            &&& (#[trigger] users[i]).uuid != (#[trigger] users[j]).uuid
            &&& users[i].hashed_key != users[j].hashed_key
        }
}

/// What holds of the records at rest: each is attributed, with an instant, to
/// a registered operator.
pub open spec fn data_wf(data: Seq<DataView>, users: Seq<UserView>) -> bool {
    forall|i: int|
        0 <= i < data.len() ==> {
            &&& (#[trigger] data[i]).added_at() is Some
            &&& data[i].added_by() matches Some(operator) && is_operator(users, operator)
        }
}

/// What holds of the invites at rest: each was issued by a registered
/// operator, each is used exactly when it names who used it, a registered
/// operator too, and no code digest occurs twice.
pub open spec fn referrals_wf(referrals: Seq<ReferralView>, users: Seq<UserView>) -> bool {
    &&& forall|i: int|
        0 <= i < referrals.len() ==> {
            &&& is_operator(users, (#[trigger] referrals[i]).created_by)
            &&& referrals[i].used <==> referrals[i].used_by is Some
            &&& referrals[i].used_by matches Some(operator) ==> is_operator(users, operator)
        }
    &&& forall|i: int, j: int|
        0 <= i < j < referrals.len() ==> (#[trigger] referrals[i]).hashed_code
            != (#[trigger] referrals[j]).hashed_code
}

/// Where every operator stays registered, records and invites stay attributed
/// to registered operators.
pub proof fn lemma_operators_stay(
    before: Seq<UserView>,
    after: Seq<UserView>,
    data: Seq<DataView>,
    referrals: Seq<ReferralView>,
)
    requires
        forall|uuid: Text| is_operator(before, uuid) ==> is_operator(after, uuid),
        data_wf(data, before),
        referrals_wf(referrals, before),
    ensures
        data_wf(data, after),
        referrals_wf(referrals, after),
{
    assert forall|i: int| 0 <= i < data.len() implies {
        &&& (#[trigger] data[i]).added_at() is Some
        &&& data[i].added_by() matches Some(operator) && is_operator(after, operator)
    } by {
        assert(is_operator(before, data[i].added_by().unwrap()));
    }
    assert forall|i: int| 0 <= i < referrals.len() implies {
        &&& is_operator(after, (#[trigger] referrals[i]).created_by)
        &&& referrals[i].used <==> referrals[i].used_by is Some
        &&& referrals[i].used_by matches Some(operator) ==> is_operator(after, operator)
    } by {
        assert(is_operator(before, referrals[i].created_by));
        if referrals[i].used_by is Some {
            assert(is_operator(before, referrals[i].used_by.unwrap()));
        }
    }
}

/// One more operator leaves every operator registered.
pub proof fn lemma_push_keeps_operators(users: Seq<UserView>, user: UserView)
    ensures
        forall|uuid: Text| is_operator(users, uuid) ==> is_operator(users.push(user), uuid),
        is_operator(users.push(user), user.uuid),
{
    let after = users.push(user);
    assert forall|uuid: Text| is_operator(users, uuid) implies is_operator(after, uuid) by {
        let at = choose|at: int| 0 <= at < users.len() && user_with_uuid(uuid)(#[trigger] users[at]);
        assert(after[at] == users[at]);
        assert(user_with_uuid(uuid)(after[at]));
    }
    assert(user_with_uuid(user.uuid)(after[users.len() as int]));
}

/// An operator changed in place, with the identifier kept, leaves every
/// operator registered.
pub proof fn lemma_update_keeps_operators(users: Seq<UserView>, i: int, user: UserView)
    requires
        0 <= i < users.len(),
        user.uuid == users[i].uuid,
    ensures
        forall|uuid: Text| is_operator(users, uuid) ==> is_operator(users.update(i, user), uuid),
{
    let after = users.update(i, user);
    assert forall|uuid: Text| is_operator(users, uuid) implies is_operator(after, uuid) by {
        let at = choose|at: int| 0 <= at < users.len() && user_with_uuid(uuid)(#[trigger] users[at]);
        assert(user_with_uuid(uuid)(after[at]));
    }
}

impl DatabaseView {
    /// What holds of the state between any two operations.
    pub open spec fn wf(self) -> bool {
        &&& queue_wf(self.queue)
        &&& subjects_wf(self.subjects)
        &&& groups_wf(self.groups, self.subjects)
        &&& users_wf(self.users)
        &&& data_wf(self.data, self.users)
        &&& referrals_wf(self.referrals, self.users)
    }
}

impl Database {
    /// The empty state.
    pub fn new() -> (db: Self)
        ensures
            db@.wf(),
            db@.users.len() == 0,
            db@.subjects.len() == 0,
            db@.groups.len() == 0,
            db@.queue.len() == 0,
            db@.data.len() == 0,
            db@.referrals.len() == 0,
    {
        Database {
            users: Vec::new(),
            subjects: Vec::new(),
            groups: Vec::new(),
            queue: Vec::new(),
            data: Vec::new(),
            referrals: Vec::new(),
        }
    }

    /// Whether an operator with identifier `uuid` is registered.
    pub fn is_operator(&self, uuid: &str) -> (registered: bool)
        ensures
            registered == is_operator(self@.users, uuid@),
    {
        let mut i: usize = 0;
        while i < self.users.len()
            invariant
                i <= self.users.len(),
                forall|j: int| 0 <= j < i ==> !user_with_uuid(uuid@)(#[trigger] self@.users[j]),
            decreases self.users.len() - i,
        {
            assert(self@.users[i as int] == self.users[i as int]@);
            if *self.users[i].uuid == *uuid {
                return true;
            }
            i += 1;
        }
        false
    }

    /// Whether a subject with identifier `uuid` exists.
    pub fn is_subject(&self, uuid: &str) -> (exists_: bool)
        ensures
            exists_ == is_subject(self@.subjects, uuid@),
    {
        let mut i: usize = 0;
        while i < self.subjects.len()
            invariant
                i <= self.subjects.len(),
                forall|j: int|
                    0 <= j < i ==> !subject_with_uuid(uuid@)(#[trigger] self@.subjects[j]),
            decreases self.subjects.len() - i,
        {
            assert(self@.subjects[i as int] == self.subjects[i as int]@);
            if *self.subjects[i].uuid == *uuid {
                return true;
            }
            i += 1;
        }
        false
    }
}

/// Every entry of the queue at rest is referred to at least once, and its
/// lease has a holder exactly when it has an instant.
pub proof fn lemma_entry_at_rest(db: DatabaseView, i: int)
    requires
        db.wf(),
        0 <= i < db.queue.len(),
    ensures
        db.queue[i].references >= 1,
        db.queue[i].lock_holder is Some <==> db.queue[i].lock_acquired_at is Some,
{
}

/// No profile has two entries in the queue at rest.
pub proof fn lemma_entry_per_profile(db: DatabaseView, i: int, j: int)
    requires
        db.wf(),
        0 <= i < db.queue.len(),
        0 <= j < db.queue.len(),
        db.queue[i].platform == db.queue[j].platform,
        db.queue[i].platform_id == db.queue[j].platform_id,
    ensures
        i == j,
{
    if i < j {
        assert(!(db.queue[i].platform == db.queue[j].platform && db.queue[i].platform_id
            == db.queue[j].platform_id));
    }
    if j < i {
        assert(!(db.queue[j].platform == db.queue[i].platform && db.queue[j].platform_id
            == db.queue[i].platform_id));
    }
}

/// No identifier goes with two entries of the queue at rest.
pub proof fn lemma_entry_per_queue_id(db: DatabaseView, i: int, j: int)
    requires
        db.wf(),
        0 <= i < db.queue.len(),
        0 <= j < db.queue.len(),
        db.queue[i].queue_id == db.queue[j].queue_id,
    ensures
        i == j,
{
    if i < j {
        assert(db.queue[i].queue_id != db.queue[j].queue_id);
    }
    if j < i {
        assert(db.queue[j].queue_id != db.queue[i].queue_id);
    }
}

/// No owner has two subjects of one name, and none two groups of one name.
pub proof fn lemma_names_unique(db: DatabaseView)
    requires
        db.wf(),
    ensures
        forall|i: int, j: int|
            0 <= i < db.subjects.len() && 0 <= j < db.subjects.len() && (
            #[trigger] db.subjects[i]).created_by == (#[trigger] db.subjects[j]).created_by
                && db.subjects[i].name == db.subjects[j].name ==> i == j,
        forall|i: int, j: int|
            0 <= i < db.groups.len() && 0 <= j < db.groups.len() && (
            #[trigger] db.groups[i]).created_by == (#[trigger] db.groups[j]).created_by
                && db.groups[i].name == db.groups[j].name ==> i == j,
{
    assert forall|i: int, j: int|
        0 <= i < db.subjects.len() && 0 <= j < db.subjects.len() && (
        #[trigger] db.subjects[i]).created_by == (#[trigger] db.subjects[j]).created_by
            && db.subjects[i].name == db.subjects[j].name implies i == j by {
        if i < j {
            assert(db.subjects[i].uuid != db.subjects[j].uuid);
        }
        if j < i {
            assert(db.subjects[j].uuid != db.subjects[i].uuid);
        }
    }
    assert forall|i: int, j: int|
        0 <= i < db.groups.len() && 0 <= j < db.groups.len() && (
        #[trigger] db.groups[i]).created_by == (#[trigger] db.groups[j]).created_by
            && db.groups[i].name == db.groups[j].name implies i == j by {
        if i < j {
            assert(db.groups[i].uuid != db.groups[j].uuid);
        }
        if j < i {
            assert(db.groups[j].uuid != db.groups[i].uuid);
        }
    }
}

/// Every record in the store is attributed to an operator who is registered.
pub proof fn lemma_record_attributed(db: DatabaseView, i: int)
    requires
        db.wf(),
        0 <= i < db.data.len(),
    ensures
        db.data[i].added_by() is Some,
        is_operator(db.users, db.data[i].added_by().unwrap()),
        db.data[i].added_at() is Some,
{
}

} // verus!
