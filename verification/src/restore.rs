//! Bringing stored items back into a [`Database`].
//!
//! A store that was written by the server holds a well-formed state. A store
//! that was written otherwise may not. Each function here takes one stored
//! item and adds it to the state only if the state stays well formed, so that
//! a state built item by item from the empty one is well formed whatever the
//! store held. Operators come first, then subjects, then the rest.
//!
//! A state that was put together otherwise can be examined as a whole with
//! [`Database::well_formed`].

use vstd::prelude::*;

use crate::concepts::data::{Data, DataView};
use crate::concepts::group::{Group, GroupView};
use crate::concepts::subject::{Subject, SubjectView};
use crate::concepts::user::{with_hashed_key, User, UserView};
use crate::database::{
    all_subjects, data_wf, distinct_platforms, groups_wf, is_operator, is_subject,
    lemma_operators_stay,
    lemma_push_keeps_operators, queue_wf, referrals_wf, subject_with_uuid, subjects_wf,
    user_with_uuid, users_wf, Database, DatabaseView,
};
use crate::routes::groups::create::{
    group_named, group_with_uuid, has_group, has_group_named, subjects_exist,
};
use crate::routes::queue::{
    find_profile, for_profile, going_by, queue_id_in_use, InternalQueueItem, QueueItemView,
};
use crate::routes::subjects::create::{
    has_subject_named, lemma_push_keeps_subjects, platforms_distinct, subject_named,
};
use crate::routes::users::invite::{for_code, has_code, Referral, ReferralView};
use crate::routes::users::register::has_key;
use crate::utils::search::{any_where, first_where, lemma_first_where};
use crate::utils::text::lemma_deep_view_push;

verus! {

/// Whether the state stays well formed with the operator `user` added.
pub open spec fn admits_user(db: DatabaseView, user: UserView) -> bool {
    !is_operator(db.users, user.uuid) && !any_where(db.users, with_hashed_key(user.hashed_key))
}

/// Whether the state stays well formed with `subject` added.
pub open spec fn admits_subject(db: DatabaseView, subject: SubjectView) -> bool {
    &&& !is_subject(db.subjects, subject.uuid)
    &&& !any_where(db.subjects, subject_named(subject.created_by, subject.name))
    &&& distinct_platforms(subject.profiles)
}

/// Whether the state stays well formed with `group` added.
pub open spec fn admits_group(db: DatabaseView, group: GroupView) -> bool {
    &&& all_subjects(group.subjects, db.subjects)
    &&& !any_where(db.groups, group_with_uuid(group.uuid))
    &&& !any_where(db.groups, group_named(group.created_by, group.name))
}

/// Whether the state stays well formed with the queue entry `entry` added.
pub open spec fn admits_entry(db: DatabaseView, entry: QueueItemView) -> bool {
    &&& entry.references >= 1
    &&& entry.lock_holder is Some <==> entry.lock_acquired_at is Some
    &&& first_where(db.queue, for_profile(entry.platform, entry.platform_id)) is None
    &&& !any_where(db.queue, going_by(entry.queue_id))
}

/// Whether the state stays well formed with `record` added.
pub open spec fn admits_record(db: DatabaseView, record: DataView) -> bool {
    &&& record.added_at() is Some
    &&& record.added_by() matches Some(operator) && is_operator(db.users, operator)
}

/// Whether the state stays well formed with the invite `referral` added.
pub open spec fn admits_referral(db: DatabaseView, referral: ReferralView) -> bool {
    &&& is_operator(db.users, referral.created_by)
    &&& referral.used <==> referral.used_by is Some
    &&& referral.used_by matches Some(operator) ==> is_operator(db.users, operator)
    &&& !any_where(db.referrals, for_code(referral.hashed_code))
}

impl Database {
    /// Adds a stored operator, unless its identifier or its key digest is
    /// taken. Returns whether it was added.
    pub fn restore_user(&mut self, user: User) -> (taken: bool)
        requires
            old(self)@.wf(),
        ensures
            final(self)@.wf(),
            taken == admits_user(old(self)@, user@),
            final(self)@ == if taken {
                DatabaseView { users: old(self)@.users.push(user@), ..old(self)@ }
            } else {
                old(self)@
            },
    {
        if self.is_operator(user.uuid.as_str()) || has_key(self, user.hashed_key.as_str()) {
            return false;
        }
        let ghost before = self.users;
        self.users.push(user);
        proof {
            lemma_deep_view_push(before, self.users, user);
            let users = old(self)@.users;
            lemma_push_keeps_operators(users, user@);
            lemma_operators_stay(users, self@.users, old(self)@.data, old(self)@.referrals);
            assert forall|a: int, b: int| 0 <= a < b < self@.users.len() implies {
                &&& (#[trigger] self@.users[a]).uuid != (#[trigger] self@.users[b]).uuid
                &&& self@.users[a].hashed_key != self@.users[b].hashed_key
            } by {
                assert(self@.users[a] == users[a]);
                if b == users.len() {
                    assert(!user_with_uuid(user@.uuid)(users[a]));
                    assert(!with_hashed_key(user@.hashed_key)(users[a]));
                } else {
                    assert(self@.users[b] == users[b]);
                }
            }
        }
        true
    }

    /// Adds a stored subject, unless its identifier is taken, its owner has a
    /// subject of its name, or it lists a platform twice. Returns whether it was added. The queue is not
    /// touched: its entries are stored with their counts.
    pub fn restore_subject(&mut self, subject: Subject) -> (taken: bool)
        requires
            old(self)@.wf(),
        ensures
            final(self)@.wf(),
            taken == admits_subject(old(self)@, subject@),
            final(self)@ == if taken {
                DatabaseView { subjects: old(self)@.subjects.push(subject@), ..old(self)@ }
            } else {
                old(self)@
            },
    {
        if self.is_subject(subject.uuid.as_str()) || has_subject_named(
            self,
            subject.created_by.as_str(),
            subject.name.as_str(),
        ) || !platforms_distinct(&subject.profiles) {
            return false;
        }
        let ghost before = self.subjects;
        self.subjects.push(subject);
        proof {
            lemma_deep_view_push(before, self.subjects, subject);
            let subjects = old(self)@.subjects;
            lemma_push_keeps_subjects(subjects, old(self)@.groups, subject@);
            assert forall|i: int, j: int| 0 <= i < j < self@.subjects.len() implies {
                &&& (#[trigger] self@.subjects[i]).uuid != (#[trigger] self@.subjects[j]).uuid
                &&& !(self@.subjects[i].created_by == self@.subjects[j].created_by
                    && self@.subjects[i].name == self@.subjects[j].name)
            } by {
                assert(self@.subjects[i] == subjects[i]);
                if j == subjects.len() {
                    assert(!subject_named(subject@.created_by, subject@.name)(subjects[i]));
                    assert(!subject_with_uuid(subject@.uuid)(subjects[i]));
                } else {
                    assert(self@.subjects[j] == subjects[j]);
                }
            }
            assert forall|i: int| 0 <= i < self@.subjects.len() implies distinct_platforms(
                (#[trigger] self@.subjects[i]).profiles,
            ) by {
                if i < subjects.len() {
                    assert(self@.subjects[i] == subjects[i]);
                }
            }
        }
        true
    }

    /// Adds a stored group, unless it lists a subject that does not exist,
    /// its identifier is taken, or its owner has a group of its name. Returns
    /// whether it was added.
    pub fn restore_group(&mut self, group: Group) -> (taken: bool)
        requires
            old(self)@.wf(),
        ensures
            final(self)@.wf(),
            taken == admits_group(old(self)@, group@),
            final(self)@ == if taken {
                DatabaseView { groups: old(self)@.groups.push(group@), ..old(self)@ }
            } else {
                old(self)@
            },
    {
        if !subjects_exist(self, &group.subjects) || has_group(self, group.uuid.as_str())
            || has_group_named(self, group.created_by.as_str(), group.name.as_str()) {
            return false;
        }
        let ghost before = self.groups;
        self.groups.push(group);
        proof {
            lemma_deep_view_push(before, self.groups, group);
            let groups = old(self)@.groups;
            assert forall|i: int, j: int| 0 <= i < j < self@.groups.len() implies {
                &&& (#[trigger] self@.groups[i]).uuid != (#[trigger] self@.groups[j]).uuid
                &&& !(self@.groups[i].created_by == self@.groups[j].created_by
                    && self@.groups[i].name == self@.groups[j].name)
            } by {
                assert(self@.groups[i] == groups[i]);
                if j == groups.len() {
                    assert(!group_named(group@.created_by, group@.name)(groups[i]));
                    assert(!group_with_uuid(group@.uuid)(groups[i]));
                } else {
                    assert(self@.groups[j] == groups[j]);
                }
            }
            assert forall|i: int| 0 <= i < self@.groups.len() implies all_subjects(
                (#[trigger] self@.groups[i]).subjects,
                self@.subjects,
            ) by {
                if i < groups.len() {
                    assert(self@.groups[i] == groups[i]);
                }
            }
        }
        true
    }

    /// Adds a stored queue entry, unless it counts no reference, its lease
    /// has a holder without an instant or an instant without a holder, its
    /// profile has an entry, or an entry goes by its identifier. Returns whether it was added.
    pub fn restore_queue_item(&mut self, entry: InternalQueueItem) -> (taken: bool)
        requires
            old(self)@.wf(),
        ensures
            final(self)@.wf(),
            taken == admits_entry(old(self)@, entry@),
            final(self)@ == if taken {
                DatabaseView { queue: old(self)@.queue.push(entry@), ..old(self)@ }
            } else {
                old(self)@
            },
    {
        if entry.references < 1 || entry.lock_holder.is_some() != entry.lock_acquired_at.is_some() {
            return false;
        }
        if find_profile(&self.queue, entry.platform.as_str(), entry.platform_id.as_str()).is_some()
            || queue_id_in_use(&self.queue, entry.queue_id.as_str()) {
            return false;
        }
        let ghost before = self.queue;
        self.queue.push(entry);
        proof {
            lemma_deep_view_push(before, self.queue, entry);
            let queue = old(self)@.queue;
            lemma_first_where(queue, for_profile(entry@.platform, entry@.platform_id));
            assert forall|i: int| 0 <= i < self@.queue.len() implies {
                &&& 1 <= (#[trigger] self@.queue[i]).references <= u64::MAX
                &&& self@.queue[i].lock_holder is Some <==> self@.queue[i].lock_acquired_at is Some
            } by {
                if i < queue.len() {
                    assert(self@.queue[i] == queue[i]);
                }
            }
            assert forall|i: int, j: int| 0 <= i < j < self@.queue.len() implies !((
            #[trigger] self@.queue[i]).platform == (#[trigger] self@.queue[j]).platform
                && self@.queue[i].platform_id == self@.queue[j].platform_id) by {
                assert(self@.queue[i] == queue[i]);
                if j == queue.len() {
                    assert(!for_profile(entry@.platform, entry@.platform_id)(queue[i]));
                } else {
                    assert(self@.queue[j] == queue[j]);
                }
            }
            assert forall|i: int, j: int| 0 <= i < j < self@.queue.len() implies (
            #[trigger] self@.queue[i]).queue_id != (#[trigger] self@.queue[j]).queue_id by {
                assert(self@.queue[i] == queue[i]);
                if j == queue.len() {
                    assert(!going_by(entry@.queue_id)(queue[i]));
                } else {
                    assert(self@.queue[j] == queue[j]);
                }
            }
        }
        true
    }

    /// Adds a stored record, unless it lacks its attribution or is attributed
    /// to an operator who is not registered. Returns whether it was added.
    pub fn restore_record(&mut self, record: Data) -> (taken: bool)
        requires
            old(self)@.wf(),
        ensures
            final(self)@.wf(),
            taken == admits_record(old(self)@, record@),
            final(self)@ == if taken {
                DatabaseView { data: old(self)@.data.push(record@), ..old(self)@ }
            } else {
                old(self)@
            },
    {
        let attributed = record_attributed(self, &record);
        if !attributed {
            return false;
        }
        let ghost before = self.data;
        self.data.push(record);
        proof {
            lemma_deep_view_push(before, self.data, record);
            let data = old(self)@.data;
            assert forall|i: int| 0 <= i < self@.data.len() implies {
                &&& (#[trigger] self@.data[i]).added_at() is Some
                &&& self@.data[i].added_by() matches Some(operator) && is_operator(
                    self@.users,
                    operator,
                )
            } by {
                if i < data.len() {
                    assert(self@.data[i] == data[i]);
                }
            }
        }
        true
    }

    /// Adds a stored invite, unless its issuer or its user is not registered,
    /// it is used without a user or has a user without being used, or an
    /// invite stands for its code. Returns whether it was added.
    pub fn restore_referral(&mut self, referral: Referral) -> (taken: bool)
        requires
            old(self)@.wf(),
        ensures
            final(self)@.wf(),
            taken == admits_referral(old(self)@, referral@),
            final(self)@ == if taken {
                DatabaseView { referrals: old(self)@.referrals.push(referral@), ..old(self)@ }
            } else {
                old(self)@
            },
    {
        let user_known = match &referral.used_by {
            Some(operator) => self.is_operator(operator.as_str()),
            None => true,
        };
        if !self.is_operator(referral.created_by.as_str()) || referral.used
            != referral.used_by.is_some() || !user_known || has_code(
            self,
            referral.hashed_code.as_str(),
        ) {
            return false;
        }
        let ghost before = self.referrals;
        self.referrals.push(referral);
        proof {
            lemma_deep_view_push(before, self.referrals, referral);
            let referrals = old(self)@.referrals;
            let after = self@.referrals;
            assert forall|i: int| 0 <= i < after.len() implies {
                &&& is_operator(self@.users, (#[trigger] after[i]).created_by)
                &&& after[i].used <==> after[i].used_by is Some
                &&& after[i].used_by matches Some(operator) ==> is_operator(self@.users, operator)
            } by {
                if i < referrals.len() {
                    assert(after[i] == referrals[i]);
                }
            }
            assert forall|i: int, j: int| 0 <= i < j < after.len() implies (
            #[trigger] after[i]).hashed_code != (#[trigger] after[j]).hashed_code by {
                assert(after[i] == referrals[i]);
                if j == referrals.len() {
                    assert(!for_code(referral@.hashed_code)(referrals[i]));
                } else {
                    assert(after[j] == referrals[j]);
                }
            }
        }
        true
    }
}

fn queue_well_formed(db: &Database) -> (ok: bool)
    ensures
        ok == queue_wf(db@.queue),
{
    let ghost queue = db@.queue;
    let mut j: usize = 0;
    while j < db.queue.len()
        invariant
            j <= db.queue.len(),
            queue == db@.queue,
            forall|i: int|
                0 <= i < j ==> {
                    &&& 1 <= (#[trigger] queue[i]).references <= u64::MAX
                    &&& queue[i].lock_holder is Some <==> queue[i].lock_acquired_at is Some
                },
            forall|a: int, b: int|
                0 <= a < b < j ==> !((#[trigger] queue[a]).platform == (#[trigger] queue[b]).platform
                    && queue[a].platform_id == queue[b].platform_id) && queue[a].queue_id
                    != queue[b].queue_id,
        decreases db.queue.len() - j,
    {
        assert(queue[j as int] == db.queue[j as int]@);
        if db.queue[j].references < 1 || db.queue[j].lock_holder.is_some()
            != db.queue[j].lock_acquired_at.is_some() {
            return false;
        }
        let mut i: usize = 0;
        while i < j
            invariant
                i <= j < db.queue.len(),
                queue == db@.queue,
                forall|a: int|
                    0 <= a < i ==> !((#[trigger] queue[a]).platform == queue[j as int].platform
                        && queue[a].platform_id == queue[j as int].platform_id)
                        && queue[a].queue_id != queue[j as int].queue_id,
            decreases j - i,
        {
            assert(queue[i as int] == db.queue[i as int]@);
            assert(queue[j as int] == db.queue[j as int]@);
            if (*db.queue[i].platform == *db.queue[j].platform && *db.queue[i].platform_id
                == *db.queue[j].platform_id) || *db.queue[i].queue_id == *db.queue[j].queue_id {
                return false;
            }
            i += 1;
        }
        j += 1;
    }
    true
}

fn subjects_well_formed(db: &Database) -> (ok: bool)
    ensures
        ok == subjects_wf(db@.subjects),
{
    let ghost subjects = db@.subjects;
    let mut j: usize = 0;
    while j < db.subjects.len()
        invariant
            j <= db.subjects.len(),
            subjects == db@.subjects,
            forall|a: int| 0 <= a < j ==> distinct_platforms((#[trigger] subjects[a]).profiles),
            forall|a: int, b: int|
                0 <= a < b < j ==> {
                    &&& (#[trigger] subjects[a]).uuid != (#[trigger] subjects[b]).uuid
                    &&& !(subjects[a].created_by == subjects[b].created_by && subjects[a].name
                        == subjects[b].name)
                },
        decreases db.subjects.len() - j,
    {
        assert(subjects[j as int] == db.subjects[j as int]@);
        if !platforms_distinct(&db.subjects[j].profiles) {
            return false;
        }
        let mut i: usize = 0;
        while i < j
            invariant
                i <= j < db.subjects.len(),
                subjects == db@.subjects,
                forall|a: int|
                    0 <= a < i ==> {
                        &&& (#[trigger] subjects[a]).uuid != subjects[j as int].uuid
                        &&& !(subjects[a].created_by == subjects[j as int].created_by
                            && subjects[a].name == subjects[j as int].name)
                    },
            decreases j - i,
        {
            assert(subjects[i as int] == db.subjects[i as int]@);
            assert(subjects[j as int] == db.subjects[j as int]@);
            if *db.subjects[i].uuid == *db.subjects[j].uuid || (*db.subjects[i].created_by
                == *db.subjects[j].created_by && *db.subjects[i].name == *db.subjects[j].name) {
                return false;
            }
            i += 1;
        }
        j += 1;
    }
    true
}

fn groups_well_formed(db: &Database) -> (ok: bool)
    ensures
        ok == groups_wf(db@.groups, db@.subjects),
{
    let ghost groups = db@.groups;
    let mut j: usize = 0;
    while j < db.groups.len()
        invariant
            j <= db.groups.len(),
            groups == db@.groups,
            forall|a: int, b: int|
                0 <= a < b < j ==> {
                    &&& (#[trigger] groups[a]).uuid != (#[trigger] groups[b]).uuid
                    &&& !(groups[a].created_by == groups[b].created_by && groups[a].name
                        == groups[b].name)
                },
            forall|a: int|
                0 <= a < j ==> all_subjects((#[trigger] groups[a]).subjects, db@.subjects),
        decreases db.groups.len() - j,
    {
        assert(groups[j as int] == db.groups[j as int]@);
        if !subjects_exist(db, &db.groups[j].subjects) {
            return false;
        }
        let mut i: usize = 0;
        while i < j
            invariant
                i <= j < db.groups.len(),
                groups == db@.groups,
                forall|a: int|
                    0 <= a < i ==> {
                        &&& (#[trigger] groups[a]).uuid != groups[j as int].uuid
                        &&& !(groups[a].created_by == groups[j as int].created_by
                            && groups[a].name == groups[j as int].name)
                    },
            decreases j - i,
        {
            assert(groups[i as int] == db.groups[i as int]@);
            assert(groups[j as int] == db.groups[j as int]@);
            if *db.groups[i].uuid == *db.groups[j].uuid || (*db.groups[i].created_by
                == *db.groups[j].created_by && *db.groups[i].name == *db.groups[j].name) {
                return false;
            }
            i += 1;
        }
        j += 1;
    }
    true
}

fn users_well_formed(db: &Database) -> (ok: bool)
    ensures
        ok == users_wf(db@.users),
{
    let ghost users = db@.users;
    let mut j: usize = 0;
    while j < db.users.len()
        invariant
            j <= db.users.len(),
            users == db@.users,
            forall|a: int, b: int|
                0 <= a < b < j ==> {
                    &&& (#[trigger] users[a]).uuid != (#[trigger] users[b]).uuid
                    &&& users[a].hashed_key != users[b].hashed_key
                },
        decreases db.users.len() - j,
    {
        let mut i: usize = 0;
        while i < j
            invariant
                i <= j < db.users.len(),
                users == db@.users,
                forall|a: int|
                    0 <= a < i ==> {
                        &&& (#[trigger] users[a]).uuid != users[j as int].uuid
                        &&& users[a].hashed_key != users[j as int].hashed_key
                    },
            decreases j - i,
        {
            assert(users[i as int] == db.users[i as int]@);
            assert(users[j as int] == db.users[j as int]@);
            if *db.users[i].uuid == *db.users[j].uuid || *db.users[i].hashed_key
                == *db.users[j].hashed_key {
                return false;
            }
            i += 1;
        }
        j += 1;
    }
    true
}

fn record_attributed(db: &Database, record: &Data) -> (ok: bool)
    ensures
        ok == admits_record(db@, record@),
{
    match record {
        Data::Presence { added_by, added_at, .. } => added_at.is_some() && match added_by {
            Some(operator) => db.is_operator(operator.as_str()),
            None => false,
        },
        Data::Content { added_by, added_at, .. } => added_at.is_some() && match added_by {
            Some(operator) => db.is_operator(operator.as_str()),
            None => false,
        },
        Data::Meta { added_by, added_at, .. } => added_at.is_some() && match added_by {
            Some(operator) => db.is_operator(operator.as_str()),
            None => false,
        },
    }
}

fn data_well_formed(db: &Database) -> (ok: bool)
    ensures
        ok == data_wf(db@.data, db@.users),
{
    let mut i: usize = 0;
    while i < db.data.len()
        invariant
            i <= db.data.len(),
            forall|a: int| 0 <= a < i ==> admits_record(db@, #[trigger] db@.data[a]),
        decreases db.data.len() - i,
    {
        assert(db@.data[i as int] == db.data[i as int]@);
        if !record_attributed(db, &db.data[i]) {
            return false;
        }
        i += 1;
    }
    assert forall|a: int| 0 <= a < db@.data.len() implies {
        &&& (#[trigger] db@.data[a]).added_at() is Some
        &&& db@.data[a].added_by() matches Some(operator) && is_operator(db@.users, operator)
    } by {
        assert(admits_record(db@, db@.data[a]));
    }
    true
}

fn referrals_well_formed(db: &Database) -> (ok: bool)
    ensures
        ok == referrals_wf(db@.referrals, db@.users),
{
    let ghost referrals = db@.referrals;
    let mut j: usize = 0;
    while j < db.referrals.len()
        invariant
            j <= db.referrals.len(),
            referrals == db@.referrals,
            forall|a: int|
                0 <= a < j ==> {
                    &&& is_operator(db@.users, (#[trigger] referrals[a]).created_by)
                    &&& referrals[a].used <==> referrals[a].used_by is Some
                    &&& referrals[a].used_by matches Some(operator) ==> is_operator(
                        db@.users,
                        operator,
                    )
                },
            forall|a: int, b: int|
                0 <= a < b < j ==> (#[trigger] referrals[a]).hashed_code != (
                #[trigger] referrals[b]).hashed_code,
        decreases db.referrals.len() - j,
    {
        assert(referrals[j as int] == db.referrals[j as int]@);
        let user_known = match &db.referrals[j].used_by {
            Some(operator) => db.is_operator(operator.as_str()),
            None => true,
        };
        if !db.is_operator(db.referrals[j].created_by.as_str()) || db.referrals[j].used
            != db.referrals[j].used_by.is_some() || !user_known {
            return false;
        }
        let mut i: usize = 0;
        while i < j
            invariant
                i <= j < db.referrals.len(),
                referrals == db@.referrals,
                forall|a: int|
                    0 <= a < i ==> (#[trigger] referrals[a]).hashed_code
                        != referrals[j as int].hashed_code,
            decreases j - i,
        {
            assert(referrals[i as int] == db.referrals[i as int]@);
            assert(referrals[j as int] == db.referrals[j as int]@);
            if *db.referrals[i].hashed_code == *db.referrals[j].hashed_code {
                return false;
            }
            i += 1;
        }
        j += 1;
    }
    true
}

impl Database {
    /// Whether the state is well formed: whether the operations of the crate
    /// may be called on it.
    pub fn well_formed(&self) -> (ok: bool)
        ensures
            ok == self@.wf(),
    {
        queue_well_formed(self) && subjects_well_formed(self) && groups_well_formed(self)
            && users_well_formed(self) && data_well_formed(self) && referrals_well_formed(self)
    }
}

} // verus!
