//! The queue of profiles to refresh.
//!
//! Every profile that some subject watches has one entry. An entry counts the
//! subjects that refer to it and leaves the queue with the last of them.
//! A provider *leases* an entry, always the one that has waited longest among
//! those on its platforms, and holds the lease until it submits records for
//! the profile or the lease times out.
//!
//! # Usernames
//! Records are kept by the platform's own identifier of a profile, because
//! usernames change. A subject may name a profile by username all the same.
//! Its entry is then *unconfirmed*: the first metadata that a provider submits
//! under a lease on it names the identifier, and the entry and the subjects
//! that watch it are rebound to that identifier.

use vstd::prelude::*;

use crate::concepts::data::{Data, DataView};
use crate::concepts::subject::{rebound, SubjectView};
use crate::concepts::user::User;
use crate::config::IConfig;
use crate::concepts::group::GroupView;
use crate::database::{
    distinct_platforms, distinct_queue_ids, groups_wf, is_subject, queue_wf, subject_with_uuid,
    subjects_wf, Database, DatabaseView,
};
use crate::routes::response::{refusal, QueueResponse, Refusal, StatusCode};
use crate::utils::clock::now;
use crate::utils::random::{new_uuid, EntropyError};
use crate::utils::search::{
    first_item_where, first_where, lemma_first_where, lemma_first_where_is,
    lemma_first_where_none, lemma_first_where_push, lemma_first_where_remove_only,
    any_where, lemma_first_where_remove_other, lemma_first_where_same, none_where,
};
use crate::utils::text::{
    contains_text, copy_optional, lemma_deep_view_push, lemma_deep_view_remove,
    lemma_deep_view_update, Text,
};

verus! {

/// The instant that stands for "never": the Unix epoch.
pub const NEVER: i64 = 0;

/// One entry of the queue: a profile, how many subjects refer to it, when it
/// was last served, and who holds a lease on it since when.
#[derive(Debug, PartialEq, Eq)]
pub struct InternalQueueItem {
    pub queue_id: String,
    pub platform_id: String,
    pub platform: String,
    pub last_processed: i64,
    pub lock_holder: Option<String>,
    pub lock_acquired_at: Option<i64>,
    pub references: u64,
    pub confirmed_id: bool,
}

/// The mathematical value of a queue entry.
pub struct QueueItemView {
    pub queue_id: Text,
    pub platform_id: Text,
    pub platform: Text,
    pub last_processed: i64,
    pub lock_holder: Option<Text>,
    pub lock_acquired_at: Option<i64>,
    pub references: nat,
    pub confirmed_id: bool,
}

impl View for InternalQueueItem {
    type V = QueueItemView;

    open spec fn view(&self) -> QueueItemView {
        QueueItemView {
            queue_id: self.queue_id@,
            platform_id: self.platform_id@,
            platform: self.platform@,
            last_processed: self.last_processed,
            lock_holder: self.lock_holder.deep_view(),
            lock_acquired_at: self.lock_acquired_at,
            references: self.references as nat,
            confirmed_id: self.confirmed_id,
        }
    }
}

impl DeepView for InternalQueueItem {
    type V = QueueItemView;

    open spec fn deep_view(&self) -> QueueItemView {
        self@
    }
}

impl Clone for InternalQueueItem {
    fn clone(&self) -> (copy: Self)
        ensures
            copy@ == self@,
    {
        InternalQueueItem {
            queue_id: self.queue_id.clone(),
            platform_id: self.platform_id.clone(),
            platform: self.platform.clone(),
            last_processed: self.last_processed,
            lock_holder: copy_optional(&self.lock_holder),
            lock_acquired_at: self.lock_acquired_at,
            references: self.references,
            confirmed_id: self.confirmed_id,
        }
    }
}

/// The entry that a profile gets when the first subject refers to it.
pub open spec fn fresh_entry(
    queue_id: Text,
    platform_id: Text,
    platform: Text,
    confirmed_id: bool,
) -> QueueItemView {
    QueueItemView {
        queue_id,
        platform_id,
        platform,
        last_processed: NEVER,
        lock_holder: None,
        lock_acquired_at: None,
        references: 1,
        confirmed_id,
    }
}

impl InternalQueueItem {
    /// The entry that a profile gets when the first subject refers to it, with
    /// the identifier `queue_id`.
    pub fn with_queue_id(
        queue_id: String,
        platform_id: String,
        platform: String,
        confirmed_id: bool,
    ) -> (entry: Self)
        ensures
            entry@ == fresh_entry(queue_id@, platform_id@, platform@, confirmed_id),
    {
        Self {
            queue_id,
            platform_id,
            platform,
            last_processed: NEVER,
            lock_holder: None,
            lock_acquired_at: None,
            references: 1,
            confirmed_id,
        }
    }

    /// The entry that a profile gets when the first subject refers to it, with
    /// a fresh identifier and an unconfirmed profile identifier.
    /// Fails exactly when the system's random source does.
    pub fn new(platform_id: String, platform: String) -> (outcome: Result<Self, EntropyError>)
        ensures
            outcome matches Ok(entry) ==> exists|queue_id: Text|
                entry@ == #[trigger] fresh_entry(queue_id, platform_id@, platform@, false),
    {
        match new_uuid() {
            Ok(queue_id) => Ok(Self::with_queue_id(queue_id, platform_id, platform, false)),
            Err(error) => Err(error),
        }
    }
}

/// The condition of being the entry of the profile `platform_id` on
/// `platform`.
pub open spec fn for_profile(platform: Text, platform_id: Text) -> spec_fn(QueueItemView) -> bool {
    |entry: QueueItemView| entry.platform == platform && entry.platform_id == platform_id
}

/// The condition of carrying `queue_id` and being leased to `holder`.
pub open spec fn leased_as(queue_id: Text, holder: Text) -> spec_fn(QueueItemView) -> bool {
    |entry: QueueItemView| entry.queue_id == queue_id && entry.lock_holder == Some(holder)
}

/// The condition of carrying `queue_id`, being leased to `holder`, and
/// standing for the username `username` on `platform` with no identifier
/// confirmed yet.
pub open spec fn awaiting_identifier(
    queue_id: Text,
    platform: Text,
    username: Text,
    holder: Text,
) -> spec_fn(QueueItemView) -> bool {
    |entry: QueueItemView|
        entry.queue_id == queue_id && entry.platform == platform && entry.platform_id == username
            && entry.lock_holder == Some(holder) && !entry.confirmed_id
}

/// How many subjects refer to the profile: the count of its entry, or zero
/// where it has none.
pub open spec fn references_of(queue: Seq<QueueItemView>, platform: Text, platform_id: Text) -> nat {
    match first_item_where(queue, for_profile(platform, platform_id)) {
        Some(entry) => entry.references,
        None => 0,
    }
}

/// An entry with one reference more, and confirmed if `confirmed_id` says
/// so.
pub open spec fn referred_again(entry: QueueItemView, confirmed_id: bool) -> QueueItemView {
    QueueItemView {
        references: entry.references + 1,
        confirmed_id: entry.confirmed_id || confirmed_id,
        ..entry
    }
}

/// An entry with one reference less.
pub open spec fn referred_less(entry: QueueItemView) -> QueueItemView {
    QueueItemView { references: (entry.references - 1) as nat, ..entry }
}

/// The queue after one more subject refers to a profile: its entry counts one
/// more, or a fresh entry with the identifier `queue_id` joins at the end.
pub open spec fn queue_add(
    queue: Seq<QueueItemView>,
    platform: Text,
    platform_id: Text,
    confirmed_id: bool,
    queue_id: Text,
) -> Seq<QueueItemView> {
    match first_where(queue, for_profile(platform, platform_id)) {
        Some(i) => queue.update(i, referred_again(queue[i], confirmed_id)),
        None => queue.push(fresh_entry(queue_id, platform_id, platform, confirmed_id)),
    }
}

/// The queue after one subject less refers to a profile: its entry leaves
/// with its last reference, and counts one less otherwise.
pub open spec fn queue_remove(queue: Seq<QueueItemView>, platform: Text, platform_id: Text) -> Seq<
    QueueItemView,
> {
    match first_where(queue, for_profile(platform, platform_id)) {
        Some(i) => if queue[i].references == 1 {
            queue.remove(i)
        } else {
            queue.update(i, referred_less(queue[i]))
        },
        None => queue,
    }
}

/// The index of the entry of a profile, if it has one.
pub fn find_profile(queue: &Vec<InternalQueueItem>, platform: &str, platform_id: &str) -> (found:
    Option<usize>)
    ensures
        match found {
            Some(i) => first_where(queue.deep_view(), for_profile(platform@, platform_id@)) == Some(
                i as int,
            ) && i < queue.len(),
            None => first_where(queue.deep_view(), for_profile(platform@, platform_id@)) is None,
        },
{
    let mut i: usize = 0;
    while i < queue.len()
        invariant
            i <= queue.len(),
            forall|j: int|
                0 <= j < i ==> !for_profile(platform@, platform_id@)(#[trigger] queue.deep_view()[j]),
        decreases queue.len() - i,
    {
        assert(queue.deep_view()[i as int] == queue[i as int]@);
        if *queue[i].platform == *platform && *queue[i].platform_id == *platform_id {
            proof {
                lemma_first_where_is(
                    queue.deep_view(),
                    for_profile(platform@, platform_id@),
                    i as int,
                );
            }
            return Some(i);
        }
        i += 1;
    }
    proof {
        lemma_first_where_none(queue.deep_view(), for_profile(platform@, platform_id@));
    }
    None
}

/// The condition of going by `queue_id`.
pub open spec fn going_by(queue_id: Text) -> spec_fn(QueueItemView) -> bool {
    |entry: QueueItemView| entry.queue_id == queue_id
}

/// Whether one more reference to the profile can be recorded with the
/// identifier `queue_id` at hand: the profile has an entry that can count
/// one more, or it has none and no entry goes by the identifier.
pub open spec fn can_add(
    queue: Seq<QueueItemView>,
    platform: Text,
    platform_id: Text,
    queue_id: Text,
) -> bool {
    match first_where(queue, for_profile(platform, platform_id)) {
        Some(i) => queue[i].references < u64::MAX,
        None => !any_where(queue, going_by(queue_id)),
    }
}

/// Whether an entry goes by `queue_id`.
pub fn queue_id_in_use(queue: &Vec<InternalQueueItem>, queue_id: &str) -> (used: bool)
    ensures
        used == any_where(queue.deep_view(), going_by(queue_id@)),
{
    let mut i: usize = 0;
    while i < queue.len()
        invariant
            i <= queue.len(),
            forall|j: int| 0 <= j < i ==> !going_by(queue_id@)(#[trigger] queue.deep_view()[j]),
        decreases queue.len() - i,
    {
        assert(queue.deep_view()[i as int] == queue[i as int]@);
        if *queue[i].queue_id == *queue_id {
            return true;
        }
        i += 1;
    }
    false
}

/// Records that one more subject refers to the profile `platform_id` on
/// `platform`. A profile without an entry gets one with the identifier
/// `queue_id`, unless an entry goes by that identifier already; a profile
/// with an entry counts one more, unless its count is the largest that an
/// entry can hold. Otherwise nothing changes. Returns whether the reference
/// was recorded.
pub fn add_queue_item_with_id(
    platform_id: &str,
    platform: &str,
    db: &mut Database,
    confirmed_id: bool,
    queue_id: String,
) -> (recorded: bool)
    requires
        queue_wf(old(db)@.queue),
    ensures
        recorded == can_add(old(db)@.queue, platform@, platform_id@, queue_id@),
        final(db)@ == if recorded {
            DatabaseView {
                queue: queue_add(old(db)@.queue, platform@, platform_id@, confirmed_id, queue_id@),
                ..old(db)@
            }
        } else {
            old(db)@
        },
        queue_wf(final(db)@.queue),
{
    let ghost before = db.queue;
    match find_profile(&db.queue, platform, platform_id) {
        Some(i) => {
            assert(before.deep_view()[i as int] == before[i as int]@);
            if db.queue[i].references == u64::MAX {
                return false;
            }
            let references = db.queue[i].references + 1;
            let entry = InternalQueueItem {
                queue_id: db.queue[i].queue_id.clone(),
                platform_id: db.queue[i].platform_id.clone(),
                platform: db.queue[i].platform.clone(),
                last_processed: db.queue[i].last_processed,
                lock_holder: copy_optional(&db.queue[i].lock_holder),
                lock_acquired_at: db.queue[i].lock_acquired_at,
                references,
                confirmed_id: db.queue[i].confirmed_id || confirmed_id,
            };
            assert(before.deep_view()[i as int] == before[i as int]@);
            db.queue.set(i, entry);
            proof {
                lemma_deep_view_update(before, db.queue, i as int, entry);
            }
        },
        None => {
            if queue_id_in_use(&db.queue, queue_id.as_str()) {
                return false;
            }
            let entry = InternalQueueItem::with_queue_id(
                queue_id,
                platform_id.to_string(),
                platform.to_string(),
                confirmed_id,
            );
            db.queue.push(entry);
            proof {
                lemma_deep_view_push(before, db.queue, entry);
            }
        },
    }
    proof {
        lemma_queue_add(old(db)@.queue, platform@, platform_id@, confirmed_id, queue_id@);
    }
    true
}

/// Records that one more subject refers to the profile `platform_id` on
/// `platform`. A profile without an entry gets one with a fresh identifier,
/// which is drawn only then. Returns whether the reference was recorded: it
/// is for a profile with an entry unless the count is the largest that an
/// entry can hold, and for one without unless the system's random source
/// fails or the identifier is taken. Where it is not, nothing changes.
pub fn add_queue_item(platform_id: &str, platform: &str, db: &mut Database, confirmed_id: bool) -> (recorded:
    bool)
    requires
        queue_wf(old(db)@.queue),
    ensures
        recorded ==> exists|queue_id: Text|
            {
                &&& can_add(old(db)@.queue, platform@, platform_id@, queue_id)
                &&& final(db)@ == (DatabaseView {
                    queue: #[trigger] queue_add(
                        old(db)@.queue,
                        platform@,
                        platform_id@,
                        confirmed_id,
                        queue_id,
                    ),
                    ..old(db)@
                })
            },
        !recorded ==> final(db)@ == old(db)@,
        first_where(old(db)@.queue, for_profile(platform@, platform_id@)) matches Some(i)
            ==> recorded == (old(db)@.queue[i].references < u64::MAX),
        queue_wf(final(db)@.queue),
{
    let queue_id = match find_profile(&db.queue, platform, platform_id) {
        Some(_) => String::new(),
        None => {
            match new_uuid() {
                Ok(queue_id) => queue_id,
                Err(_) => {
                    return false;
                },
            }
        },
    };
    add_queue_item_with_id(platform_id, platform, db, confirmed_id, queue_id)
}

/// Records that one subject less refers to the profile `platform_id` on
/// `platform`: its entry leaves the queue with its last reference, and counts
/// one less otherwise. A profile without an entry changes nothing.
pub fn remove_queue_item(platform_id: &str, platform: &str, db: &mut Database)
    requires
        queue_wf(old(db)@.queue),
    ensures
        final(db)@ == (DatabaseView {
            queue: queue_remove(old(db)@.queue, platform@, platform_id@),
            ..old(db)@
        }),
        queue_wf(final(db)@.queue),
{
    let ghost before = db.queue;
    match find_profile(&db.queue, platform, platform_id) {
        Some(i) => {
            assert(before.deep_view()[i as int] == before[i as int]@);
            if db.queue[i].references == 1 {
                db.queue.remove(i);
                proof {
                    lemma_deep_view_remove(before, db.queue, i as int);
                }
            } else {
                let entry = InternalQueueItem {
                    queue_id: db.queue[i].queue_id.clone(),
                    platform_id: db.queue[i].platform_id.clone(),
                    platform: db.queue[i].platform.clone(),
                    last_processed: db.queue[i].last_processed,
                    lock_holder: copy_optional(&db.queue[i].lock_holder),
                    lock_acquired_at: db.queue[i].lock_acquired_at,
                    references: db.queue[i].references - 1,
                    confirmed_id: db.queue[i].confirmed_id,
                };
                db.queue.set(i, entry);
                proof {
                    lemma_deep_view_update(before, db.queue, i as int, entry);
                }
            }
        },
        None => {},
    }
    proof {
        lemma_queue_remove(old(db)@.queue, platform@, platform_id@);
    }
}

/// One more reference, where it can be recorded. The queue stays well
/// formed, no entry goes by an identifier that is neither the one at hand nor
/// one that an entry went by before, the profile's count grows by one, and no
/// other profile's count changes.
pub proof fn lemma_queue_add(
    queue: Seq<QueueItemView>,
    platform: Text,
    platform_id: Text,
    confirmed_id: bool,
    queue_id: Text,
)
    requires
        queue_wf(queue),
        can_add(queue, platform, platform_id, queue_id),
    ensures
        queue_wf(queue_add(queue, platform, platform_id, confirmed_id, queue_id)),
        forall|other: Text|
            any_where(
                queue_add(queue, platform, platform_id, confirmed_id, queue_id),
                #[trigger] going_by(other),
            ) ==> any_where(queue, going_by(other)) || other == queue_id,
        forall|p: Text, id: Text|
            #![trigger references_of(queue_add(queue, platform, platform_id, confirmed_id, queue_id), p, id)]
            references_of(queue_add(queue, platform, platform_id, confirmed_id, queue_id), p, id)
                == if p == platform && id == platform_id {
                references_of(queue, p, id) + 1
            } else {
                references_of(queue, p, id)
            },
{
    let after = queue_add(queue, platform, platform_id, confirmed_id, queue_id);
    let this = for_profile(platform, platform_id);
    lemma_first_where(queue, this);
    assert(distinct_queue_ids(after)) by {
        assert forall|i: int, j: int| 0 <= i < j < after.len() implies (
        #[trigger] after[i]).queue_id != (#[trigger] after[j]).queue_id by {
            if first_where(queue, this) is None {
                assert(after[i] == queue[i]);
                if j == queue.len() {
                    assert(!going_by(queue_id)(queue[i]));
                } else {
                    assert(after[j] == queue[j]);
                }
            } else {
                assert(queue[i].queue_id != queue[j].queue_id);
            }
        }
    }
    assert forall|other: Text| any_where(after, #[trigger] going_by(other)) implies any_where(
        queue,
        going_by(other),
    ) || other == queue_id by {
        let at = choose|at: int| 0 <= at < after.len() && going_by(other)(#[trigger] after[at]);
        if at < queue.len() {
            assert(going_by(other)(queue[at]));
        }
    }
    assert forall|p: Text, id: Text|
        #![trigger references_of(after, p, id)]
        references_of(after, p, id) == if p == platform && id == platform_id {
            references_of(queue, p, id) + 1
        } else {
            references_of(queue, p, id)
        } by {
        let that = for_profile(p, id);
        lemma_first_where(queue, that);
        match first_where(queue, this) {
            Some(i) => {
                assert forall|j: int| 0 <= j < queue.len() implies that(#[trigger] queue[j])
                    == that(#[trigger] after[j]) by {}
                lemma_first_where_same(queue, after, that);
            },
            None => {
                lemma_first_where_push(
                    queue,
                    fresh_entry(queue_id, platform_id, platform, confirmed_id),
                    that,
                );
            },
        }
    }
}

/// A count kept within what an entry can hold.
pub open spec fn capped(count: int) -> nat {
    if count > u64::MAX {
        u64::MAX as nat
    } else if count < 0 {
        0
    } else {
        count as nat
    }
}

/// One reference less. The queue stays well formed, the profile's count
/// shrinks by one unless it has none, and no other profile's count changes.
pub proof fn lemma_queue_remove(queue: Seq<QueueItemView>, platform: Text, platform_id: Text)
    requires
        queue_wf(queue),
    ensures
        queue_wf(queue_remove(queue, platform, platform_id)),
        forall|other: Text|
            any_where(queue_remove(queue, platform, platform_id), #[trigger] going_by(other))
                ==> any_where(queue, going_by(other)),
        forall|p: Text, id: Text|
            #![trigger references_of(queue_remove(queue, platform, platform_id), p, id)]
            references_of(queue_remove(queue, platform, platform_id), p, id) == if p == platform
                && id == platform_id {
                capped(references_of(queue, p, id) as int - 1)
            } else {
                references_of(queue, p, id)
            },
{
    let after = queue_remove(queue, platform, platform_id);
    let this = for_profile(platform, platform_id);
    lemma_first_where(queue, this);
    assert(distinct_queue_ids(after) && crate::database::distinct_profiles(after)) by {
        assert forall|i: int, j: int| 0 <= i < j < after.len() implies (
        #[trigger] after[i]).queue_id != (#[trigger] after[j]).queue_id && !(after[i].platform
            == after[j].platform && after[i].platform_id == after[j].platform_id) by {
            match first_where(queue, this) {
                Some(k) => {
                    if queue[k].references == 1 {
                        let from_i = if i < k { i } else { i + 1 };
                        let from_j = if j < k { j } else { j + 1 };
                        assert(after[i] == queue[from_i]);
                        assert(after[j] == queue[from_j]);
                        assert(queue[from_i].queue_id != queue[from_j].queue_id);
                    } else {
                        assert(queue[i].queue_id != queue[j].queue_id);
                    }
                },
                None => {},
            }
        }
    }
    assert forall|other: Text| any_where(after, #[trigger] going_by(other)) implies any_where(
        queue,
        going_by(other),
    ) by {
        let at = choose|at: int| 0 <= at < after.len() && going_by(other)(#[trigger] after[at]);
        match first_where(queue, this) {
            Some(k) => {
                if queue[k].references == 1 {
                    let from = if at < k { at } else { at + 1 };
                    assert(after[at] == queue[from]);
                    assert(going_by(other)(queue[from]));
                } else {
                    assert(going_by(other)(queue[at]));
                }
            },
            None => {},
        }
    }
    assert forall|p: Text, id: Text|
        #![trigger references_of(after, p, id)]
        references_of(after, p, id) == if p == platform && id == platform_id {
            capped(references_of(queue, p, id) as int - 1)
        } else {
            references_of(queue, p, id)
        } by {
        let that = for_profile(p, id);
        lemma_first_where(queue, that);
        match first_where(queue, this) {
            Some(i) => {
                if queue[i].references == 1 {
                    if p == platform && id == platform_id {
                        assert forall|j: int| 0 <= j < queue.len() && j != i implies !that(
                            #[trigger] queue[j],
                        ) by {}
                        lemma_first_where_remove_only(queue, i, that);
                    } else {
                        lemma_first_where_remove_other(queue, i, that);
                    }
                } else {
                    assert forall|j: int| 0 <= j < queue.len() implies that(#[trigger] queue[j])
                        == that(#[trigger] after[j]) by {}
                    lemma_first_where_same(queue, after, that);
                }
            },
            None => {},
        }
    }
}

/// The count of `(platform, platform_id)` among `pairs`.
pub open spec fn count_pair(pairs: Seq<(Text, Text)>, platform: Text, platform_id: Text) -> nat
    decreases pairs.len(),
{
    if pairs.len() == 0 {
        0
    } else {
        count_pair(pairs.drop_last(), platform, platform_id) + if pairs.last() == (
            platform,
            platform_id,
        ) {
            1nat
        } else {
            0nat
        }
    }
}

/// The queue after a subject refers to each of `pairs` in turn. The `i`-th
/// profile, where it has no entry yet, gets one with the identifier
/// `queue_ids[i]`.
pub open spec fn queue_add_all(
    queue: Seq<QueueItemView>,
    pairs: Seq<(Text, Text)>,
    queue_ids: Seq<Text>,
) -> Seq<QueueItemView>
    decreases pairs.len(),
{
    if pairs.len() == 0 {
        queue
    } else {
        queue_add(
            queue_add_all(queue, pairs.drop_last(), queue_ids),
            pairs.last().0,
            pairs.last().1,
            false,
            queue_ids[pairs.len() - 1],
        )
    }
}

/// The queue after a subject stops referring to each of `pairs` in turn.
pub open spec fn queue_remove_all(queue: Seq<QueueItemView>, pairs: Seq<(Text, Text)>) -> Seq<
    QueueItemView,
>
    decreases pairs.len(),
{
    if pairs.len() == 0 {
        queue
    } else {
        queue_remove(queue_remove_all(queue, pairs.drop_last()), pairs.last().0, pairs.last().1)
    }
}

/// Whether `queue_ids` are fresh: no entry goes by one of them, and no two of
/// them are the same.
pub open spec fn fresh_ids(queue: Seq<QueueItemView>, queue_ids: Seq<Text>) -> bool {
    &&& forall|i: int|
        0 <= i < queue_ids.len() ==> !any_where(queue, going_by(#[trigger] queue_ids[i]))
    &&& forall|i: int, j: int|
        0 <= i < j < queue_ids.len() ==> #[trigger] queue_ids[i] != #[trigger] queue_ids[j]
}

/// Whether every profile's entry can count the references that `pairs` add:
/// whether no count reaches past the largest that an entry can hold.
pub open spec fn has_room(queue: Seq<QueueItemView>, pairs: Seq<(Text, Text)>) -> bool {
    forall|platform: Text, platform_id: Text|
        #![trigger count_pair(pairs, platform, platform_id)]
        references_of(queue, platform, platform_id) + count_pair(pairs, platform, platform_id)
            <= u64::MAX
}

/// Whether references to each of `pairs` can be recorded with the
/// identifiers `queue_ids` at hand: there is one fresh identifier for each
/// pair, and room for the references.
pub open spec fn can_add_all(
    queue: Seq<QueueItemView>,
    pairs: Seq<(Text, Text)>,
    queue_ids: Seq<Text>,
) -> bool {
    queue_ids.len() == pairs.len() && fresh_ids(queue, queue_ids) && has_room(queue, pairs)
}

/// A pair is counted zero times exactly where it is not among the pairs, and
/// no more often among the first of them than among all.
pub proof fn lemma_count_pair(pairs: Seq<(Text, Text)>, n: int, platform: Text, platform_id: Text)
    requires
        0 <= n <= pairs.len(),
    ensures
        count_pair(pairs.take(n), platform, platform_id) <= count_pair(
            pairs,
            platform,
            platform_id,
        ),
        n < pairs.len() && pairs[n] == (platform, platform_id) ==> count_pair(
            pairs.take(n),
            platform,
            platform_id,
        ) < count_pair(pairs, platform, platform_id),
        count_pair(pairs, platform, platform_id) > 0 <==> pairs.contains((platform, platform_id)),
    decreases pairs.len(),
{
    if pairs.len() > 0 {
        let rest = pairs.drop_last();
        if n == pairs.len() {
            assert(pairs.take(n) =~= pairs);
        } else {
            assert(pairs.take(n) =~= rest.take(n));
        }
        lemma_count_pair(rest, if n == pairs.len() { n - 1 } else { n }, platform, platform_id);
        if n < rest.len() {
            assert(rest[n] == pairs[n]);
        }
        if pairs.last() == (platform, platform_id) {
            assert(pairs[pairs.len() - 1] == (platform, platform_id));
        } else if pairs.contains((platform, platform_id)) {
            let at = choose|at: int| 0 <= at < pairs.len() && pairs[at] == (platform, platform_id);
            assert(rest[at] == (platform, platform_id));
        } else if rest.contains((platform, platform_id)) {
            let at = choose|at: int| 0 <= at < rest.len() && rest[at] == (platform, platform_id);
            assert(pairs[at] == (platform, platform_id));
        }
    } else {
        assert(pairs.take(n) =~= pairs);
    }
}

/// Referring to profiles in turn, with a fresh identifier at hand for each,
/// keeps the queue well formed, lets no entry go by an identifier that is
/// neither one of these nor one that an entry went by before, and raises each
/// profile's count by the number of times it was referred to.
pub proof fn lemma_queue_add_all(
    queue: Seq<QueueItemView>,
    pairs: Seq<(Text, Text)>,
    queue_ids: Seq<Text>,
)
    requires
        queue_wf(queue),
        pairs.len() <= queue_ids.len(),
        fresh_ids(queue, queue_ids),
        has_room(queue, pairs),
    ensures
        queue_wf(queue_add_all(queue, pairs, queue_ids)),
        forall|other: Text|
            any_where(queue_add_all(queue, pairs, queue_ids), #[trigger] going_by(other))
                ==> any_where(queue, going_by(other)) || exists|j: int|
                0 <= j < pairs.len() && queue_ids[j] == other,
        forall|p: Text, id: Text|
            #![trigger references_of(queue_add_all(queue, pairs, queue_ids), p, id)]
            references_of(queue_add_all(queue, pairs, queue_ids), p, id) == references_of(
                queue,
                p,
                id,
            ) + count_pair(pairs, p, id),
    decreases pairs.len(),
{
    if pairs.len() == 0 {
        assert forall|p: Text, id: Text| references_of(queue, p, id) <= u64::MAX by {
            lemma_first_where(queue, for_profile(p, id));
        }
    } else {
        let rest = queue_add_all(queue, pairs.drop_last(), queue_ids);
        let last = queue_ids[pairs.len() - 1];
        assert(has_room(queue, pairs.drop_last())) by {
            assert forall|platform: Text, platform_id: Text|
                #![trigger count_pair(pairs.drop_last(), platform, platform_id)]
                references_of(queue, platform, platform_id) + count_pair(
                    pairs.drop_last(),
                    platform,
                    platform_id,
                ) <= u64::MAX by {
                assert(count_pair(pairs, platform, platform_id) >= count_pair(
                    pairs.drop_last(),
                    platform,
                    platform_id,
                ));
            }
        }
        lemma_queue_add_all(queue, pairs.drop_last(), queue_ids);
        assert(references_of(rest, pairs.last().0, pairs.last().1) < u64::MAX) by {
            assert(count_pair(pairs, pairs.last().0, pairs.last().1) == count_pair(
                pairs.drop_last(),
                pairs.last().0,
                pairs.last().1,
            ) + 1);
        }
        lemma_first_where(rest, for_profile(pairs.last().0, pairs.last().1));
        assert(!any_where(rest, going_by(last))) by {
            if any_where(rest, going_by(last)) {
                assert(!any_where(queue, going_by(last)));
                let j = choose|j: int| 0 <= j < pairs.drop_last().len() && queue_ids[j] == last;
                assert(queue_ids[j] != queue_ids[pairs.len() - 1]);
            }
        }
        lemma_queue_add(rest, pairs.last().0, pairs.last().1, false, last);
        let after = queue_add_all(queue, pairs, queue_ids);
        assert forall|other: Text| any_where(after, #[trigger] going_by(other)) implies any_where(
            queue,
            going_by(other),
        ) || exists|j: int| 0 <= j < pairs.len() && queue_ids[j] == other by {
            if !any_where(queue, going_by(other)) {
                if other == last {
                    assert(queue_ids[pairs.len() - 1] == other);
                } else {
                    assert(any_where(rest, going_by(other)));
                    let j = choose|j: int|
                        0 <= j < pairs.drop_last().len() && queue_ids[j] == other;
                    assert(queue_ids[j] == other);
                }
            }
        }
        assert forall|p: Text, id: Text| #![trigger references_of(after, p, id)]
            references_of(after, p, id) == references_of(queue, p, id) + count_pair(pairs, p, id) by {
            let before = references_of(rest, p, id);
            assert(before == references_of(queue, p, id) + count_pair(pairs.drop_last(), p, id));
        }
    }
}

/// Dropping references to profiles in turn keeps the queue well formed and
/// lowers each profile's count by the number of times it was dropped, down to
/// none.
pub proof fn lemma_queue_remove_all(queue: Seq<QueueItemView>, pairs: Seq<(Text, Text)>)
    requires
        queue_wf(queue),
    ensures
        queue_wf(queue_remove_all(queue, pairs)),
        forall|p: Text, id: Text|
            #![trigger references_of(queue_remove_all(queue, pairs), p, id)]
            references_of(queue_remove_all(queue, pairs), p, id) == capped(
                references_of(queue, p, id) - count_pair(pairs, p, id),
            ),
    decreases pairs.len(),
{
    if pairs.len() == 0 {
        assert forall|p: Text, id: Text| references_of(queue, p, id) <= u64::MAX by {
            lemma_first_where(queue, for_profile(p, id));
        }
    } else {
        let rest = queue_remove_all(queue, pairs.drop_last());
        lemma_queue_remove_all(queue, pairs.drop_last());
        lemma_queue_remove(rest, pairs.last().0, pairs.last().1);
        let after = queue_remove_all(queue, pairs);
        assert forall|p: Text, id: Text| #![trigger references_of(after, p, id)]
            references_of(after, p, id) == capped(
                references_of(queue, p, id) - count_pair(pairs, p, id),
            ) by {
            let before = references_of(rest, p, id);
            assert(before == capped(
                references_of(queue, p, id) - count_pair(pairs.drop_last(), p, id),
            ));
        }
    }
}

/// Whether `queue_ids` are fresh.
pub fn ids_fresh(queue: &Vec<InternalQueueItem>, queue_ids: &Vec<String>) -> (fresh: bool)
    ensures
        fresh == fresh_ids(queue.deep_view(), queue_ids.deep_view()),
{
    let ghost ids = queue_ids.deep_view();
    let mut j: usize = 0;
    while j < queue_ids.len()
        invariant
            j <= queue_ids.len(),
            ids == queue_ids.deep_view(),
            forall|i: int| 0 <= i < j ==> !any_where(queue.deep_view(), going_by(#[trigger] ids[i])),
            forall|a: int, b: int| 0 <= a < b < j ==> #[trigger] ids[a] != #[trigger] ids[b],
        decreases queue_ids.len() - j,
    {
        assert(ids[j as int] == queue_ids[j as int]@);
        if queue_id_in_use(queue, queue_ids[j].as_str()) {
            return false;
        }
        let mut i: usize = 0;
        while i < j
            invariant
                i <= j < queue_ids.len(),
                ids == queue_ids.deep_view(),
                forall|a: int| 0 <= a < i ==> #[trigger] ids[a] != ids[j as int],
            decreases j - i,
        {
            assert(ids[i as int] == queue_ids[i as int]@);
            assert(ids[j as int] == queue_ids[j as int]@);
            if *queue_ids[i].as_str() == *queue_ids[j].as_str() {
                return false;
            }
            i += 1;
        }
        j += 1;
    }
    true
}

fn count_of(pairs: &Vec<(String, String)>, platform: &str, platform_id: &str) -> (count: usize)
    ensures
        count == count_pair(pairs.deep_view(), platform@, platform_id@),
{
    let ghost all = pairs.deep_view();
    let mut count: usize = 0;
    let mut i: usize = 0;
    assert(all.take(0) =~= Seq::empty());
    while i < pairs.len()
        invariant
            i <= pairs.len(),
            all == pairs.deep_view(),
            count <= i,
            count == count_pair(all.take(i as int), platform@, platform_id@),
        decreases pairs.len() - i,
    {
        assert(all[i as int] == pairs[i as int].deep_view());
        proof {
            assert(all.take(i + 1).drop_last() =~= all.take(i as int));
            assert(all.take(i + 1).last() == all[i as int]);
        }
        if *pairs[i].0.as_str() == *platform && *pairs[i].1.as_str() == *platform_id {
            count += 1;
        }
        i += 1;
    }
    assert(all.take(pairs.len() as int) =~= all);
    count
}

/// Whether every profile's entry can count the references that `pairs` add.
pub fn room_for_pairs(queue: &Vec<InternalQueueItem>, pairs: &Vec<(String, String)>) -> (room: bool)
    requires
        queue_wf(queue.deep_view()),
    ensures
        room == has_room(queue.deep_view(), pairs.deep_view()),
{
    let ghost all = pairs.deep_view();
    let ghost entries = queue.deep_view();
    let mut i: usize = 0;
    while i < pairs.len()
        invariant
            i <= pairs.len(),
            all == pairs.deep_view(),
            entries == queue.deep_view(),
            forall|j: int|
                0 <= j < i ==> references_of(entries, (#[trigger] all[j]).0, all[j].1) + count_pair(
                    all,
                    all[j].0,
                    all[j].1,
                ) <= u64::MAX,
        decreases pairs.len() - i,
    {
        assert(all[i as int] == pairs[i as int].deep_view());
        let count = count_of(pairs, pairs[i].0.as_str(), pairs[i].1.as_str());
        let references = match find_profile(queue, pairs[i].0.as_str(), pairs[i].1.as_str()) {
            Some(k) => {
                assert(entries[k as int] == queue[k as int]@);
                queue[k].references
            },
            None => 0,
        };
        if count as u128 + references as u128 > u64::MAX as u128 {
            assert(!has_room(entries, all)) by {
                assert(references_of(entries, all[i as int].0, all[i as int].1) + count_pair(
                    all,
                    all[i as int].0,
                    all[i as int].1,
                ) > u64::MAX);
            }
            return false;
        }
        i += 1;
    }
    proof {
        assert forall|platform: Text, platform_id: Text|
            #![trigger count_pair(all, platform, platform_id)]
            references_of(entries, platform, platform_id) + count_pair(all, platform, platform_id)
                <= u64::MAX by {
            lemma_count_pair(all, 0, platform, platform_id);
            lemma_first_where(entries, for_profile(platform, platform_id));
            if all.contains((platform, platform_id)) {
                let at = choose|at: int| 0 <= at < all.len() && all[at] == (platform, platform_id);
                assert(references_of(entries, all[at].0, all[at].1) + count_pair(
                    all,
                    all[at].0,
                    all[at].1,
                ) <= u64::MAX);
            }
        }
    }
    true
}

/// Records that a subject refers to each of `pairs`, in their order, all of
/// them or none. The `i`-th pair, where its profile has no entry yet, gets
/// one with the identifier `queue_ids[i]`. Nothing is recorded unless there
/// is one fresh identifier for each pair and room for the references.
/// Returns whether the references were recorded.
pub fn add_queue_items_with_ids(
    pairs: &Vec<(String, String)>,
    db: &mut Database,
    queue_ids: &Vec<String>,
) -> (recorded: bool)
    requires
        queue_wf(old(db)@.queue),
    ensures
        recorded == can_add_all(old(db)@.queue, pairs.deep_view(), queue_ids.deep_view()),
        final(db)@ == if recorded {
            DatabaseView {
                queue: queue_add_all(old(db)@.queue, pairs.deep_view(), queue_ids.deep_view()),
                ..old(db)@
            }
        } else {
            old(db)@
        },
        queue_wf(final(db)@.queue),
{
    if queue_ids.len() != pairs.len() || !ids_fresh(&db.queue, queue_ids) || !room_for_pairs(
        &db.queue,
        pairs,
    ) {
        return false;
    }
    let ghost all = pairs.deep_view();
    let ghost ids = queue_ids.deep_view();
    let mut i: usize = 0;
    while i < pairs.len()
        invariant
            i <= pairs.len(),
            all == pairs.deep_view(),
            ids == queue_ids.deep_view(),
            ids.len() == all.len(),
            queue_wf(old(db)@.queue),
            fresh_ids(old(db)@.queue, ids),
            has_room(old(db)@.queue, all),
            queue_wf(db@.queue),
            db@ == (DatabaseView {
                queue: queue_add_all(old(db)@.queue, all.take(i as int), ids),
                ..old(db)@
            }),
        decreases pairs.len() - i,
    {
        let ghost current = db@.queue;
        proof {
            let platform = pairs[i as int].0@;
            let platform_id = pairs[i as int].1@;
            assert(all[i as int] == (platform, platform_id));
            assert(has_room(old(db)@.queue, all.take(i as int))) by {
                assert forall|p: Text, id: Text| #![trigger count_pair(all.take(i as int), p, id)]
                    references_of(old(db)@.queue, p, id) + count_pair(all.take(i as int), p, id)
                        <= u64::MAX by {
                    lemma_count_pair(all, i as int, p, id);
                    assert(references_of(old(db)@.queue, p, id) + count_pair(all, p, id)
                        <= u64::MAX);
                }
            }
            lemma_queue_add_all(old(db)@.queue, all.take(i as int), ids);
            lemma_count_pair(all, i as int, platform, platform_id);
            assert(references_of(old(db)@.queue, platform, platform_id) + count_pair(
                all,
                platform,
                platform_id,
            ) <= u64::MAX);
            lemma_first_where(current, for_profile(platform, platform_id));
            assert(references_of(current, platform, platform_id) == references_of(
                old(db)@.queue,
                platform,
                platform_id,
            ) + count_pair(all.take(i as int), platform, platform_id));
            assert(references_of(current, platform, platform_id) < u64::MAX);
            assert(ids[i as int] == queue_ids[i as int]@);
            if any_where(current, going_by(ids[i as int])) {
                let j = choose|j: int| 0 <= j < all.take(i as int).len() && ids[j] == ids[i as int];
                assert(ids[j] != ids[i as int]);
            }
            assert(all.take(i + 1).drop_last() =~= all.take(i as int));
            assert(all.take(i + 1).last() == (pairs[i as int].0@, pairs[i as int].1@));
        }
        let recorded = add_queue_item_with_id(
            pairs[i].1.as_str(),
            pairs[i].0.as_str(),
            db,
            false,
            queue_ids[i].clone(),
        );
        assert(recorded);
        i += 1;
    }
    assert(all.take(pairs.len() as int) =~= all);
    true
}

/// Draws `count` fresh random identifiers. Fails exactly when the system's
/// random source does; none is drawn, and nothing fails, for a count of
/// none.
pub fn draw_ids(count: usize) -> (outcome: Result<Vec<String>, EntropyError>)
    ensures
        outcome matches Ok(ids) ==> ids@.len() == count,
        count == 0 ==> outcome is Ok,
{
    let mut ids: Vec<String> = Vec::new();
    let mut i: usize = 0;
    while i < count
        invariant
            i <= count,
            ids@.len() == i,
        decreases count - i,
    {
        match new_uuid() {
            Ok(id) => {
                ids.push(id);
            },
            Err(error) => {
                return Err(error);
            },
        }
        i += 1;
    }
    Ok(ids)
}

/// Records that a subject refers to each of `pairs`, in their order, all of
/// them or none, with identifiers that are drawn beforehand. Returns whether
/// the references were recorded: they are unless the system's random source
/// fails or a drawn identifier is taken. Where they are not, nothing
/// changes.
pub fn add_queue_items(pairs: &Vec<(String, String)>, db: &mut Database) -> (recorded: bool)
    requires
        queue_wf(old(db)@.queue),
    ensures
        recorded ==> exists|queue_ids: Seq<Text>|
            {
                &&& can_add_all(old(db)@.queue, pairs.deep_view(), queue_ids)
                &&& final(db)@ == (DatabaseView {
                    queue: #[trigger] queue_add_all(old(db)@.queue, pairs.deep_view(), queue_ids),
                    ..old(db)@
                })
            },
        !recorded ==> final(db)@ == old(db)@,
        pairs@.len() == 0 ==> recorded,
        queue_wf(final(db)@.queue),
{
    match draw_ids(pairs.len()) {
        Ok(queue_ids) => {
            let recorded = add_queue_items_with_ids(pairs, db, &queue_ids);
            proof {
                if pairs@.len() == 0 {
                    assert(queue_ids.deep_view().len() == 0);
                    assert(fresh_ids(old(db)@.queue, queue_ids.deep_view()));
                    assert forall|p: Text, id: Text|
                        #![trigger count_pair(pairs.deep_view(), p, id)]
                        references_of(old(db)@.queue, p, id) + count_pair(pairs.deep_view(), p, id)
                            <= u64::MAX by {
                        lemma_first_where(old(db)@.queue, for_profile(p, id));
                    }
                }
            }
            recorded
        },
        Err(_) => false,
    }
}

/// Only as many identifiers are read as there are profiles.
pub proof fn lemma_queue_add_all_ignores(
    queue: Seq<QueueItemView>,
    pairs: Seq<(Text, Text)>,
    queue_ids: Seq<Text>,
    longer: Seq<Text>,
)
    requires
        pairs.len() <= queue_ids.len() <= longer.len(),
        forall|i: int| 0 <= i < pairs.len() ==> queue_ids[i] == longer[i],
    ensures
        queue_add_all(queue, pairs, queue_ids) == queue_add_all(queue, pairs, longer),
    decreases pairs.len(),
{
    if pairs.len() > 0 {
        lemma_queue_add_all_ignores(queue, pairs.drop_last(), queue_ids, longer);
    }
}

/// Records that a subject stops referring to each of `pairs`, in their order.
pub fn remove_queue_items(pairs: &Vec<(String, String)>, db: &mut Database)
    requires
        queue_wf(old(db)@.queue),
    ensures
        final(db)@ == (DatabaseView {
            queue: queue_remove_all(old(db)@.queue, pairs.deep_view()),
            ..old(db)@
        }),
        queue_wf(final(db)@.queue),
{
    let ghost all = pairs.deep_view();
    let mut i: usize = 0;
    while i < pairs.len()
        invariant
            i <= pairs.len(),
            all == pairs.deep_view(),
            queue_wf(db@.queue),
            db@ == (DatabaseView {
                queue: queue_remove_all(old(db)@.queue, all.take(i as int)),
                ..old(db)@
            }),
        decreases pairs.len() - i,
    {
        remove_queue_item(pairs[i].1.as_str(), pairs[i].0.as_str(), db);
        proof {
            assert(all.take(i + 1).drop_last() =~= all.take(i as int));
            assert(all.take(i + 1).last() == (pairs[i as int].0@, pairs[i as int].1@));
        }
        i += 1;
    }
    assert(all.take(pairs.len() as int) =~= all);
}

/// The condition of being free and on one of `platforms`.
pub open spec fn leasable(platforms: Seq<Text>) -> spec_fn(QueueItemView) -> bool {
    |entry: QueueItemView| entry.lock_holder is None && platforms.contains(entry.platform)
}

/// Whether the entry `a` at index `i` is served before the entry `b` at index
/// `j`: it was last served earlier, or at the same instant and stands no later
/// in the queue.
pub open spec fn served_before(a: QueueItemView, i: int, b: QueueItemView, j: int) -> bool {
    a.last_processed < b.last_processed || (a.last_processed == b.last_processed && i <= j)
}

/// Whether `queue[i]` can be leased for `platforms` and is served before
/// every other entry that can.
pub open spec fn is_coldest(queue: Seq<QueueItemView>, platforms: Seq<Text>, i: int) -> bool {
    &&& 0 <= i < queue.len()
    &&& leasable(platforms)(queue[i])
    &&& forall|j: int|
        0 <= j < queue.len() && leasable(platforms)(#[trigger] queue[j]) ==> served_before(
            queue[i],
            i,
            queue[j],
            j,
        )
}

/// The index of the entry to lease next for `platforms`, if any can be
/// leased.
pub open spec fn coldest(queue: Seq<QueueItemView>, platforms: Seq<Text>) -> Option<int> {
    if exists|i: int| is_coldest(queue, platforms, i) {
        Some(choose|i: int| is_coldest(queue, platforms, i))
    } else {
        None
    }
}

/// An entry as leased to `holder` at `now`.
pub open spec fn leased(entry: QueueItemView, holder: Text, now: i64) -> QueueItemView {
    QueueItemView { lock_holder: Some(holder), lock_acquired_at: Some(now), ..entry }
}

/// The queue after `holder` asks for a lease on `platforms` at `now`.
pub open spec fn queue_lease(
    queue: Seq<QueueItemView>,
    platforms: Seq<Text>,
    holder: Text,
    now: i64,
) -> Seq<QueueItemView> {
    match coldest(queue, platforms) {
        Some(i) => queue.update(i, leased(queue[i], holder, now)),
        None => queue,
    }
}

/// The entry that is served before every other is the one to lease.
pub proof fn lemma_coldest_is(queue: Seq<QueueItemView>, platforms: Seq<Text>, i: int)
    requires
        is_coldest(queue, platforms, i),
    ensures
        coldest(queue, platforms) == Some(i),
{
    let found = choose|k: int| is_coldest(queue, platforms, k);
    assert(is_coldest(queue, platforms, found));
    assert(served_before(queue[found], found, queue[i], i));
    assert(served_before(queue[i], i, queue[found], found));
}

/// Leases to `holder`, at the instant `now`, the free entry on one of
/// `platforms` that was last served longest ago; among several, the one that
/// stands first in the queue. Returns the entry as leased, or `None` where no
/// entry on these platforms is free.
pub fn lease_at(db: &mut Database, holder: &str, platforms: &Vec<String>, now: i64) -> (granted:
    Option<InternalQueueItem>)
    requires
        queue_wf(old(db)@.queue),
    ensures
        final(db)@ == (DatabaseView {
            queue: queue_lease(old(db)@.queue, platforms.deep_view(), holder@, now),
            ..old(db)@
        }),
        queue_wf(final(db)@.queue),
        granted.deep_view() == match coldest(old(db)@.queue, platforms.deep_view()) {
            Some(i) => Some(leased(old(db)@.queue[i], holder@, now)),
            None => None,
        },
        granted is None <==> none_where(old(db)@.queue, leasable(platforms.deep_view())),
{
    let ghost queue = db@.queue;
    let ghost wanted = platforms.deep_view();
    let mut best: Option<usize> = None;
    let mut i: usize = 0;
    while i < db.queue.len()
        invariant
            i <= db.queue.len(),
            queue == db@.queue,
            wanted == platforms.deep_view(),
            match best {
                Some(b) => {
                    &&& b < i
                    &&& leasable(wanted)(queue[b as int])
                    &&& forall|j: int|
                        0 <= j < i && leasable(wanted)(#[trigger] queue[j]) ==> served_before(
                            queue[b as int],
                            b as int,
                            queue[j],
                            j,
                        )
                },
                None => forall|j: int| 0 <= j < i ==> !leasable(wanted)(#[trigger] queue[j]),
            },
        decreases db.queue.len() - i,
    {
        assert(queue[i as int] == db.queue[i as int]@);
        if db.queue[i].lock_holder.is_none() && contains_text(
            platforms,
            db.queue[i].platform.as_str(),
        ) {
            match best {
                Some(b) => {
                    assert(queue[b as int] == db.queue[b as int]@);
                    if db.queue[i].last_processed < db.queue[b].last_processed {
                        best = Some(i);
                    }
                },
                None => {
                    best = Some(i);
                },
            }
        }
        i += 1;
    }
    match best {
        Some(b) => {
            proof {
                lemma_coldest_is(queue, wanted, b as int);
            }
            let ghost before = db.queue;
            assert(queue[b as int] == db.queue[b as int]@);
            let entry = InternalQueueItem {
                queue_id: db.queue[b].queue_id.clone(),
                platform_id: db.queue[b].platform_id.clone(),
                platform: db.queue[b].platform.clone(),
                last_processed: db.queue[b].last_processed,
                lock_holder: Some(holder.to_string()),
                lock_acquired_at: Some(now),
                references: db.queue[b].references,
                confirmed_id: db.queue[b].confirmed_id,
            };
            let granted = entry.clone();
            db.queue.set(b, entry);
            proof {
                lemma_deep_view_update(before, db.queue, b as int, entry);
            }
            Some(granted)
        },
        None => None,
    }
}

/// Leases to `holder`, as of the present, the free entry on one of
/// `platforms` that was last served longest ago.
pub fn lease(db: &mut Database, holder: &str, platforms: &Vec<String>) -> (granted: Option<
    InternalQueueItem,
>)
    requires
        queue_wf(old(db)@.queue),
    ensures
        exists|at: i64|
            final(db)@ == (DatabaseView {
                queue: #[trigger] queue_lease(old(db)@.queue, platforms.deep_view(), holder@, at),
                ..old(db)@
            }) && granted.deep_view() == match coldest(old(db)@.queue, platforms.deep_view()) {
                Some(i) => Some(leased(old(db)@.queue[i], holder@, at)),
                None => None,
            },
        queue_wf(final(db)@.queue),
        granted is None <==> none_where(old(db)@.queue, leasable(platforms.deep_view())),
{
    let at = now();
    lease_at(db, holder, platforms, at)
}

/// The condition of holding a lease that was taken before `cutoff`.
pub open spec fn expired(cutoff: int) -> spec_fn(QueueItemView) -> bool {
    |entry: QueueItemView| entry.lock_acquired_at matches Some(at) && at < cutoff
}

/// An entry without its lease where the lease was taken before `cutoff`, and
/// as it is otherwise.
pub open spec fn swept(cutoff: int) -> spec_fn(QueueItemView) -> QueueItemView {
    |entry: QueueItemView|
        if expired(cutoff)(entry) {
            QueueItemView { lock_holder: None, lock_acquired_at: None, ..entry }
        } else {
            entry
        }
}

/// The instant before which a lease has timed out at `now`.
pub open spec fn lease_cutoff(now: i64, timeout_secs: i64) -> int {
    now - timeout_secs * 1_000_000
}

/// Ends, at the instant `now`, every lease that is older than `timeout_secs`
/// seconds. When an entry was last served does not change.
pub fn clear_old_locks_at(db: &mut Database, timeout_secs: i64, now: i64)
    requires
        queue_wf(old(db)@.queue),
    ensures
        final(db)@ == (DatabaseView {
            queue: old(db)@.queue.map_values(swept(lease_cutoff(now, timeout_secs))),
            ..old(db)@
        }),
        queue_wf(final(db)@.queue),
{
    let ghost queue = db@.queue;
    let ghost cutoff = lease_cutoff(now, timeout_secs);
    let mut i: usize = 0;
    while i < db.queue.len()
        invariant
            i <= db.queue.len(),
            queue.len() == db.queue.len(),
            queue == old(db)@.queue,
            cutoff == lease_cutoff(now, timeout_secs),
            db@ == (DatabaseView { queue: db@.queue, ..old(db)@ }),
            forall|j: int| 0 <= j < i ==> #[trigger] db@.queue[j] == swept(cutoff)(queue[j]),
            forall|j: int| i <= j < queue.len() ==> #[trigger] db@.queue[j] == queue[j],
        decreases db.queue.len() - i,
    {
        assert(db@.queue[i as int] == db.queue[i as int]@);
        let timed_out = match db.queue[i].lock_acquired_at {
            Some(at) => (at as i128) < (now as i128) - (timeout_secs as i128) * 1_000_000,
            None => false,
        };
        if timed_out {
            let ghost before = db.queue;
            let entry = InternalQueueItem {
                queue_id: db.queue[i].queue_id.clone(),
                platform_id: db.queue[i].platform_id.clone(),
                platform: db.queue[i].platform.clone(),
                last_processed: db.queue[i].last_processed,
                lock_holder: None,
                lock_acquired_at: None,
                references: db.queue[i].references,
                confirmed_id: db.queue[i].confirmed_id,
            };
            db.queue.set(i, entry);
            proof {
                lemma_deep_view_update(before, db.queue, i as int, entry);
            }
        }
        i += 1;
    }
    assert(db@.queue =~= queue.map_values(swept(cutoff)));
}

/// Ends, as of the present, every lease that is older than `timeout_secs`
/// seconds.
pub fn clear_old_locks(db: &mut Database, timeout_secs: i64)
    requires
        queue_wf(old(db)@.queue),
    ensures
        exists|at: i64|
            final(db)@ == (DatabaseView {
                queue: old(db)@.queue.map_values(swept(#[trigger] lease_cutoff(at, timeout_secs))),
                ..old(db)@
            }),
        queue_wf(final(db)@.queue),
{
    let at = now();
    clear_old_locks_at(db, timeout_secs, at);
}

/// The sweep ends exactly the leases that are older than the timeout: a lease
/// taken `timeout_secs` seconds before `now` or later stays as it is, an
/// older one ends, and nothing else about an entry changes.
pub proof fn lemma_sweep_by_age(queue: Seq<QueueItemView>, timeout_secs: i64, now: i64, i: int)
    requires
        0 <= i < queue.len(),
    ensures
        ({
            let after = queue.map_values(swept(lease_cutoff(now, timeout_secs)))[i];
            match queue[i].lock_acquired_at {
                Some(at) => if now - at > timeout_secs * 1_000_000 {
                    after == (QueueItemView {
                        lock_holder: None,
                        lock_acquired_at: None,
                        ..queue[i]
                    })
                } else {
                    after == queue[i]
                },
                None => after == queue[i],
            }
        }),
{
}

/// An entry as released at `now`: free, and last served then.
pub open spec fn released(entry: QueueItemView, now: i64) -> QueueItemView {
    QueueItemView { lock_holder: None, lock_acquired_at: None, last_processed: now, ..entry }
}

/// The queue after `holder` hands back, at `now`, the lease that goes by
/// `queue_id`.
pub open spec fn queue_release(
    queue: Seq<QueueItemView>,
    queue_id: Text,
    holder: Text,
    now: i64,
) -> Seq<QueueItemView> {
    match first_where(queue, leased_as(queue_id, holder)) {
        Some(i) => queue.update(i, released(queue[i], now)),
        None => queue,
    }
}

/// Whether a submission with metadata for `username` rebinds the entry that
/// goes by `queue_id`: the entry stands for that username on `platform`, has
/// no identifier confirmed, and is leased to `holder`.
pub open spec fn rebinds(
    queue: Seq<QueueItemView>,
    queue_id: Text,
    platform: Text,
    username: Option<Text>,
    holder: Text,
) -> bool {
    username matches Some(name) && first_where(
        queue,
        awaiting_identifier(queue_id, platform, name, holder),
    ) is Some
}

/// Whether the identifier behind a username needs an entry of its own once
/// the username's entry has lost a reference: whether it has none then.
pub open spec fn needs_entry(
    queue: Seq<QueueItemView>,
    platform: Text,
    username: Text,
    platform_id: Text,
) -> bool {
    first_where(queue_remove(queue, platform, username), for_profile(platform, platform_id))
        is None
}

/// Whether a rebinding cannot be made: the identifier needs an entry of its
/// own, and there is no identifier for the entry at hand, or an entry goes
/// by it already; or the identifier has an entry, and its count is the
/// largest that an entry can hold.
pub open spec fn rebind_blocked(
    queue: Seq<QueueItemView>,
    platform: Text,
    username: Text,
    platform_id: Text,
    fresh_queue_id: Option<Text>,
) -> bool {
    if needs_entry(queue, platform, username, platform_id) {
        !(fresh_queue_id matches Some(queue_id) && !any_where(queue, going_by(queue_id)))
    } else {
        references_of(queue_remove(queue, platform, username), platform, platform_id) >= u64::MAX
    }
}

/// Whether `holder` may settle the lease that goes by `queue_id`: where the
/// records rebind the entry, unless the rebinding cannot be made; otherwise,
/// where `holder` holds the lease.
pub open spec fn process_succeeds(
    queue: Seq<QueueItemView>,
    queue_id: Text,
    platform_id: Text,
    platform: Text,
    username: Option<Text>,
    holder: Text,
    fresh_queue_id: Option<Text>,
) -> bool {
    if rebinds(queue, queue_id, platform, username, holder) {
        !rebind_blocked(queue, platform, username.unwrap(), platform_id, fresh_queue_id)
    } else {
        first_where(queue, leased_as(queue_id, holder)) is Some
    }
}

/// The identifier that a new entry gets where one is at hand, and the empty
/// text, which is never read, where none is.
pub open spec fn at_hand(fresh_queue_id: Option<Text>) -> Text {
    match fresh_queue_id {
        Some(queue_id) => queue_id,
        None => Seq::empty(),
    }
}

/// The state after `holder` settles, at `now`, the lease that goes by
/// `queue_id` with records about `platform_id` on `platform`.
///
/// Where the lease was taken out on a username and the records name the
/// identifier behind it, the username's entry loses a reference, the
/// identifier's entry gains one and is confirmed (a new one gets the
/// identifier `fresh_queue_id`), and every subject watches the identifier
/// where it first watched the username. Otherwise the lease is handed back
/// and the entry was last served at `now`. Where the lease is not the
/// holder's to settle, nothing changes.
pub open spec fn processed(
    db: DatabaseView,
    queue_id: Text,
    platform_id: Text,
    platform: Text,
    holder: Text,
    username: Option<Text>,
    now: i64,
    fresh_queue_id: Option<Text>,
) -> DatabaseView {
    if !process_succeeds(db.queue, queue_id, platform_id, platform, username, holder, fresh_queue_id) {
        db
    } else if rebinds(db.queue, queue_id, platform, username, holder) {
        DatabaseView {
            queue: queue_add(
                queue_remove(db.queue, platform, username.unwrap()),
                platform,
                platform_id,
                true,
                at_hand(fresh_queue_id),
            ),
            subjects: db.subjects.map_values(rebound(platform, username.unwrap(), platform_id)),
            ..db
        }
    } else {
        DatabaseView { queue: queue_release(db.queue, queue_id, holder, now), ..db }
    }
}

/// Rebinding subjects changes neither their identifiers nor their names, so
/// what holds of subjects and groups at rest still holds.
pub proof fn lemma_rebound_keeps_wf(
    subjects: Seq<SubjectView>,
    groups: Seq<GroupView>,
    platform: Text,
    username: Text,
    platform_id: Text,
)
    requires
        subjects_wf(subjects),
        groups_wf(groups, subjects),
    ensures
        subjects_wf(subjects.map_values(rebound(platform, username, platform_id))),
        groups_wf(groups, subjects.map_values(rebound(platform, username, platform_id))),
{
    let after = subjects.map_values(rebound(platform, username, platform_id));
    assert forall|i: int| 0 <= i < after.len() implies distinct_platforms(
        (#[trigger] after[i]).profiles,
    ) by {
        let before = subjects[i].profiles;
        assert(distinct_platforms(before));
        let moved = after[i].profiles;
        lemma_first_where(before, crate::concepts::subject::on_platform(platform));
        assert forall|a: int, b: int| 0 <= a < b < moved.len() implies (#[trigger] moved[a]).0 != (
        #[trigger] moved[b]).0 by {
            assert(before[a].0 != before[b].0);
        }
    }
    assert forall|i: int| 0 <= i < groups.len() implies crate::database::all_subjects(
        (#[trigger] groups[i]).subjects,
        after,
    ) by {
        assert(crate::database::all_subjects(groups[i].subjects, subjects));
        assert forall|k: int| 0 <= k < groups[i].subjects.len() implies is_subject(
            after,
            #[trigger] groups[i].subjects[k],
        ) by {
            let uuid = groups[i].subjects[k];
            assert(is_subject(subjects, uuid));
            let at = choose|at: int|
                0 <= at < subjects.len() && subject_with_uuid(uuid)(#[trigger] subjects[at]);
            assert(subject_with_uuid(uuid)(after[at]));
        }
    }
}

/// The index of the entry that goes by `queue_id` and is leased to `holder`,
/// if there is one.
pub fn find_lease(queue: &Vec<InternalQueueItem>, queue_id: &str, holder: &str) -> (found: Option<
    usize,
>)
    ensures
        match found {
            Some(i) => first_where(queue.deep_view(), leased_as(queue_id@, holder@)) == Some(
                i as int,
            ) && i < queue.len(),
            None => first_where(queue.deep_view(), leased_as(queue_id@, holder@)) is None,
        },
{
    let mut i: usize = 0;
    while i < queue.len()
        invariant
            i <= queue.len(),
            forall|j: int|
                0 <= j < i ==> !leased_as(queue_id@, holder@)(#[trigger] queue.deep_view()[j]),
        decreases queue.len() - i,
    {
        assert(queue.deep_view()[i as int] == queue[i as int]@);
        let held = match &queue[i].lock_holder {
            Some(by) => *by.as_str() == *holder,
            None => false,
        };
        if *queue[i].queue_id == *queue_id && held {
            proof {
                lemma_first_where_is(queue.deep_view(), leased_as(queue_id@, holder@), i as int);
            }
            return Some(i);
        }
        i += 1;
    }
    proof {
        lemma_first_where_none(queue.deep_view(), leased_as(queue_id@, holder@));
    }
    None
}

fn awaits_identifier(
    queue: &Vec<InternalQueueItem>,
    queue_id: &str,
    platform: &str,
    username: &str,
    holder: &str,
) -> (found: bool)
    ensures
        found == (first_where(
            queue.deep_view(),
            awaiting_identifier(queue_id@, platform@, username@, holder@),
        ) is Some),
{
    let ghost wanted = awaiting_identifier(queue_id@, platform@, username@, holder@);
    let mut i: usize = 0;
    while i < queue.len()
        invariant
            i <= queue.len(),
            wanted == awaiting_identifier(queue_id@, platform@, username@, holder@),
            forall|j: int| 0 <= j < i ==> !wanted(#[trigger] queue.deep_view()[j]),
        decreases queue.len() - i,
    {
        assert(queue.deep_view()[i as int] == queue[i as int]@);
        let held = match &queue[i].lock_holder {
            Some(by) => *by.as_str() == *holder,
            None => false,
        };
        if *queue[i].queue_id == *queue_id && *queue[i].platform == *platform
            && *queue[i].platform_id == *username && held && !queue[i].confirmed_id {
            proof {
                lemma_first_where_is(queue.deep_view(), wanted, i as int);
            }
            return true;
        }
        i += 1;
    }
    proof {
        lemma_first_where_none(queue.deep_view(), wanted);
    }
    false
}

fn rebind_subjects(db: &mut Database, platform: &str, username: &str, platform_id: &str)
    ensures
        final(db)@ == (DatabaseView {
            subjects: old(db)@.subjects.map_values(rebound(platform@, username@, platform_id@)),
            ..old(db)@
        }),
{
    let ghost subjects = db@.subjects;
    let ghost moved = rebound(platform@, username@, platform_id@);
    let mut i: usize = 0;
    while i < db.subjects.len()
        invariant
            i <= db.subjects.len(),
            subjects.len() == db.subjects.len(),
            subjects == old(db)@.subjects,
            moved == rebound(platform@, username@, platform_id@),
            db@ == (DatabaseView { subjects: db@.subjects, ..old(db)@ }),
            forall|j: int| 0 <= j < i ==> #[trigger] db@.subjects[j] == moved(subjects[j]),
            forall|j: int| i <= j < subjects.len() ==> #[trigger] db@.subjects[j] == subjects[j],
        decreases db.subjects.len() - i,
    {
        assert(db@.subjects[i as int] == db.subjects[i as int]@);
        let ghost before = db.subjects;
        let subject = db.subjects[i].rebind(platform, username, platform_id);
        db.subjects.set(i, subject);
        proof {
            lemma_deep_view_update(before, db.subjects, i as int, subject);
        }
        i += 1;
    }
    assert(db@.subjects =~= subjects.map_values(moved));
}

/// Whether records about `id` on `platform`, with the username `username`,
/// rebind the entry that goes by `queue_id` and is leased to `added_by`, and
/// the identifier needs an entry of its own for it.
pub fn rebind_needs_entry(
    queue_id: &str,
    id: &str,
    platform: &str,
    added_by: &str,
    username: &Option<String>,
    db: &Database,
) -> (needed: bool)
    requires
        queue_wf(db@.queue),
    ensures
        needed == (rebinds(db@.queue, queue_id@, platform@, username.deep_view(), added_by@)
            && needs_entry(db@.queue, platform@, username.deep_view().unwrap(), id@)),
{
    match username {
        Some(name) => {
            if !awaits_identifier(&db.queue, queue_id, platform, name.as_str(), added_by) {
                return false;
            }
            proof {
                lemma_queue_remove(db@.queue, platform@, name@);
                lemma_first_where(db@.queue, for_profile(platform@, id@));
                lemma_first_where(
                    queue_remove(db@.queue, platform@, name@),
                    for_profile(platform@, id@),
                );
                assert(references_of(queue_remove(db@.queue, platform@, name@), platform@, id@)
                    == if id@ == name@ {
                    capped(references_of(db@.queue, platform@, id@) as int - 1)
                } else {
                    references_of(db@.queue, platform@, id@)
                });
            }
            match find_profile(&db.queue, platform, id) {
                Some(k) => {
                    assert(db@.queue[k as int] == db.queue[k as int]@);
                    *id == *name.as_str() && db.queue[k].references == 1
                },
                None => true,
            }
        },
        None => false,
    }
}

/// Settles, at the instant `now`, the lease that goes by `queue_id` for the
/// operator `added_by`, who submitted records about `id` on `platform`, with
/// the username `username` where the records hold metadata. A new entry, if
/// the settling makes one, gets the identifier `fresh_queue_id`.
///
/// Returns whether the lease was settled. Where it was not, nothing changes.
pub fn process_at(
    queue_id: &str,
    id: &str,
    platform: &str,
    added_by: &str,
    username: Option<String>,
    db: &mut Database,
    now: i64,
    fresh_queue_id: Option<String>,
) -> (settled: bool)
    requires
        old(db)@.wf(),
    ensures
        final(db)@ == processed(
            old(db)@,
            queue_id@,
            id@,
            platform@,
            added_by@,
            username.deep_view(),
            now,
            fresh_queue_id.deep_view(),
        ),
        settled == process_succeeds(
            old(db)@.queue,
            queue_id@,
            id@,
            platform@,
            username.deep_view(),
            added_by@,
            fresh_queue_id.deep_view(),
        ),
        !settled ==> final(db)@ == old(db)@,
        final(db)@.wf(),
{
    if let Some(name) = &username {
        if awaits_identifier(&db.queue, queue_id, platform, name.as_str(), added_by) {
            let needed = rebind_needs_entry(queue_id, id, platform, added_by, &username, db);
            proof {
                lemma_queue_remove(old(db)@.queue, platform@, name@);
                lemma_first_where(old(db)@.queue, for_profile(platform@, id@));
                lemma_first_where(
                    queue_remove(old(db)@.queue, platform@, name@),
                    for_profile(platform@, id@),
                );
            }
            if !needed {
                match find_profile(&db.queue, platform, id) {
                    Some(k) => {
                        assert(db@.queue[k as int] == db.queue[k as int]@);
                        if !(*id == *name.as_str()) && db.queue[k].references == u64::MAX {
                            return false;
                        }
                    },
                    None => {},
                }
            }
            let new_id = match fresh_queue_id {
                Some(new_id) => {
                    if needed && queue_id_in_use(&db.queue, new_id.as_str()) {
                        return false;
                    }
                    new_id
                },
                None => {
                    if needed {
                        return false;
                    }
                    String::new()
                },
            };
            proof {
                lemma_queue_remove(old(db)@.queue, platform@, name@);
            }
            remove_queue_item(name.as_str(), platform, db);
            let recorded = add_queue_item_with_id(id, platform, db, true, new_id);
            assert(recorded);
            rebind_subjects(db, platform, name.as_str(), id);
            proof {
                lemma_rebound_keeps_wf(old(db)@.subjects, old(db)@.groups, platform@, name@, id@);
            }
            return true;
        }
    }
    match find_lease(&db.queue, queue_id, added_by) {
        Some(i) => {
            let ghost before = db.queue;
            assert(before.deep_view()[i as int] == before[i as int]@);
            let entry = InternalQueueItem {
                queue_id: db.queue[i].queue_id.clone(),
                platform_id: db.queue[i].platform_id.clone(),
                platform: db.queue[i].platform.clone(),
                last_processed: now,
                lock_holder: None,
                lock_acquired_at: None,
                references: db.queue[i].references,
                confirmed_id: db.queue[i].confirmed_id,
            };
            db.queue.set(i, entry);
            proof {
                lemma_deep_view_update(before, db.queue, i as int, entry);
                lemma_queue_release_keeps(old(db)@.queue, queue_id@, added_by@, now);
            }
            true
        },
        None => false,
    }
}

/// Settles, as of the present, the lease that goes by `queue_id` for the
/// operator `added_by`. An identifier is drawn only where the settling makes
/// an entry. Returns whether the lease was settled. A lease that is handed
/// back is settled exactly where the operator holds it; a rebinding onto an
/// entry that exists, exactly where that entry can count one more; a
/// rebinding that makes an entry, unless the system's random source fails or
/// the drawn identifier is taken.
pub fn process(
    queue_id: &str,
    id: &str,
    platform: &str,
    added_by: &str,
    username: Option<String>,
    db: &mut Database,
) -> (settled: bool)
    requires
        old(db)@.wf(),
    ensures
        exists|at: i64, fresh_queue_id: Option<Text>|
            {
                &&& final(db)@ == #[trigger] processed(
                    old(db)@,
                    queue_id@,
                    id@,
                    platform@,
                    added_by@,
                    username.deep_view(),
                    at,
                    fresh_queue_id,
                )
                &&& settled == process_succeeds(
                    old(db)@.queue,
                    queue_id@,
                    id@,
                    platform@,
                    username.deep_view(),
                    added_by@,
                    fresh_queue_id,
                )
            },
        !settled ==> final(db)@ == old(db)@,
        !rebinds(old(db)@.queue, queue_id@, platform@, username.deep_view(), added_by@) ==> settled
            == (first_where(old(db)@.queue, leased_as(queue_id@, added_by@)) is Some),
        rebinds(old(db)@.queue, queue_id@, platform@, username.deep_view(), added_by@)
            && !needs_entry(old(db)@.queue, platform@, username.deep_view().unwrap(), id@)
            ==> settled == !rebind_blocked(
            old(db)@.queue,
            platform@,
            username.deep_view().unwrap(),
            id@,
            None,
        ),
        final(db)@.wf(),
{
    let at = now();
    let fresh_queue_id = if rebind_needs_entry(queue_id, id, platform, added_by, &username, db) {
        match new_uuid() {
            Ok(fresh_queue_id) => Some(fresh_queue_id),
            Err(_) => None,
        }
    } else {
        None
    };
    process_at(queue_id, id, platform, added_by, username, db, at, fresh_queue_id)
}

/// The condition of being metadata about `platform_id` on `platform`.
pub open spec fn names_profile(platform: Text, platform_id: Text) -> spec_fn(DataView) -> bool {
    |record: DataView| record is Meta && record.platform() == platform && record.id() == platform_id
}

/// Whether `data[i]` is the latest metadata about the profile: none was
/// retrieved later, and none that was retrieved at the same instant was
/// stored after it.
pub open spec fn is_latest_meta(
    data: Seq<DataView>,
    platform: Text,
    platform_id: Text,
    i: int,
) -> bool {
    &&& 0 <= i < data.len()
    &&& names_profile(platform, platform_id)(data[i])
    &&& forall|j: int|
        0 <= j < data.len() && names_profile(platform, platform_id)(#[trigger] data[j]) ==> {
            data[j].retrieved_at() < data[i].retrieved_at() || (data[j].retrieved_at()
                == data[i].retrieved_at() && j <= i)
        }
}

/// The username to look a profile up by: the one that the latest metadata
/// about it gives, or `platform_id` itself where there is no metadata.
pub open spec fn username_hint(data: Seq<DataView>, platform: Text, platform_id: Text) -> Text {
    if exists|i: int| is_latest_meta(data, platform, platform_id, i) {
        data[choose|i: int| is_latest_meta(data, platform, platform_id, i)]->Meta_username
    } else {
        platform_id
    }
}

/// The username to look the profile `platform_id` on `platform` up by.
pub fn get_username_hint(platform_id: &str, platform: &str, db: &Database) -> (hint: String)
    ensures
        hint@ == username_hint(db@.data, platform@, platform_id@),
{
    let ghost data = db@.data;
    let ghost named = names_profile(platform@, platform_id@);
    let mut best: Option<usize> = None;
    let mut best_at: i64 = 0;
    let mut i: usize = 0;
    while i < db.data.len()
        invariant
            i <= db.data.len(),
            data == db@.data,
            named == names_profile(platform@, platform_id@),
            match best {
                Some(b) => {
                    &&& b < i
                    &&& named(data[b as int])
                    &&& best_at == data[b as int].retrieved_at()
                    &&& forall|j: int|
                        0 <= j < i && named(#[trigger] data[j]) ==> {
                            data[j].retrieved_at() < best_at || (data[j].retrieved_at() == best_at
                                && j <= b)
                        }
                },
                None => forall|j: int| 0 <= j < i ==> !named(#[trigger] data[j]),
            },
        decreases db.data.len() - i,
    {
        assert(data[i as int] == db.data[i as int]@);
        if let Data::Meta { id, platform: on, retrieved_at, .. } = &db.data[i] {
            if *id.as_str() == *platform_id && *on.as_str() == *platform {
                if best.is_none() || *retrieved_at >= best_at {
                    best = Some(i);
                    best_at = *retrieved_at;
                }
            }
        }
        i += 1;
    }
    match best {
        Some(b) => {
            assert(data[b as int] == db.data[b as int]@);
            proof {
                assert(is_latest_meta(data, platform@, platform_id@, b as int));
                let found = choose|k: int| is_latest_meta(data, platform@, platform_id@, k);
                assert(named(data[found]));
                assert(named(data[b as int]));
                assert(found == b);
            }
            match &db.data[b] {
                Data::Meta { username, .. } => username.clone(),
                _ => platform_id.to_string(),
            }
        },
        None => {
            assert forall|k: int| !is_latest_meta(data, platform@, platform_id@, k) by {
                if 0 <= k < data.len() {
                    assert(!named(data[k]));
                }
            }
            platform_id.to_string()
        },
    }
}

/// The platforms that a provider asks work for.
pub struct QueueQuery {
    pub platforms: Vec<String>,
}

/// Whether the configuration knows every one of `platforms`.
pub open spec fn all_valid(platforms: Seq<Text>, config: crate::config::ConfigView) -> bool {
    forall|i: int| 0 <= i < platforms.len() ==> config.valid_platform(#[trigger] platforms[i])
}

/// Why a request for work is refused, if it is: the status and the
/// explanation.
pub open spec fn queue_refusal(
    platforms: Option<Seq<Text>>,
    config: crate::config::ConfigView,
    queue: Seq<QueueItemView>,
) -> Option<(StatusCode, Text)> {
    match platforms {
        None => Some(
            (StatusCode::BAD_REQUEST, "You must provide a list of supported platforms."@),
        ),
        Some(platforms) => if platforms.len() == 0 {
            Some(
                (
                    StatusCode::BAD_REQUEST,
                    "You must specify which platforms you are performing jobs for."@,
                ),
            )
        } else if !all_valid(platforms, config) {
            Some(
                (
                    StatusCode::BAD_REQUEST,
                    "One or more of your given platforms is not valid. See /types for supported platforms."@,
                ),
            )
        } else if coldest(queue, platforms) is None {
            Some((StatusCode::OK, "There are no jobs available. Please try again later."@))
        } else {
            None
        },
    }
}

/// The platforms of a query.
pub open spec fn asked(queue_query: Option<QueueQuery>) -> Option<Seq<Text>> {
    match queue_query {
        Some(query) => Some(query.platforms.deep_view()),
        None => None,
    }
}

fn all_platforms_valid(platforms: &Vec<String>, config: &IConfig) -> (valid: bool)
    requires
        config@.wf(),
    ensures
        valid == all_valid(platforms.deep_view(), config@),
{
    let mut i: usize = 0;
    while i < platforms.len()
        invariant
            config@.wf(),
            i <= platforms.len(),
            forall|j: int|
                0 <= j < i ==> config@.valid_platform(#[trigger] platforms.deep_view()[j]),
        decreases platforms.len() - i,
    {
        assert(platforms.deep_view()[i as int] == platforms[i as int]@);
        if !config.valid_platform(platforms[i].as_str()) {
            return false;
        }
        i += 1;
    }
    true
}

/// Answers a provider's request for work at the instant `now`: leases to
/// `user` the entry that has waited longest on the platforms asked for and
/// names it, with the username to look it up by.
///
/// A request without platforms, or with one that the configuration does not
/// know, is refused as a bad request. Where no entry is free, the answer says
/// so under the status `OK`. A refusal changes nothing.
pub fn queue_at(
    queue_query: Option<QueueQuery>,
    db: &mut Database,
    user: &User,
    config: &IConfig,
    now: i64,
) -> (answer: Result<(StatusCode, QueueResponse), Refusal>)
    requires
        config@.wf(),
        old(db)@.wf(),
    ensures
        final(db)@.wf(),
        match answer {
            Ok((status, body)) => {
                &&& queue_refusal(asked(queue_query), config@, old(db)@.queue) is None
                &&& coldest(old(db)@.queue, asked(queue_query).unwrap()) matches Some(i)
                &&& status == StatusCode::OK
                &&& body.response@ == "OK"@
                &&& body.queue_id@ == old(db)@.queue[i].queue_id
                &&& body.platform@ == old(db)@.queue[i].platform
                &&& body.platform_id@ == old(db)@.queue[i].platform_id
                &&& body.platform_username_hint@ == username_hint(
                    old(db)@.data,
                    body.platform@,
                    body.platform_id@,
                )
                &&& final(db)@ == (DatabaseView {
                    queue: queue_lease(
                        old(db)@.queue,
                        asked(queue_query).unwrap(),
                        user@.uuid,
                        now,
                    ),
                    ..old(db)@
                })
            },
            Err((status, body)) => {
                &&& queue_refusal(asked(queue_query), config@, old(db)@.queue) == Some(
                    (status, body.text@),
                )
                &&& body.response@ == "ERROR"@
                &&& final(db)@ == old(db)@
            },
        },
{
    let query = match queue_query {
        Some(query) => query,
        None => {
            return Err(
                refusal(StatusCode::BAD_REQUEST, "You must provide a list of supported platforms."),
            );
        },
    };
    let platforms = &query.platforms;
    if platforms.is_empty() {
        return Err(
            refusal(
                StatusCode::BAD_REQUEST,
                "You must specify which platforms you are performing jobs for.",
            ),
        );
    }
    if !all_platforms_valid(platforms, config) {
        return Err(
            refusal(
                StatusCode::BAD_REQUEST,
                "One or more of your given platforms is not valid. See /types for supported platforms.",
            ),
        );
    }
    match lease_at(db, user.uuid.as_str(), platforms, now) {
        Some(q_item) => {
            let username_hint = get_username_hint(
                q_item.platform_id.as_str(),
                q_item.platform.as_str(),
                db,
            );
            proof {
                lemma_queue_lease_keeps(
                    old(db)@.queue,
                    platforms.deep_view(),
                    user@.uuid,
                    now,
                );
            }
            Ok(
                (
                    StatusCode::OK,
                    QueueResponse::new(
                        q_item.queue_id,
                        q_item.platform,
                        q_item.platform_id,
                        username_hint,
                    ),
                ),
            )
        },
        None => Err(
            refusal(StatusCode::OK, "There are no jobs available. Please try again later."),
        ),
    }
}

/// Answers a provider's request for work as of the present.
pub fn queue(queue_query: Option<QueueQuery>, db: &mut Database, user: &User, config: &IConfig) -> (answer:
    Result<(StatusCode, QueueResponse), Refusal>)
    requires
        config@.wf(),
        old(db)@.wf(),
    ensures
        final(db)@.wf(),
        match answer {
            Ok((status, body)) => {
                &&& queue_refusal(asked(queue_query), config@, old(db)@.queue) is None
                &&& coldest(old(db)@.queue, asked(queue_query).unwrap()) matches Some(i)
                &&& status == StatusCode::OK
                &&& body.response@ == "OK"@
                &&& body.queue_id@ == old(db)@.queue[i].queue_id
                &&& body.platform@ == old(db)@.queue[i].platform
                &&& body.platform_id@ == old(db)@.queue[i].platform_id
                &&& body.platform_username_hint@ == username_hint(
                    old(db)@.data,
                    body.platform@,
                    body.platform_id@,
                )
                &&& exists|at: i64|
                    final(db)@ == (DatabaseView {
                        queue: #[trigger] queue_lease(
                            old(db)@.queue,
                            asked(queue_query).unwrap(),
                            user@.uuid,
                            at,
                        ),
                        ..old(db)@
                    })
            },
            Err((status, body)) => {
                &&& queue_refusal(asked(queue_query), config@, old(db)@.queue) == Some(
                    (status, body.text@),
                )
                &&& body.response@ == "ERROR"@
                &&& final(db)@ == old(db)@
            },
        },
{
    let at = now();
    queue_at(queue_query, db, user, config, at)
}

/// A lease changes who holds an entry and since when, and nothing else: the
/// queue stays well formed and every profile keeps its count.
pub proof fn lemma_queue_lease_keeps(
    queue: Seq<QueueItemView>,
    platforms: Seq<Text>,
    holder: Text,
    now: i64,
)
    requires
        queue_wf(queue),
    ensures
        queue_wf(queue_lease(queue, platforms, holder, now)),
        forall|p: Text, id: Text|
            #![trigger references_of(queue_lease(queue, platforms, holder, now), p, id)]
            references_of(queue_lease(queue, platforms, holder, now), p, id) == references_of(
                queue,
                p,
                id,
            ),
{
    let after = queue_lease(queue, platforms, holder, now);
    assert forall|p: Text, id: Text| #![trigger references_of(after, p, id)]
        references_of(after, p, id) == references_of(queue, p, id) by {
        let that = for_profile(p, id);
        if coldest(queue, platforms) is Some {
            assert forall|j: int| 0 <= j < queue.len() implies that(#[trigger] queue[j]) == that(
                #[trigger] after[j],
            ) by {}
            lemma_first_where_same(queue, after, that);
            lemma_first_where(queue, that);
        }
    }
}

/// Dropping a reference to a profile whose entry counts one takes the entry
/// out of the queue, and leaves the profile without an entry where the queue
/// was well formed; dropping one of several lowers the count by one and
/// changes nothing else.
pub proof fn lemma_remove_by_count(
    queue: Seq<QueueItemView>,
    platform: Text,
    platform_id: Text,
    i: int,
)
    requires
        first_where(queue, for_profile(platform, platform_id)) == Some(i),
    ensures
        queue[i].references == 1 ==> {
            &&& queue_remove(queue, platform, platform_id) == queue.remove(i)
            &&& queue_wf(queue) ==> first_where(
                queue.remove(i),
                for_profile(platform, platform_id),
            ) is None
        },
        queue[i].references > 1 ==> {
            &&& queue_remove(queue, platform, platform_id) == queue.update(
                i,
                QueueItemView { references: (queue[i].references - 1) as nat, ..queue[i] },
            )
        },
{
    lemma_first_where(queue, for_profile(platform, platform_id));
    if queue[i].references == 1 && queue_wf(queue) {
        assert forall|j: int| 0 <= j < queue.len() && j != i implies !for_profile(
            platform,
            platform_id,
        )(#[trigger] queue[j]) by {}
        lemma_first_where_remove_only(queue, i, for_profile(platform, platform_id));
    }
}

/// Handing a lease back changes who holds an entry and when it was last
/// served, and nothing else: the queue stays well formed and every profile
/// keeps its count.
pub proof fn lemma_queue_release_keeps(
    queue: Seq<QueueItemView>,
    queue_id: Text,
    holder: Text,
    now: i64,
)
    requires
        queue_wf(queue),
    ensures
        queue_wf(queue_release(queue, queue_id, holder, now)),
        forall|p: Text, id: Text|
            #![trigger references_of(queue_release(queue, queue_id, holder, now), p, id)]
            references_of(queue_release(queue, queue_id, holder, now), p, id) == references_of(
                queue,
                p,
                id,
            ),
{
    let after = queue_release(queue, queue_id, holder, now);
    lemma_first_where(queue, leased_as(queue_id, holder));
    assert forall|p: Text, id: Text| #![trigger references_of(after, p, id)]
        references_of(after, p, id) == references_of(queue, p, id) by {
        let that = for_profile(p, id);
        if first_where(queue, leased_as(queue_id, holder)) is Some {
            assert forall|j: int| 0 <= j < queue.len() implies that(#[trigger] queue[j]) == that(
                #[trigger] after[j],
            ) by {}
            lemma_first_where_same(queue, after, that);
            lemma_first_where(queue, that);
        }
    }
}

/// The sweep changes who holds an entry, and nothing else: the queue stays
/// well formed and every profile keeps its count.
pub proof fn lemma_queue_sweep_keeps(queue: Seq<QueueItemView>, cutoff: int)
    requires
        queue_wf(queue),
    ensures
        queue_wf(queue.map_values(swept(cutoff))),
        forall|p: Text, id: Text|
            #![trigger references_of(queue.map_values(swept(cutoff)), p, id)]
            references_of(queue.map_values(swept(cutoff)), p, id) == references_of(queue, p, id),
{
    let after = queue.map_values(swept(cutoff));
    assert forall|p: Text, id: Text| #![trigger references_of(after, p, id)]
        references_of(after, p, id) == references_of(queue, p, id) by {
        let that = for_profile(p, id);
        assert forall|j: int| 0 <= j < queue.len() implies that(#[trigger] queue[j]) == that(
            #[trigger] after[j],
        ) by {}
        lemma_first_where_same(queue, after, that);
        lemma_first_where(queue, that);
    }
}

/// An entry that is handed back at an instant later than every instant at
/// which an entry was last served is served after every other entry: whoever
/// asks next gets another entry, if another is free, so that no entry waits
/// for longer than it takes to serve the others once.
pub proof fn lemma_release_goes_last(
    queue: Seq<QueueItemView>,
    queue_id: Text,
    holder: Text,
    now: i64,
    i: int,
)
    requires
        first_where(queue, leased_as(queue_id, holder)) == Some(i),
        forall|j: int| 0 <= j < queue.len() ==> (#[trigger] queue[j]).last_processed < now,
    ensures
        forall|j: int|
            0 <= j < queue.len() && j != i ==> served_before(
                #[trigger] queue_release(queue, queue_id, holder, now)[j],
                j,
                queue_release(queue, queue_id, holder, now)[i],
                i,
            ),
        forall|platforms: Seq<Text>|
            #![trigger coldest(queue_release(queue, queue_id, holder, now), platforms)]
            (exists|j: int|
                0 <= j < queue.len() && j != i && leasable(platforms)(#[trigger] queue[j]))
                ==> coldest(queue_release(queue, queue_id, holder, now), platforms) != Some(i),
{
    lemma_first_where(queue, leased_as(queue_id, holder));
    let after = queue_release(queue, queue_id, holder, now);
    assert forall|j: int| 0 <= j < queue.len() && j != i implies served_before(
        #[trigger] after[j],
        j,
        after[i],
        i,
    ) by {
        assert(after[j] == queue[j]);
        assert(queue[j].last_processed < now);
    }
    assert forall|platforms: Seq<Text>| #![trigger coldest(after, platforms)]
        (exists|j: int| 0 <= j < queue.len() && j != i && leasable(platforms)(#[trigger] queue[j]))
            implies coldest(after, platforms) != Some(i) by {
        let j = choose|j: int|
            0 <= j < queue.len() && j != i && leasable(platforms)(#[trigger] queue[j]);
        assert(after[j] == queue[j]);
        assert(queue[j].last_processed < now);
        if coldest(after, platforms) == Some(i) {
            assert(is_coldest(after, platforms, i));
            assert(served_before(after[i], i, after[j], j));
        }
    }
}

/// An entry is leased to one holder at a time: the entry that a lease goes to
/// is not the one that the next lease goes to, whoever asks and for whatever
/// platforms.
pub proof fn lemma_leased_once(
    queue: Seq<QueueItemView>,
    platforms: Seq<Text>,
    holder: Text,
    now: i64,
    next_platforms: Seq<Text>,
)
    ensures
        coldest(queue, platforms) matches Some(i) ==> coldest(
            queue_lease(queue, platforms, holder, now),
            next_platforms,
        ) != Some(i),
{
    if coldest(queue, platforms) is Some {
        let i = coldest(queue, platforms).unwrap();
        assert(is_coldest(queue, platforms, i));
        let after = queue_lease(queue, platforms, holder, now);
        if coldest(after, next_platforms) == Some(i) {
            assert(is_coldest(after, next_platforms, i));
        }
    }
}

} // verus!
