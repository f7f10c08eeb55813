//! The balance between subjects and the queue: an entry counts exactly the
//! times that subjects list its profile.

use vstd::prelude::*;

use crate::concepts::subject::{
    on_platform, pairs_of, profile_pairs, rebind_profiles, rebound, replace_first, ProfilesView,
    SubjectView,
};
use crate::database::{subject_with_uuid, DatabaseView};
use crate::routes::queue::{
    capped, count_pair, for_profile, lemma_queue_add_all, lemma_queue_remove_all, queue_add_all,
    references_of,
};
use crate::routes::subjects::create::{create_refusal, subject_created};
use crate::routes::subjects::delete::{subject_deleted, subject_owned};
use crate::routes::subjects::update::{absent_from, subject_updated, UpdateSubjectRequest};
use crate::utils::search::{first_where, lemma_first_where, lemma_first_where_is};
use crate::utils::text::{is_text, Text};

verus! {

/// The times that `subjects` list the profile `platform_id` on `platform`.
pub open spec fn occurrences(subjects: Seq<SubjectView>, platform: Text, platform_id: Text) -> nat
    decreases subjects.len(),
{
    if subjects.len() == 0 {
        0
    } else {
        occurrences(subjects.drop_last(), platform, platform_id) + count_pair(
            profile_pairs(subjects.last().profiles),
            platform,
            platform_id,
        )
    }
}

/// Whether every profile's entry counts exactly the times that subjects list
/// the profile, and a profile that no subject lists has no entry.
pub open spec fn balanced(db: DatabaseView) -> bool {
    forall|platform: Text, platform_id: Text|
        #![trigger references_of(db.queue, platform, platform_id)]
        references_of(db.queue, platform, platform_id) == occurrences(
            db.subjects,
            platform,
            platform_id,
        )
}

/// One more subject lists what the others list and what it lists itself.
pub proof fn lemma_occurrences_push(
    subjects: Seq<SubjectView>,
    subject: SubjectView,
    platform: Text,
    platform_id: Text,
)
    ensures
        occurrences(subjects.push(subject), platform, platform_id) == occurrences(
            subjects,
            platform,
            platform_id,
        ) + count_pair(profile_pairs(subject.profiles), platform, platform_id),
{
    assert(subjects.push(subject).drop_last() =~= subjects);
}

/// With one subject changed, the subjects list what they listed, less what
/// the subject listed before, and what it lists now.
pub proof fn lemma_occurrences_update(
    subjects: Seq<SubjectView>,
    i: int,
    changed: SubjectView,
    platform: Text,
    platform_id: Text,
)
    requires
        0 <= i < subjects.len(),
    ensures
        occurrences(subjects.update(i, changed), platform, platform_id) == occurrences(
            subjects,
            platform,
            platform_id,
        ) - count_pair(profile_pairs(subjects[i].profiles), platform, platform_id) + count_pair(
            profile_pairs(changed.profiles),
            platform,
            platform_id,
        ),
    decreases subjects.len(),
{
    let after = subjects.update(i, changed);
    if i == subjects.len() - 1 {
        assert(after.drop_last() =~= subjects.drop_last());
    } else {
        assert(after.drop_last() =~= subjects.drop_last().update(i, changed));
        lemma_occurrences_update(subjects.drop_last(), i, changed, platform, platform_id);
    }
}

/// Without one subject, the subjects list what they listed, less what that
/// subject listed.
pub proof fn lemma_occurrences_remove(
    subjects: Seq<SubjectView>,
    i: int,
    platform: Text,
    platform_id: Text,
)
    requires
        0 <= i < subjects.len(),
    ensures
        occurrences(subjects.remove(i), platform, platform_id) == occurrences(
            subjects,
            platform,
            platform_id,
        ) - count_pair(profile_pairs(subjects[i].profiles), platform, platform_id),
    decreases subjects.len(),
{
    let after = subjects.remove(i);
    if i == subjects.len() - 1 {
        assert(after =~= subjects.drop_last());
    } else {
        assert(after.drop_last() =~= subjects.drop_last().remove(i));
        assert(after.last() == subjects.last());
        lemma_occurrences_remove(subjects.drop_last(), i, platform, platform_id);
    }
}

/// A pair that is not among `pairs` is counted zero times, and one that is
/// at least once.
pub proof fn lemma_count_contains(pairs: Seq<(Text, Text)>, platform: Text, platform_id: Text)
    ensures
        pairs.contains((platform, platform_id)) <==> count_pair(pairs, platform, platform_id) > 0,
    decreases pairs.len(),
{
    if pairs.len() > 0 {
        lemma_count_contains(pairs.drop_last(), platform, platform_id);
        if pairs.last() == (platform, platform_id) {
            assert(pairs[pairs.len() - 1] == (platform, platform_id));
        } else if pairs.contains((platform, platform_id)) {
            let at = choose|at: int| 0 <= at < pairs.len() && pairs[at] == (platform, platform_id);
            assert(pairs.drop_last()[at] == (platform, platform_id));
        } else if pairs.drop_last().contains((platform, platform_id)) {
            let at = choose|at: int|
                0 <= at < pairs.drop_last().len() && pairs.drop_last()[at] == (
                    platform,
                    platform_id,
                );
            assert(pairs[at] == (platform, platform_id));
        }
    }
}

/// Among the pairs that are kept for being absent from `others`, a pair of
/// `others` is counted zero times and every other pair as often as before.
pub proof fn lemma_count_absent(
    pairs: Seq<(Text, Text)>,
    others: Seq<(Text, Text)>,
    platform: Text,
    platform_id: Text,
)
    ensures
        count_pair(pairs.filter(absent_from(others)), platform, platform_id) == if others.contains(
            (platform, platform_id),
        ) {
            0
        } else {
            count_pair(pairs, platform, platform_id)
        },
    decreases pairs.len(),
{
    reveal(Seq::filter);
    if pairs.len() > 0 {
        lemma_count_absent(pairs.drop_last(), others, platform, platform_id);
        let kept = pairs.drop_last().filter(absent_from(others));
        if absent_from(others)(pairs.last()) {
            assert(kept.push(pairs.last()).drop_last() =~= kept);
        }
    }
}

/// Making a subject keeps the balance.
pub proof fn lemma_create_keeps_balance(
    db: DatabaseView,
    config: crate::config::ConfigView,
    subject: SubjectView,
    queue_ids: Seq<Text>,
)
    requires
        db.wf(),
        balanced(db),
        create_refusal(db, config, subject, queue_ids) is None,
    ensures
        balanced(subject_created(db, subject, queue_ids)),
        forall|platform: Text, platform_id: Text|
            #![trigger references_of(subject_created(db, subject, queue_ids).queue, platform, platform_id)]
            references_of(subject_created(db, subject, queue_ids).queue, platform, platform_id)
                == references_of(db.queue, platform, platform_id) + count_pair(
                profile_pairs(subject.profiles),
                platform,
                platform_id,
            ),
{
    let after = subject_created(db, subject, queue_ids);
    let pairs = profile_pairs(subject.profiles);
    lemma_queue_add_all(db.queue, pairs, queue_ids);
    assert forall|platform: Text, platform_id: Text|
        #![trigger references_of(after.queue, platform, platform_id)]
        references_of(after.queue, platform, platform_id) == references_of(
            db.queue,
            platform,
            platform_id,
        ) + count_pair(pairs, platform, platform_id) by {
        assert(references_of(db.queue, platform, platform_id) + count_pair(
            pairs,
            platform,
            platform_id,
        ) <= u64::MAX);
    }
    assert forall|platform: Text, platform_id: Text|
        #![trigger references_of(after.queue, platform, platform_id)]
        references_of(after.queue, platform, platform_id) == occurrences(
            after.subjects,
            platform,
            platform_id,
        ) by {
        lemma_occurrences_push(db.subjects, subject, platform, platform_id);
        assert(references_of(db.queue, platform, platform_id) == occurrences(
            db.subjects,
            platform,
            platform_id,
        ));
    }
}

/// Dropping a subject keeps the balance.
pub proof fn lemma_delete_keeps_balance(db: DatabaseView, i: int)
    requires
        db.wf(),
        balanced(db),
        0 <= i < db.subjects.len(),
    ensures
        balanced(subject_deleted(db, i)),
{
    let after = subject_deleted(db, i);
    let pairs = profile_pairs(db.subjects[i].profiles);
    lemma_queue_remove_all(db.queue, pairs);
    assert forall|platform: Text, platform_id: Text|
        #![trigger references_of(after.queue, platform, platform_id)]
        references_of(after.queue, platform, platform_id) == occurrences(
            after.subjects,
            platform,
            platform_id,
        ) by {
        lemma_occurrences_remove(db.subjects, i, platform, platform_id);
        assert(references_of(db.queue, platform, platform_id) == occurrences(
            db.subjects,
            platform,
            platform_id,
        ));
    }
}

/// Whether every profile that a subject lists both before and after a change
/// is listed as often after it as before.
pub open spec fn same_multiplicity(before: Seq<(Text, Text)>, after: Seq<(Text, Text)>) -> bool {
    forall|platform: Text, platform_id: Text|
        #![trigger count_pair(before, platform, platform_id)]
        before.contains((platform, platform_id)) && after.contains((platform, platform_id))
            ==> count_pair(before, platform, platform_id) == count_pair(
            after,
            platform,
            platform_id,
        )
}

/// Changing a subject keeps the balance, where the subject lists each profile
/// that it keeps as often as before. The subject then holds the profiles of
/// the request, a profile that is new to it counts as often more as the
/// request lists it, one that left it as often less as the subject listed
/// it, and every other as before.
pub proof fn lemma_update_keeps_balance(
    db: DatabaseView,
    owner: Text,
    i: int,
    data: UpdateSubjectRequest,
    queue_ids: Seq<Text>,
)
    requires
        db.wf(),
        balanced(db),
        first_where(db.subjects, subject_owned(data.uuid@, owner)) == Some(i),
        crate::routes::subjects::update::update_refusal(db, owner, data, queue_ids) is None,
        same_multiplicity(
            profile_pairs(db.subjects[i].profiles),
            profile_pairs(data.profiles.deep_view()),
        ),
    ensures
        balanced(subject_updated(db, i, data, queue_ids)),
        subject_updated(db, i, data, queue_ids).subjects[i].profiles == data.profiles.deep_view(),
        forall|platform: Text, platform_id: Text|
            #![trigger references_of(subject_updated(db, i, data, queue_ids).queue, platform, platform_id)]
            references_of(subject_updated(db, i, data, queue_ids).queue, platform, platform_id)
                == references_of(db.queue, platform, platform_id) + one_if(
                !profile_pairs(db.subjects[i].profiles).contains((platform, platform_id)),
            ) * count_pair(profile_pairs(data.profiles.deep_view()), platform, platform_id)
                - one_if(
                !profile_pairs(data.profiles.deep_view()).contains((platform, platform_id)),
            ) * count_pair(profile_pairs(db.subjects[i].profiles), platform, platform_id),
{
    lemma_first_where(db.subjects, subject_owned(data.uuid@, owner));
    let after = subject_updated(db, i, data, queue_ids);
    let old_pairs = profile_pairs(db.subjects[i].profiles);
    let new_pairs = profile_pairs(data.profiles.deep_view());
    let added_pairs = new_pairs.filter(absent_from(old_pairs));
    let removed_pairs = old_pairs.filter(absent_from(new_pairs));
    let grown = queue_add_all(db.queue, added_pairs, queue_ids);
    lemma_queue_add_all(db.queue, added_pairs, queue_ids);
    lemma_queue_remove_all(grown, removed_pairs);
    assert forall|platform: Text, platform_id: Text|
        #![trigger references_of(after.queue, platform, platform_id)]
        references_of(after.queue, platform, platform_id) == occurrences(
            after.subjects,
            platform,
            platform_id,
        ) by {
        lemma_occurrences_update(
            db.subjects,
            i,
            crate::routes::subjects::update::changed_subject(db.subjects[i], data),
            platform,
            platform_id,
        );
        lemma_occurrences_at_least(db.subjects, i, platform, platform_id);
        lemma_count_absent(new_pairs, old_pairs, platform, platform_id);
        lemma_count_absent(old_pairs, new_pairs, platform, platform_id);
        lemma_count_contains(old_pairs, platform, platform_id);
        lemma_count_contains(new_pairs, platform, platform_id);
        assert(references_of(db.queue, platform, platform_id) == occurrences(
            db.subjects,
            platform,
            platform_id,
        ));
        assert(references_of(grown, platform, platform_id) == references_of(
            db.queue,
            platform,
            platform_id,
        ) + count_pair(added_pairs, platform, platform_id));
    }
    assert forall|platform: Text, platform_id: Text|
        #![trigger references_of(after.queue, platform, platform_id)]
        references_of(after.queue, platform, platform_id) == references_of(
            db.queue,
            platform,
            platform_id,
        ) + one_if(!old_pairs.contains((platform, platform_id))) * count_pair(
            new_pairs,
            platform,
            platform_id,
        ) - one_if(!new_pairs.contains((platform, platform_id))) * count_pair(
            old_pairs,
            platform,
            platform_id,
        ) by {
        lemma_occurrences_at_least(db.subjects, i, platform, platform_id);
        lemma_count_absent(new_pairs, old_pairs, platform, platform_id);
        lemma_count_absent(old_pairs, new_pairs, platform, platform_id);
        lemma_count_contains(old_pairs, platform, platform_id);
        lemma_count_contains(new_pairs, platform, platform_id);
        assert(references_of(db.queue, platform, platform_id) == occurrences(
            db.subjects,
            platform,
            platform_id,
        ));
        assert(references_of(grown, platform, platform_id) == references_of(
            db.queue,
            platform,
            platform_id,
        ) + count_pair(added_pairs, platform, platform_id));
    }
}

/// The subjects list a profile at least as often as any one of them does.
pub proof fn lemma_occurrences_at_least(
    subjects: Seq<SubjectView>,
    i: int,
    platform: Text,
    platform_id: Text,
)
    requires
        0 <= i < subjects.len(),
    ensures
        occurrences(subjects, platform, platform_id) >= count_pair(
            profile_pairs(subjects[i].profiles),
            platform,
            platform_id,
        ),
    decreases subjects.len(),
{
    if i < subjects.len() - 1 {
        lemma_occurrences_at_least(subjects.drop_last(), i, platform, platform_id);
    }
}

/// Making a subject and dropping it again leaves every profile's count what
/// it was: the new subject is the one that its owner then drops by its
/// identifier, and what the dropping takes from the queue is what the making
/// gave.
pub proof fn lemma_create_then_delete(
    db: DatabaseView,
    config: crate::config::ConfigView,
    subject: SubjectView,
    queue_ids: Seq<Text>,
)
    requires
        db.wf(),
        create_refusal(db, config, subject, queue_ids) is None,
    ensures
        ({
            let made = subject_created(db, subject, queue_ids);
            let dropped = subject_deleted(made, db.subjects.len() as int);
            &&& first_where(made.subjects, subject_owned(subject.uuid, subject.created_by)) == Some(
                db.subjects.len() as int,
            )
            &&& dropped.subjects == db.subjects
            &&& forall|platform: Text, platform_id: Text|
                #![trigger references_of(dropped.queue, platform, platform_id)]
                references_of(dropped.queue, platform, platform_id) == references_of(
                    db.queue,
                    platform,
                    platform_id,
                )
        }),
{
    let made = subject_created(db, subject, queue_ids);
    let last = db.subjects.len() as int;
    let dropped = subject_deleted(made, last);
    let pairs = profile_pairs(subject.profiles);
    let owned = subject_owned(subject.uuid, subject.created_by);
    assert forall|j: int| 0 <= j < last implies !owned(#[trigger] made.subjects[j]) by {
        assert(made.subjects[j] == db.subjects[j]);
        assert(!subject_with_uuid(subject.uuid)(db.subjects[j]));
    }
    assert(made.subjects[last] == subject);
    lemma_first_where_is(made.subjects, owned, last);
    assert(dropped.subjects =~= db.subjects);
    lemma_queue_add_all(db.queue, pairs, queue_ids);
    lemma_queue_remove_all(made.queue, pairs);
    assert forall|platform: Text, platform_id: Text|
        #![trigger references_of(dropped.queue, platform, platform_id)]
        references_of(dropped.queue, platform, platform_id) == references_of(
            db.queue,
            platform,
            platform_id,
        ) by {
        assert(references_of(made.queue, platform, platform_id) == references_of(
            db.queue,
            platform,
            platform_id,
        ) + count_pair(pairs, platform, platform_id));
    }
}

/// Leases do not touch the balance: taking one, handing one back and sweeping
/// those that timed out each leave every profile's count and every subject
/// as they were.
pub proof fn lemma_leases_keep_balance(
    db: DatabaseView,
    platforms: Seq<Text>,
    queue_id: Text,
    holder: Text,
    now: i64,
    cutoff: int,
)
    requires
        db.wf(),
        balanced(db),
    ensures
        balanced(
            DatabaseView {
                queue: crate::routes::queue::queue_lease(db.queue, platforms, holder, now),
                ..db
            },
        ),
        balanced(
            DatabaseView {
                queue: crate::routes::queue::queue_release(db.queue, queue_id, holder, now),
                ..db
            },
        ),
        balanced(
            DatabaseView {
                queue: db.queue.map_values(crate::routes::queue::swept(cutoff)),
                ..db
            },
        ),
{
    crate::routes::queue::lemma_queue_lease_keeps(db.queue, platforms, holder, now);
    crate::routes::queue::lemma_queue_release_keeps(db.queue, queue_id, holder, now);
    crate::routes::queue::lemma_queue_sweep_keeps(db.queue, cutoff);
    let leased = crate::routes::queue::queue_lease(db.queue, platforms, holder, now);
    let released = crate::routes::queue::queue_release(db.queue, queue_id, holder, now);
    let swept = db.queue.map_values(crate::routes::queue::swept(cutoff));
    assert forall|platform: Text, platform_id: Text|
        #![trigger references_of(leased, platform, platform_id)]
        references_of(leased, platform, platform_id) == occurrences(
            db.subjects,
            platform,
            platform_id,
        ) by {
        assert(references_of(db.queue, platform, platform_id) == occurrences(
            db.subjects,
            platform,
            platform_id,
        ));
    }
    assert forall|platform: Text, platform_id: Text|
        #![trigger references_of(released, platform, platform_id)]
        references_of(released, platform, platform_id) == occurrences(
            db.subjects,
            platform,
            platform_id,
        ) by {
        assert(references_of(db.queue, platform, platform_id) == occurrences(
            db.subjects,
            platform,
            platform_id,
        ));
    }
    assert forall|platform: Text, platform_id: Text|
        #![trigger references_of(swept, platform, platform_id)]
        references_of(swept, platform, platform_id) == occurrences(
            db.subjects,
            platform,
            platform_id,
        ) by {
        assert(references_of(db.queue, platform, platform_id) == occurrences(
            db.subjects,
            platform,
            platform_id,
        ));
    }
}

/// A state without subjects and without entries is in balance.
pub proof fn lemma_empty_balanced(db: DatabaseView)
    requires
        db.subjects.len() == 0,
        db.queue.len() == 0,
    ensures
        balanced(db),
{
    assert forall|platform: Text, platform_id: Text|
        #![trigger references_of(db.queue, platform, platform_id)]
        references_of(db.queue, platform, platform_id) == occurrences(
            db.subjects,
            platform,
            platform_id,
        ) by {
        lemma_first_where(db.queue, for_profile(platform, platform_id));
    }
}

/// Whether a subject with the profiles `profiles` watches `username` on
/// `platform`: `username` is among the identifiers that it lists for the
/// platform.
pub open spec fn watches(profiles: ProfilesView, platform: Text, username: Text) -> bool {
    match first_where(profiles, on_platform(platform)) {
        Some(k) => profiles[k].1.contains(username),
        None => false,
    }
}

/// The number of `subjects` that watch `username` on `platform`.
pub open spec fn watchers(subjects: Seq<SubjectView>, platform: Text, username: Text) -> nat
    decreases subjects.len(),
{
    if subjects.len() == 0 {
        0
    } else {
        watchers(subjects.drop_last(), platform, username) + if watches(
            subjects.last().profiles,
            platform,
            username,
        ) {
            1nat
        } else {
            0nat
        }
    }
}

/// One for a true condition and zero for a false one.
pub open spec fn one_if(condition: bool) -> int {
    if condition {
        1
    } else {
        0
    }
}

/// What two lists hold together is counted as often as in both.
pub proof fn lemma_count_concat(
    first: Seq<(Text, Text)>,
    second: Seq<(Text, Text)>,
    platform: Text,
    platform_id: Text,
)
    ensures
        count_pair(first + second, platform, platform_id) == count_pair(
            first,
            platform,
            platform_id,
        ) + count_pair(second, platform, platform_id),
    decreases second.len(),
{
    if second.len() == 0 {
        assert(first + second =~= first);
    } else {
        assert((first + second).drop_last() =~= first + second.drop_last());
        lemma_count_concat(first, second.drop_last(), platform, platform_id);
    }
}

/// With one pair replaced, a pair is counted once less where it was the one
/// replaced and once more where it is the one put in.
pub proof fn lemma_count_update(
    pairs: Seq<(Text, Text)>,
    i: int,
    put: (Text, Text),
    platform: Text,
    platform_id: Text,
)
    requires
        0 <= i < pairs.len(),
    ensures
        count_pair(pairs.update(i, put), platform, platform_id) == count_pair(
            pairs,
            platform,
            platform_id,
        ) - one_if(pairs[i] == (platform, platform_id)) + one_if(put == (platform, platform_id)),
    decreases pairs.len(),
{
    let after = pairs.update(i, put);
    if i == pairs.len() - 1 {
        assert(after.drop_last() =~= pairs.drop_last());
    } else {
        assert(after.drop_last() =~= pairs.drop_last().update(i, put));
        lemma_count_update(pairs.drop_last(), i, put, platform, platform_id);
    }
}

/// With the identifiers of one platform replaced, a subject lists what it
/// listed, less what it listed for that platform, and what it lists for it
/// now.
pub proof fn lemma_count_profiles_update(
    profiles: ProfilesView,
    k: int,
    ids: Seq<Text>,
    platform: Text,
    platform_id: Text,
)
    requires
        0 <= k < profiles.len(),
    ensures
        count_pair(
            profile_pairs(profiles.update(k, (profiles[k].0, ids))),
            platform,
            platform_id,
        ) == count_pair(profile_pairs(profiles), platform, platform_id) - count_pair(
            pairs_of(profiles[k].0, profiles[k].1),
            platform,
            platform_id,
        ) + count_pair(pairs_of(profiles[k].0, ids), platform, platform_id),
    decreases profiles.len(),
{
    let after = profiles.update(k, (profiles[k].0, ids));
    let rest = profiles.drop_last();
    lemma_count_concat(
        profile_pairs(rest),
        pairs_of(profiles.last().0, profiles.last().1),
        platform,
        platform_id,
    );
    if k == profiles.len() - 1 {
        assert(after.drop_last() =~= rest);
        lemma_count_concat(
            profile_pairs(rest),
            pairs_of(profiles[k].0, ids),
            platform,
            platform_id,
        );
    } else {
        assert(after.drop_last() =~= rest.update(k, (profiles[k].0, ids)));
        assert(after.last() == profiles.last());
        lemma_count_profiles_update(rest, k, ids, platform, platform_id);
        lemma_count_concat(
            profile_pairs(after.drop_last()),
            pairs_of(profiles.last().0, profiles.last().1),
            platform,
            platform_id,
        );
    }
}

/// A subject that is rebound lists the identifier once more and the username
/// once less where it watched the username, and lists what it listed where
/// it did not.
pub proof fn lemma_count_rebound(
    profiles: ProfilesView,
    platform: Text,
    username: Text,
    new_id: Text,
    on: Text,
    platform_id: Text,
)
    ensures
        count_pair(
            profile_pairs(rebind_profiles(profiles, platform, username, new_id)),
            on,
            platform_id,
        ) == count_pair(profile_pairs(profiles), on, platform_id) - one_if(
            watches(profiles, platform, username) && (on, platform_id) == (platform, username),
        ) + one_if(
            watches(profiles, platform, username) && (on, platform_id) == (platform, new_id),
        ),
{
    lemma_first_where(profiles, on_platform(platform));
    match first_where(profiles, on_platform(platform)) {
        Some(k) => {
            let ids = profiles[k].1;
            let changed = replace_first(ids, username, new_id);
            lemma_count_profiles_update(profiles, k, changed, on, platform_id);
            lemma_first_where(ids, is_text(username));
            match first_where(ids, is_text(username)) {
                Some(i) => {
                    assert(ids[i] == username);
                    assert(ids.contains(username));
                    assert(pairs_of(platform, changed) =~= pairs_of(platform, ids).update(
                        i,
                        (platform, new_id),
                    ));
                    lemma_count_update(
                        pairs_of(platform, ids),
                        i,
                        (platform, new_id),
                        on,
                        platform_id,
                    );
                    assert(pairs_of(platform, ids)[i] == (platform, username));
                },
                None => {
                    if ids.contains(username) {
                        let at = choose|at: int| 0 <= at < ids.len() && ids[at] == username;
                        assert(is_text(username)(ids[at]));
                    }
                    assert(changed == ids);
                },
            }
        },
        None => {},
    }
}

/// After a rebinding, the subjects list the identifier as often more, and
/// the username as often less, as there are subjects that watched the
/// username.
pub proof fn lemma_occurrences_rebound(
    subjects: Seq<SubjectView>,
    platform: Text,
    username: Text,
    new_id: Text,
    on: Text,
    platform_id: Text,
)
    ensures
        occurrences(subjects.map_values(rebound(platform, username, new_id)), on, platform_id)
            == occurrences(subjects, on, platform_id) - watchers(subjects, platform, username)
            * one_if((on, platform_id) == (platform, username)) + watchers(
            subjects,
            platform,
            username,
        ) * one_if((on, platform_id) == (platform, new_id)),
    decreases subjects.len(),
{
    let moved = rebound(platform, username, new_id);
    let after = subjects.map_values(moved);
    if subjects.len() > 0 {
        assert(after.drop_last() =~= subjects.drop_last().map_values(moved));
        assert(after.last() == moved(subjects.last()));
        lemma_occurrences_rebound(
            subjects.drop_last(),
            platform,
            username,
            new_id,
            on,
            platform_id,
        );
        lemma_count_rebound(subjects.last().profiles, platform, username, new_id, on, platform_id);
    }
}

/// Settling a lease keeps the balance: always where the lease is handed
/// back or not settled, and, where it rebinds a username, if exactly one
/// subject watches the username.
pub proof fn lemma_process_keeps_balance(
    db: DatabaseView,
    queue_id: Text,
    platform_id: Text,
    platform: Text,
    holder: Text,
    username: Option<Text>,
    now: i64,
    fresh_queue_id: Option<Text>,
)
    requires
        db.wf(),
        balanced(db),
        crate::routes::queue::rebinds(db.queue, queue_id, platform, username, holder) ==> watchers(
            db.subjects,
            platform,
            username.unwrap(),
        ) == 1,
    ensures
        balanced(
            crate::routes::queue::processed(
                db,
                queue_id,
                platform_id,
                platform,
                holder,
                username,
                now,
                fresh_queue_id,
            ),
        ),
{
    let after = crate::routes::queue::processed(
        db,
        queue_id,
        platform_id,
        platform,
        holder,
        username,
        now,
        fresh_queue_id,
    );
    if !crate::routes::queue::process_succeeds(
        db.queue,
        queue_id,
        platform_id,
        platform,
        username,
        holder,
        fresh_queue_id,
    ) {
    } else if crate::routes::queue::rebinds(db.queue, queue_id, platform, username, holder) {
        let name = username.unwrap();
        let shrunk = crate::routes::queue::queue_remove(db.queue, platform, name);
        let new_id = crate::routes::queue::at_hand(fresh_queue_id);
        crate::routes::queue::lemma_queue_remove(db.queue, platform, name);
        assert(crate::routes::queue::can_add(shrunk, platform, platform_id, new_id));
        crate::routes::queue::lemma_queue_add(shrunk, platform, platform_id, true, new_id);
        let wanted = crate::routes::queue::awaiting_identifier(queue_id, platform, name, holder);
        lemma_first_where(db.queue, wanted);
        let at = first_where(db.queue, wanted).unwrap();
        assert(for_profile(platform, name)(db.queue[at]));
        lemma_first_where(db.queue, for_profile(platform, name));
        assert(references_of(db.queue, platform, name) >= 1);
        assert forall|on: Text, id: Text| #![trigger references_of(after.queue, on, id)]
            references_of(after.queue, on, id) == occurrences(after.subjects, on, id) by {
            lemma_occurrences_rebound(db.subjects, platform, name, platform_id, on, id);
            assert(references_of(db.queue, on, id) == occurrences(db.subjects, on, id));
            assert(references_of(shrunk, on, id) == if on == platform && id == name {
                capped(references_of(db.queue, on, id) as int - 1)
            } else {
                references_of(db.queue, on, id)
            });
            lemma_first_where(db.queue, for_profile(on, id));
        }
    } else {
        crate::routes::queue::lemma_queue_release_keeps(db.queue, queue_id, holder, now);
        assert forall|on: Text, id: Text| #![trigger references_of(after.queue, on, id)]
            references_of(after.queue, on, id) == occurrences(after.subjects, on, id) by {
            assert(references_of(db.queue, on, id) == occurrences(db.subjects, on, id));
        }
    }
}

/// A rebinding is made where the identifier at hand is fresh and the
/// identifier's entry, if it has one, can count one more; and it moves one
/// reference from the username to the identifier behind it: the username
/// counts one less, the identifier one more, and every other profile as
/// before.
pub proof fn lemma_rebinding_moves_reference(
    db: DatabaseView,
    queue_id: Text,
    platform_id: Text,
    platform: Text,
    holder: Text,
    username: Text,
    now: i64,
    fresh_queue_id: Text,
)
    requires
        db.wf(),
        crate::routes::queue::rebinds(db.queue, queue_id, platform, Some(username), holder),
        username != platform_id,
        !crate::utils::search::any_where(db.queue, crate::routes::queue::going_by(fresh_queue_id)),
        references_of(db.queue, platform, platform_id) < u64::MAX,
    ensures
        crate::routes::queue::process_succeeds(
            db.queue,
            queue_id,
            platform_id,
            platform,
            Some(username),
            holder,
            Some(fresh_queue_id),
        ),
        ({
            let after = crate::routes::queue::processed(
                db,
                queue_id,
                platform_id,
                platform,
                holder,
                Some(username),
                now,
                Some(fresh_queue_id),
            );
            &&& after.subjects == db.subjects.map_values(rebound(platform, username, platform_id))
            &&& forall|on: Text, id: Text| #![trigger references_of(after.queue, on, id)]
                references_of(after.queue, on, id) == references_of(db.queue, on, id) - one_if(
                    (on, id) == (platform, username),
                ) + one_if((on, id) == (platform, platform_id))
        }),
{
    let shrunk = crate::routes::queue::queue_remove(db.queue, platform, username);
    crate::routes::queue::lemma_queue_remove(db.queue, platform, username);
    lemma_first_where(shrunk, for_profile(platform, platform_id));
    lemma_first_where(db.queue, for_profile(platform, platform_id));
    assert(references_of(shrunk, platform, platform_id) == references_of(
        db.queue,
        platform,
        platform_id,
    ));
    assert(crate::routes::queue::can_add(shrunk, platform, platform_id, fresh_queue_id));
    crate::routes::queue::lemma_queue_add(shrunk, platform, platform_id, true, fresh_queue_id);
    let wanted = crate::routes::queue::awaiting_identifier(queue_id, platform, username, holder);
    lemma_first_where(db.queue, wanted);
    let at = first_where(db.queue, wanted).unwrap();
    assert(for_profile(platform, username)(db.queue[at]));
    lemma_first_where(db.queue, for_profile(platform, username));
    assert(references_of(db.queue, platform, username) >= 1);
    let after = crate::routes::queue::processed(
        db,
        queue_id,
        platform_id,
        platform,
        holder,
        Some(username),
        now,
        Some(fresh_queue_id),
    );
    assert forall|on: Text, id: Text| #![trigger references_of(after.queue, on, id)]
        references_of(after.queue, on, id) == references_of(db.queue, on, id) - one_if(
            (on, id) == (platform, username),
        ) + one_if((on, id) == (platform, platform_id)) by {
        assert(references_of(shrunk, on, id) == if on == platform && id == username {
            crate::routes::queue::capped(references_of(db.queue, on, id) as int - 1)
        } else {
            references_of(db.queue, on, id)
        });
    }
}

/// Accepting a submission keeps the balance: storing records touches neither
/// subjects nor counts, and the lease is settled as
/// [`lemma_process_keeps_balance`] describes, under its conditions.
pub proof fn lemma_add_keeps_balance(
    db: DatabaseView,
    config: crate::config::ConfigView,
    operator: Text,
    batch: crate::concepts::data::DatasView,
    now: i64,
    fresh_queue_id: Option<Text>,
)
    requires
        db.wf(),
        balanced(db),
        batch.queue_id matches Some(queue_id) ==> ({
            let kept = crate::routes::add::surviving(
                batch,
                config,
                crate::routes::add::named_lease(db, batch, operator),
                operator,
                now,
            ).info();
            crate::routes::queue::rebinds(
                db.queue,
                queue_id,
                kept.platform,
                kept.username,
                kept.added_by,
            ) ==> watchers(db.subjects, kept.platform, kept.username.unwrap()) == 1
        }),
    ensures
        balanced(crate::routes::add::added(db, config, operator, batch, now, fresh_queue_id)),
{
    let after = crate::routes::add::added(db, config, operator, batch, now, fresh_queue_id);
    match batch.queue_id {
        Some(queue_id) => {
            let kept = crate::routes::add::surviving(
                batch,
                config,
                crate::routes::add::named_lease(db, batch, operator),
                operator,
                now,
            ).info();
            lemma_process_keeps_balance(
                db,
                queue_id,
                kept.platform_id,
                kept.platform,
                kept.added_by,
                kept.username,
                now,
                fresh_queue_id,
            );
            let settled = crate::routes::queue::processed(
                db,
                queue_id,
                kept.platform_id,
                kept.platform,
                kept.added_by,
                kept.username,
                now,
                fresh_queue_id,
            );
            assert forall|on: Text, id: Text| #![trigger references_of(after.queue, on, id)]
                references_of(after.queue, on, id) == occurrences(after.subjects, on, id) by {
                assert(references_of(settled.queue, on, id) == occurrences(
                    settled.subjects,
                    on,
                    id,
                ));
            }
        },
        None => {
            assert forall|on: Text, id: Text| #![trigger references_of(after.queue, on, id)]
                references_of(after.queue, on, id) == occurrences(after.subjects, on, id) by {
                assert(references_of(db.queue, on, id) == occurrences(db.subjects, on, id));
            }
        },
    }
}

} // verus!
