//! Submitting records.
//!
//! A submission is attributed to its operator, filtered by the configuration
//! and, where it names a lease, by the lease. What is left is stored, and the
//! lease is settled in the same step. A submission of which nothing is left
//! changes nothing.

use vstd::prelude::*;

use crate::concepts::data::{accepted_by, fitting, stamped, Datas, DatasView};
use crate::concepts::user::User;
use crate::config::{ConfigView, IConfig};
use crate::database::{is_operator, Database, DatabaseView};
use crate::routes::queue::{
    find_lease, leased_as, process_at, process_succeeds, processed, InternalQueueItem,
    QueueItemView,
};
use crate::routes::response::{refusal, OkResponse, Refusal, StatusCode};
use crate::utils::clock::now;
use crate::utils::random::new_uuid;
use crate::utils::search::{first_item_where, lemma_first_where};
use crate::utils::text::{lemma_deep_view_append, Text};

verus! {

/// The explanation given where nothing is left of a submission.
pub open spec fn nothing_valid() -> Text {
    "No valid data was submitted. Ensure the given platforms and content/presence types are supported by this server. Ensure all data was correctly labeled for queue jobs."@
}

/// What is left of the records of `batch`, submitted by `operator` at `now`
/// under `lease`, in their order.
pub open spec fn surviving(
    batch: DatasView,
    config: ConfigView,
    lease: Option<QueueItemView>,
    operator: Text,
    now: i64,
) -> DatasView {
    let verified = batch.tagged(operator, now).verify_for_config(config);
    match lease {
        Some(lease) => verified.verify_for_queue(lease),
        None => verified,
    }
}

/// The lease that a submission names, if it names one and the operator holds
/// it.
pub open spec fn named_lease(db: DatabaseView, batch: DatasView, operator: Text) -> Option<
    QueueItemView,
> {
    match batch.queue_id {
        Some(queue_id) => first_item_where(db.queue, leased_as(queue_id, operator)),
        None => None,
    }
}

/// Why a submission is refused, if it is: the status and the explanation.
pub open spec fn add_refusal(
    db: DatabaseView,
    config: ConfigView,
    operator: Text,
    batch: DatasView,
    now: i64,
    fresh_queue_id: Option<Text>,
) -> Option<(StatusCode, Text)> {
    if !is_operator(db.users, operator) {
        Some((StatusCode::UNAUTHORIZED, "Unauthorised."@))
    } else if batch.data.len() == 0 {
        Some((StatusCode::BAD_REQUEST, "No data was submitted."@))
    } else if batch.queue_id is Some && named_lease(db, batch, operator) is None {
        Some((StatusCode::BAD_REQUEST, "Invalid queue ID."@))
    } else if surviving(batch, config, named_lease(db, batch, operator), operator, now).data.len()
        == 0 {
        Some((StatusCode::BAD_REQUEST, nothing_valid()))
    } else if batch.queue_id is Some && !settles(db, config, operator, batch, now, fresh_queue_id) {
        Some((StatusCode::BAD_REQUEST, nothing_valid()))
    } else {
        None
    }
}

/// Whether the lease that a submission names is settled with what is left of
/// the submission.
pub open spec fn settles(
    db: DatabaseView,
    config: ConfigView,
    operator: Text,
    batch: DatasView,
    now: i64,
    fresh_queue_id: Option<Text>,
) -> bool {
    let kept = surviving(batch, config, named_lease(db, batch, operator), operator, now).info();
    process_succeeds(
        db.queue,
        batch.queue_id.unwrap(),
        kept.platform_id,
        kept.platform,
        kept.username,
        kept.added_by,
        fresh_queue_id,
    )
}

/// The state after a submission was accepted: its lease, if it names one, is
/// settled, and what is left of its records is stored after the records that
/// were there.
pub open spec fn added(
    db: DatabaseView,
    config: ConfigView,
    operator: Text,
    batch: DatasView,
    now: i64,
    fresh_queue_id: Option<Text>,
) -> DatabaseView {
    let kept = surviving(batch, config, named_lease(db, batch, operator), operator, now);
    let settled = match batch.queue_id {
        Some(queue_id) => processed(
            db,
            queue_id,
            kept.info().platform_id,
            kept.info().platform,
            kept.info().added_by,
            kept.info().username,
            now,
            fresh_queue_id,
        ),
        None => db,
    };
    DatabaseView { data: settled.data + kept.data, ..settled }
}

/// A copy of the entry that goes by `queue_id`, if `user` holds a lease on
/// it.
pub fn get_queue_item(queue_id: &str, user: &User, db: &Database) -> (lease: Option<
    InternalQueueItem,
>)
    ensures
        lease.deep_view() == first_item_where(db@.queue, leased_as(queue_id@, user@.uuid)),
{
    match find_lease(&db.queue, queue_id, user.uuid.as_str()) {
        Some(i) => {
            assert(db@.queue[i as int] == db.queue[i as int]@);
            Some(db.queue[i].clone())
        },
        None => None,
    }
}

/// Every record that is left of a submission is attributed to its operator at
/// the instant of the submission.
pub proof fn lemma_surviving_attributed(
    batch: DatasView,
    config: ConfigView,
    lease: Option<QueueItemView>,
    operator: Text,
    now: i64,
)
    ensures
        forall|i: int|
            0 <= i < surviving(batch, config, lease, operator, now).data.len() ==> {
                &&& (#[trigger] surviving(batch, config, lease, operator, now).data[i]).added_by()
                    == Some(operator)
                &&& surviving(batch, config, lease, operator, now).data[i].added_at() == Some(now)
            },
{
    let tagged = batch.tagged(operator, now).data;
    let verified = tagged.filter(accepted_by(config));
    let kept = surviving(batch, config, lease, operator, now).data;
    assert forall|i: int| 0 <= i < kept.len() implies {
        &&& (#[trigger] kept[i]).added_by() == Some(operator)
        &&& kept[i].added_at() == Some(now)
    } by {
        let record = kept[i];
        assert(kept.contains(record));
        if lease is Some {
            verified.lemma_filter_contains_rev(fitting(lease.unwrap()), record);
        }
        assert(verified.contains(record));
        tagged.lemma_filter_contains_rev(accepted_by(config), record);
        let at = choose|at: int| 0 <= at < tagged.len() && tagged[at] == record;
        assert(tagged[at] == stamped(operator, now)(batch.data[at]));
    }
}

/// Accepts, at the instant `now`, the records that `user` submits, under the
/// lease that the submission names or under none.
///
/// Every record is attributed to `user`. Records that the configuration does
/// not accept are dropped, and so are records that do not fit the lease. What
/// is left is stored, and the lease is settled: handed back, or, where the
/// records name the identifier behind a username, rebound to it (a new entry
/// gets the identifier `fresh_queue_id`).
///
/// The submission is refused as a bad request, too, where the lease cannot be
/// settled: where a rebinding is to make an entry and no identifier is at
/// hand, or an entry goes by it already.
///
/// Refused, with nothing changed: a submission by an operator who is not
/// registered (unauthorised); without records, under a lease that `user` does
/// not hold, or of which nothing is left (bad request).
pub fn add_at(
    user: &User,
    db: &mut Database,
    config: &IConfig,
    datas: Datas,
    now: i64,
    fresh_queue_id: Option<String>,
) -> (answer: Result<(StatusCode, OkResponse), Refusal>)
    requires
        config@.wf(),
        old(db)@.wf(),
    ensures
        final(db)@.wf(),
        match answer {
            Ok((status, body)) => {
                &&& add_refusal(
                    old(db)@,
                    config@,
                    user@.uuid,
                    datas@,
                    now,
                    fresh_queue_id.deep_view(),
                ) is None
                &&& status == StatusCode::CREATED
                &&& body.response@ == "OK"@
                &&& final(db)@ == added(
                    old(db)@,
                    config@,
                    user@.uuid,
                    datas@,
                    now,
                    fresh_queue_id.deep_view(),
                )
            },
            Err((status, body)) => {
                &&& add_refusal(
                    old(db)@,
                    config@,
                    user@.uuid,
                    datas@,
                    now,
                    fresh_queue_id.deep_view(),
                ) == Some((status, body.text@))
                &&& body.response@ == "ERROR"@
                &&& final(db)@ == old(db)@
            },
        },
{
    let ghost batch = datas@;
    if !db.is_operator(user.uuid.as_str()) {
        return Err(refusal(StatusCode::UNAUTHORIZED, "Unauthorised."));
    }
    if datas.data.is_empty() {
        return Err(refusal(StatusCode::BAD_REQUEST, "No data was submitted."));
    }
    let lease = match &datas.queue_id {
        Some(queue_id) => {
            match get_queue_item(queue_id.as_str(), user, db) {
                Some(lease) => Some(lease),
                None => {
                    return Err(refusal(StatusCode::BAD_REQUEST, "Invalid queue ID."));
                },
            }
        },
        None => None,
    };
    assert(lease.deep_view() == named_lease(old(db)@, batch, user@.uuid));
    let datas = datas.tag_at(user.uuid.as_str(), now).verify_for_config(config);
    if datas.data.is_empty() {
        proof {
            if lease is Some {
                assert(datas@.data.filter(fitting(lease.unwrap()@)).len() == 0) by {
                    reveal(Seq::filter);
                }
            }
        }
        return Err(
            refusal(
                StatusCode::BAD_REQUEST,
                "No valid data was submitted. Ensure the given platforms and content/presence types are supported by this server. Ensure all data was correctly labeled for queue jobs.",
            ),
        );
    }
    let mut datas = match lease {
        Some(lease) => datas.verify_for_queue(lease),
        None => datas,
    };
    assert(datas@ == surviving(batch, config@, lease.deep_view(), user@.uuid, now));
    if datas.data.is_empty() {
        return Err(
            refusal(
                StatusCode::BAD_REQUEST,
                "No valid data was submitted. Ensure the given platforms and content/presence types are supported by this server. Ensure all data was correctly labeled for queue jobs.",
            ),
        );
    }
    proof {
        lemma_surviving_attributed(batch, config@, lease.deep_view(), user@.uuid, now);
        lemma_authority_kept(datas@);
    }
    if let Some(queue_id) = &datas.queue_id {
        let (platform_id, platform, added_by, username) = datas.info();
        proof {
            lemma_first_where(old(db)@.queue, leased_as(queue_id@, user@.uuid));
        }
        let settled = process_at(
            queue_id.as_str(),
            platform_id.as_str(),
            platform.as_str(),
            added_by.as_str(),
            username,
            db,
            now,
            fresh_queue_id,
        );
        if !settled {
            return Err(
                refusal(
                    StatusCode::BAD_REQUEST,
                    "No valid data was submitted. Ensure the given platforms and content/presence types are supported by this server. Ensure all data was correctly labeled for queue jobs.",
                ),
            );
        }
    }
    let ghost before = db.data;
    let ghost kept = datas.data;
    db.data.append(&mut datas.data);
    proof {
        lemma_deep_view_append(before, kept, db.data);
        assert forall|i: int| 0 <= i < db@.data.len() implies {
            &&& (#[trigger] db@.data[i]).added_at() is Some
            &&& db@.data[i].added_by() matches Some(operator) && is_operator(db@.users, operator)
        } by {
            if i < before.deep_view().len() {
                assert(db@.data[i] == old(db)@.data[i]);
            } else {
                assert(db@.data[i] == kept.deep_view()[i - before.deep_view().len()]);
            }
        }
    }
    Ok((StatusCode::CREATED, OkResponse::new()))
}

/// The record that speaks for a submission is one of its records.
pub proof fn lemma_authority_kept(batch: DatasView)
    requires
        batch.data.len() > 0,
    ensures
        exists|i: int| 0 <= i < batch.data.len() && batch.authority() == #[trigger] batch.data[i],
{
    match crate::concepts::data::first_meta(batch.data) {
        Some(i) => {
            assert(crate::concepts::data::is_first_meta(batch.data, i));
            assert(batch.authority() == batch.data[i]);
        },
        None => {
            assert(batch.authority() == batch.data[0]);
        },
    }
}

/// Accepts, as of the present, the records that `user` submits, under the
/// lease that the submission names or under none. An identifier for a new
/// queue entry is drawn where the submission names a lease; whether the draw
/// succeeds matters only where the lease is rebound and an entry is made.
pub fn add(user: &User, db: &mut Database, config: &IConfig, datas: Datas) -> (answer: Result<
    (StatusCode, OkResponse),
    Refusal,
>)
    requires
        config@.wf(),
        old(db)@.wf(),
    ensures
        final(db)@.wf(),
        answer is Ok ==> {
            &&& answer->Ok_0.0 == StatusCode::CREATED
            &&& answer->Ok_0.1.response@ == "OK"@
            &&& exists|at: i64, fresh_queue_id: Option<Text>|
                {
                    &&& add_refusal(old(db)@, config@, user@.uuid, datas@, at, fresh_queue_id)
                        is None
                    &&& final(db)@ == #[trigger] added(
                        old(db)@,
                        config@,
                        user@.uuid,
                        datas@,
                        at,
                        fresh_queue_id,
                    )
                }
        },
        answer is Err ==> {
            &&& answer->Err_0.1.response@ == "ERROR"@
            &&& final(db)@ == old(db)@
            &&& exists|at: i64, fresh_queue_id: Option<Text>|
                #[trigger] add_refusal(old(db)@, config@, user@.uuid, datas@, at, fresh_queue_id)
                    == Some((answer->Err_0.0, answer->Err_0.1.text@))
        },
{
    let at = now();
    let fresh_queue_id = if datas.queue_id.is_some() {
        match new_uuid() {
            Ok(fresh_queue_id) => Some(fresh_queue_id),
            Err(_) => None,
        }
    } else {
        None
    };
    let ghost minted = fresh_queue_id.deep_view();
    let answer = add_at(user, db, config, datas, at, fresh_queue_id);
    proof {
        if answer is Ok {
            assert(db@ == added(old(db)@, config@, user@.uuid, datas@, at, minted));
        }
        if answer is Err {
            assert(add_refusal(old(db)@, config@, user@.uuid, datas@, at, minted) == Some(
                (answer->Err_0.0, answer->Err_0.1.text@),
            ));
        }
    }
    answer
}

/// Every record that is left of a submission is one that the configuration
/// accepts and, where the submission was made under a lease, one that fits
/// the lease: nothing is stored about a profile that the operator did not
/// lease.
pub proof fn lemma_surviving_verified(
    batch: DatasView,
    config: ConfigView,
    lease: Option<QueueItemView>,
    operator: Text,
    now: i64,
)
    ensures
        forall|i: int|
            0 <= i < surviving(batch, config, lease, operator, now).data.len() ==> {
                &&& (#[trigger] surviving(batch, config, lease, operator, now).data[i]).verified_by(
                    config,
                )
                &&& lease matches Some(lease) ==> surviving(
                    batch,
                    config,
                    Some(lease),
                    operator,
                    now,
                ).data[i].fits_lease(lease)
            },
{
    let tagged = batch.tagged(operator, now).data;
    let verified = tagged.filter(accepted_by(config));
    let kept = surviving(batch, config, lease, operator, now).data;
    assert forall|i: int| 0 <= i < kept.len() implies {
        &&& (#[trigger] kept[i]).verified_by(config)
        &&& lease matches Some(lease) ==> kept[i].fits_lease(lease)
    } by {
        let record = kept[i];
        assert(kept.contains(record));
        match lease {
            Some(lease) => {
                verified.lemma_filter_pred(fitting(lease), i);
                verified.lemma_filter_contains_rev(fitting(lease), record);
                let at = choose|at: int| 0 <= at < verified.len() && verified[at] == record;
                tagged.lemma_filter_pred(accepted_by(config), at);
            },
            None => {
                tagged.lemma_filter_pred(accepted_by(config), i);
            },
        }
    }
}

} // verus!
