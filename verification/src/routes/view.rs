//! What the store holds about subjects: per profile, its metadata and its
//! most recent content and presence.

use vstd::prelude::*;

use crate::concepts::data::{Data, DataView};
use crate::concepts::subject::{Subject, SubjectView};
use crate::concepts::user::User;
use crate::database::Database;
use crate::routes::queue::names_profile;
use crate::routes::response::{refusal, Refusal, StatusCode, ViewResponse};
use crate::utils::search::{
    first_item_where, first_where, lemma_first_where_is, lemma_first_where_none,
};
use crate::utils::text::{
    contains_text, lemma_deep_view_insert, lemma_deep_view_push, lemma_deep_view_take, Text,
};

verus! {

/// The most records of one kind that a view holds of a profile.
pub const VIEW_LIMIT: usize = 100;

#[derive(Debug, PartialEq, Eq)]
pub struct ViewData {
    pub subject_data: Vec<SubjectData>,
}

#[derive(Debug, PartialEq, Eq)]
pub struct SubjectData {
    pub subject: Subject,
    pub platforms: Vec<PlatformData>,
}

#[derive(Debug, PartialEq, Eq)]
pub struct PlatformData {
    pub platform: String,
    pub profiles: Vec<ProfileData>,
}

#[derive(Debug, PartialEq, Eq)]
pub struct ProfileData {
    pub meta: Option<Data>,
    pub content: Vec<Data>,
    pub presence: Vec<Data>,
}

/// The mathematical value of [`ViewData`].
pub struct ViewDataView {
    pub subject_data: Seq<SubjectDataView>,
}

/// The mathematical value of [`SubjectData`].
pub struct SubjectDataView {
    pub subject: SubjectView,
    pub platforms: Seq<PlatformDataView>,
}

/// The mathematical value of [`PlatformData`].
pub struct PlatformDataView {
    pub platform: Text,
    pub profiles: Seq<ProfileDataView>,
}

/// The mathematical value of [`ProfileData`].
pub struct ProfileDataView {
    pub meta: Option<DataView>,
    pub content: Seq<DataView>,
    pub presence: Seq<DataView>,
}

impl View for ProfileData {
    type V = ProfileDataView;

    open spec fn view(&self) -> ProfileDataView {
        ProfileDataView {
            meta: self.meta.deep_view(),
            content: self.content.deep_view(),
            presence: self.presence.deep_view(),
        }
    }
}

impl DeepView for ProfileData {
    type V = ProfileDataView;

    open spec fn deep_view(&self) -> ProfileDataView {
        self@
    }
}

impl View for PlatformData {
    type V = PlatformDataView;

    open spec fn view(&self) -> PlatformDataView {
        PlatformDataView { platform: self.platform@, profiles: self.profiles.deep_view() }
    }
}

impl DeepView for PlatformData {
    type V = PlatformDataView;

    open spec fn deep_view(&self) -> PlatformDataView {
        self@
    }
}

impl View for SubjectData {
    type V = SubjectDataView;

    open spec fn view(&self) -> SubjectDataView {
        SubjectDataView { subject: self.subject@, platforms: self.platforms.deep_view() }
    }
}

impl DeepView for SubjectData {
    type V = SubjectDataView;

    open spec fn deep_view(&self) -> SubjectDataView {
        self@
    }
}

impl View for ViewData {
    type V = ViewDataView;

    open spec fn view(&self) -> ViewDataView {
        ViewDataView { subject_data: self.subject_data.deep_view() }
    }
}

/// The subjects that a view is asked for.
pub struct ViewQuery {
    pub subjects: Vec<String>,
}

/// The condition of being content, or else presence, about the profile
/// `platform_id` on `platform`.
pub open spec fn of_kind(content: bool, platform: Text, platform_id: Text) -> spec_fn(
    DataView,
) -> bool {
    |record: DataView|
        (if content {
            record is Content
        } else {
            record is Presence
        }) && record.platform() == platform && record.id() == platform_id
}

/// The condition of having been retrieved before `at`.
pub open spec fn older_than(at: i64) -> spec_fn(DataView) -> bool {
    |record: DataView| record.retrieved_at() < at
}

/// Where `record` goes among `sorted`: before the first record that was
/// retrieved before it, or at the end.
pub open spec fn place(sorted: Seq<DataView>, record: DataView) -> int {
    match first_where(sorted, older_than(record.retrieved_at())) {
        Some(i) => i,
        None => sorted.len() as int,
    }
}

/// `records` by the instant of their retrieval, the latest first; records of
/// one instant in their order.
pub open spec fn newest_first(records: Seq<DataView>) -> Seq<DataView>
    decreases records.len(),
{
    if records.len() == 0 {
        Seq::empty()
    } else {
        let sorted = newest_first(records.drop_last());
        sorted.insert(place(sorted, records.last()), records.last())
    }
}

/// The latest of the records that meet `wanted`, the latest first, up to the
/// limit of a view.
pub open spec fn recent(data: Seq<DataView>, wanted: spec_fn(DataView) -> bool) -> Seq<DataView> {
    let sorted = newest_first(data.filter(wanted));
    if sorted.len() > VIEW_LIMIT {
        sorted.take(VIEW_LIMIT as int)
    } else {
        sorted
    }
}

/// What the store holds about the profile `platform_id` on `platform`: the
/// first metadata that was stored about it, and its latest content and
/// presence.
pub open spec fn profile_viewed(data: Seq<DataView>, platform: Text, platform_id: Text) -> ProfileDataView {
    ProfileDataView {
        meta: first_item_where(data, names_profile(platform, platform_id)),
        content: recent(data, of_kind(true, platform, platform_id)),
        presence: recent(data, of_kind(false, platform, platform_id)),
    }
}

/// The view of a profile on `platform`, by its identifier.
pub open spec fn profile_of(data: Seq<DataView>, platform: Text) -> spec_fn(Text) -> ProfileDataView {
    |platform_id: Text| profile_viewed(data, platform, platform_id)
}

/// The view of the profiles that a subject watches on one platform.
pub open spec fn platform_of(data: Seq<DataView>) -> spec_fn((Text, Seq<Text>)) -> PlatformDataView {
    |listed: (Text, Seq<Text>)|
        PlatformDataView {
            platform: listed.0,
            profiles: listed.1.map_values(profile_of(data, listed.0)),
        }
}

/// The view of a subject.
pub open spec fn subject_of(data: Seq<DataView>) -> spec_fn(SubjectView) -> SubjectDataView {
    |subject: SubjectView|
        SubjectDataView { subject, platforms: subject.profiles.map_values(platform_of(data)) }
}

/// The condition of carrying one of the identifiers `uuids`.
pub open spec fn listed_in(uuids: Seq<Text>) -> spec_fn(SubjectView) -> bool {
    |subject: SubjectView| uuids.contains(subject.uuid)
}

/// The view of the subjects with the identifiers `uuids`, in the store's
/// order.
pub open spec fn viewed(subjects: Seq<SubjectView>, data: Seq<DataView>, uuids: Seq<Text>) -> ViewDataView {
    ViewDataView { subject_data: subjects.filter(listed_in(uuids)).map_values(subject_of(data)) }
}

/// Whether each of `records` was retrieved no earlier than the one after it.
pub open spec fn latest_first(records: Seq<DataView>) -> bool {
    forall|i: int, j: int|
        0 <= i < j < records.len() ==> (#[trigger] records[i]).retrieved_at() >= (
        #[trigger] records[j]).retrieved_at()
}

/// Sorting keeps every record and puts the latest first.
pub proof fn lemma_newest_first(records: Seq<DataView>)
    ensures
        newest_first(records).len() == records.len(),
        latest_first(newest_first(records)),
    decreases records.len(),
{
    if records.len() > 0 {
        lemma_newest_first(records.drop_last());
        let sorted = newest_first(records.drop_last());
        let record = records.last();
        let at = place(sorted, record);
        crate::utils::search::lemma_first_where(sorted, older_than(record.retrieved_at()));
        let after = sorted.insert(at, record);
        assert forall|i: int, j: int| 0 <= i < j < after.len() implies (
        #[trigger] after[i]).retrieved_at() >= (#[trigger] after[j]).retrieved_at() by {
            if i < at {
                assert(after[i] == sorted[i]);
                assert(!older_than(record.retrieved_at())(sorted[i]));
            }
            if i > at {
                assert(after[i] == sorted[i - 1]);
            }
            if j < at {
                assert(after[j] == sorted[j]);
            }
            if j > at {
                assert(after[j] == sorted[j - 1]);
                if i == at {
                    assert(sorted[at].retrieved_at() >= sorted[j - 1].retrieved_at() || at == j
                        - 1);
                }
            }
        }
    }
}

fn first_older(sorted: &Vec<Data>, at: i64) -> (found: usize)
    ensures
        found <= sorted.len(),
        found as int == match first_where(sorted.deep_view(), older_than(at)) {
            Some(i) => i,
            None => sorted.len() as int,
        },
{
    let mut i: usize = 0;
    while i < sorted.len()
        invariant
            i <= sorted.len(),
            forall|j: int| 0 <= j < i ==> !older_than(at)(#[trigger] sorted.deep_view()[j]),
        decreases sorted.len() - i,
    {
        assert(sorted.deep_view()[i as int] == sorted[i as int]@);
        if sorted[i].retrieved_at() < at {
            proof {
                lemma_first_where_is(sorted.deep_view(), older_than(at), i as int);
            }
            return i;
        }
        i += 1;
    }
    proof {
        lemma_first_where_none(sorted.deep_view(), older_than(at));
    }
    sorted.len()
}

/// Copies of the latest content, or else presence, about the profile
/// `platform_id` on `platform`, the latest first, up to the limit of a view.
pub fn recent_records(db: &Database, content: bool, platform: &str, platform_id: &str) -> (latest:
    Vec<Data>)
    ensures
        latest.deep_view() == recent(db@.data, of_kind(content, platform@, platform_id@)),
{
    let mut sorted: Vec<Data> = Vec::new();
    let ghost wanted = of_kind(content, platform@, platform_id@);
    let mut i: usize = 0;
    proof {
        reveal(Seq::filter);
    }
    assert(sorted.deep_view() =~= newest_first(db@.data.take(0).filter(wanted)));
    while i < db.data.len()
        invariant
            i <= db.data.len(),
            wanted == of_kind(content, platform@, platform_id@),
            sorted.deep_view() == newest_first(db@.data.take(i as int).filter(wanted)),
        decreases db.data.len() - i,
    {
        assert(db@.data[i as int] == db.data[i as int]@);
        let ghost sofar = db@.data.take(i as int);
        proof {
            assert(db@.data.take(i + 1) =~= sofar.push(db.data[i as int]@));
            sofar.lemma_filter_push(db.data[i as int]@, wanted);
        }
        let of_this_kind = match &db.data[i] {
            Data::Content { .. } => content,
            Data::Presence { .. } => !content,
            Data::Meta { .. } => false,
        };
        if of_this_kind && db.data[i].is_about(platform, platform_id) {
            let record = db.data[i].clone();
            let at = first_older(&sorted, record.retrieved_at());
            let ghost before = sorted;
            sorted.insert(at, record);
            proof {
                lemma_deep_view_insert(before, sorted, at as int, record);
                let kept = sofar.filter(wanted);
                assert(kept.push(record@).drop_last() =~= kept);
                assert(kept.push(record@).last() == record@);
            }
        }
        i += 1;
    }
    assert(db@.data.take(db.data.len() as int) =~= db@.data);
    if sorted.len() > VIEW_LIMIT {
        let ghost before = sorted;
        sorted.truncate(VIEW_LIMIT);
        proof {
            lemma_deep_view_take(before, sorted, VIEW_LIMIT as int);
        }
    }
    sorted
}

/// A copy of the first metadata that was stored about the profile
/// `platform_id` on `platform`, if any was.
pub fn first_metadata(db: &Database, platform: &str, platform_id: &str) -> (found: Option<Data>)
    ensures
        found.deep_view() == first_item_where(db@.data, names_profile(platform@, platform_id@)),
{
    let ghost wanted = names_profile(platform@, platform_id@);
    let mut i: usize = 0;
    while i < db.data.len()
        invariant
            i <= db.data.len(),
            wanted == names_profile(platform@, platform_id@),
            forall|j: int| 0 <= j < i ==> !wanted(#[trigger] db@.data[j]),
        decreases db.data.len() - i,
    {
        assert(db@.data[i as int] == db.data[i as int]@);
        let is_meta = match &db.data[i] {
            Data::Meta { .. } => true,
            _ => false,
        };
        if is_meta && db.data[i].is_about(platform, platform_id) {
            proof {
                lemma_first_where_is(db@.data, wanted, i as int);
            }
            return Some(db.data[i].clone());
        }
        i += 1;
    }
    proof {
        lemma_first_where_none(db@.data, wanted);
    }
    None
}

/// What the store holds about the profile `platform_id` on `platform`.
pub fn view_profile(db: &Database, platform: &str, platform_id: &str) -> (profile: ProfileData)
    ensures
        profile@ == profile_viewed(db@.data, platform@, platform_id@),
{
    ProfileData {
        meta: first_metadata(db, platform, platform_id),
        content: recent_records(db, true, platform, platform_id),
        presence: recent_records(db, false, platform, platform_id),
    }
}

/// What the store holds about a subject.
pub fn view_subject(db: &Database, subject: &Subject) -> (shown: SubjectData)
    ensures
        shown@ == subject_of(db@.data)(subject@),
{
    let mut platforms: Vec<PlatformData> = Vec::new();
    let ghost listed = subject@.profiles;
    let mut k: usize = 0;
    assert(platforms.deep_view() =~= listed.take(0).map_values(platform_of(db@.data)));
    while k < subject.profiles.len()
        invariant
            k <= subject.profiles.len(),
            listed == subject@.profiles,
            platforms.deep_view() == listed.take(k as int).map_values(platform_of(db@.data)),
        decreases subject.profiles.len() - k,
    {
        let platform = &subject.profiles[k].0;
        let ids = &subject.profiles[k].1;
        assert(listed[k as int] == (platform@, ids.deep_view()));
        let mut profiles: Vec<ProfileData> = Vec::new();
        let mut i: usize = 0;
        assert(profiles.deep_view() =~= ids.deep_view().take(0).map_values(
            profile_of(db@.data, platform@),
        ));
        while i < ids.len()
            invariant
                i <= ids.len(),
                profiles.deep_view() == ids.deep_view().take(i as int).map_values(
                    profile_of(db@.data, platform@),
                ),
            decreases ids.len() - i,
        {
            assert(ids.deep_view()[i as int] == ids[i as int]@);
            let ghost before = profiles;
            let profile = view_profile(db, platform.as_str(), ids[i].as_str());
            profiles.push(profile);
            proof {
                lemma_deep_view_push(before, profiles, profile);
            }
            i += 1;
            assert(profiles.deep_view() =~= ids.deep_view().take(i as int).map_values(
                profile_of(db@.data, platform@),
            ));
        }
        assert(ids.deep_view().take(ids.len() as int) =~= ids.deep_view());
        let ghost before = platforms;
        let shown = PlatformData { platform: platform.clone(), profiles };
        platforms.push(shown);
        proof {
            lemma_deep_view_push(before, platforms, shown);
        }
        k += 1;
        assert(platforms.deep_view() =~= listed.take(k as int).map_values(platform_of(db@.data)));
    }
    assert(listed.take(subject.profiles.len() as int) =~= listed);
    SubjectData { subject: subject.clone(), platforms }
}

/// Answers with what the store holds about the subjects that the query
/// names, in the store's order: per profile, the first metadata that was
/// stored about it and its latest content and presence, up to a hundred
/// each. Identifiers that are no subject's are passed over.
///
/// Refused as a bad request where there is no query.
pub fn view(view_query: Option<ViewQuery>, db: &Database, _user: &User) -> (answer: Result<
    (StatusCode, ViewResponse),
    Refusal,
>)
    ensures
        match answer {
            Ok((status, body)) => {
                &&& view_query matches Some(query)
                &&& status == StatusCode::OK
                &&& body.response@ == "OK"@
                &&& body.view_data@ == viewed(db@.subjects, db@.data, query.subjects.deep_view())
            },
            Err((status, body)) => {
                &&& view_query is None
                &&& status == StatusCode::BAD_REQUEST
                &&& body.response@ == "ERROR"@
                &&& body.text@ == "You must provide a list of subjects."@
            },
        },
{
    let query = match view_query {
        Some(query) => query,
        None => {
            return Err(refusal(StatusCode::BAD_REQUEST, "You must provide a list of subjects."));
        },
    };
    let ghost wanted = listed_in(query.subjects.deep_view());
    let mut subject_data: Vec<SubjectData> = Vec::new();
    let mut i: usize = 0;
    proof {
        reveal(Seq::filter);
    }
    assert(subject_data.deep_view() =~= db@.subjects.take(0).filter(wanted).map_values(
        subject_of(db@.data),
    ));
    while i < db.subjects.len()
        invariant
            i <= db.subjects.len(),
            wanted == listed_in(query.subjects.deep_view()),
            subject_data.deep_view() == db@.subjects.take(i as int).filter(wanted).map_values(
                subject_of(db@.data),
            ),
        decreases db.subjects.len() - i,
    {
        assert(db@.subjects[i as int] == db.subjects[i as int]@);
        let ghost sofar = db@.subjects.take(i as int);
        proof {
            assert(db@.subjects.take(i + 1) =~= sofar.push(db.subjects[i as int]@));
            sofar.lemma_filter_push(db.subjects[i as int]@, wanted);
        }
        if contains_text(&query.subjects, db.subjects[i].uuid.as_str()) {
            let ghost before = subject_data;
            let shown = view_subject(db, &db.subjects[i]);
            subject_data.push(shown);
            proof {
                lemma_deep_view_push(before, subject_data, shown);
                assert(subject_data.deep_view() =~= sofar.filter(wanted).push(
                    db.subjects[i as int]@,
                ).map_values(subject_of(db@.data)));
            }
        }
        i += 1;
    }
    assert(db@.subjects.take(db.subjects.len() as int) =~= db@.subjects);
    Ok((StatusCode::OK, ViewResponse::from_view_data(ViewData { subject_data })))
}

} // verus!
