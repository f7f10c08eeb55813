//! Records about a profile: presence, content and profile metadata.
//!
//! A record names the profile it is about by `platform` and `id`. The `id` is
//! the platform's own identifier where the provider knows it and the username
//! where it does not. A metadata record carries the username that goes with
//! its `id`, which is how a queue entry made for a username learns the
//! identifier behind it.
//!
//! Instants are microseconds since the Unix epoch, UTC.

use std::collections::HashMap;

use vstd::prelude::*;

use crate::config::{ConfigView, IConfig};
use crate::routes::queue::{InternalQueueItem, QueueItemView};
use crate::utils::clock::now;
use crate::utils::text::{copy_optional, copy_texts, lemma_deep_view_push, Text};

verus! {

/// When content was made: at an instant, or at some time within a span.
#[derive(Clone, Copy, Debug, PartialEq, Eq)]
pub enum Timestamp {
    Instant(i64),
    Span(i64, i64),
}

impl DeepView for Timestamp {
    type V = Timestamp;

    open spec fn deep_view(&self) -> Timestamp {
        *self
    }
}

#[derive(Debug, PartialEq, Eq)]
pub enum Data {
    Presence {
        id: String,
        platform: String,
        presence_type: String,
        retrieved_at: i64,
        added_by: Option<String>,
        added_at: Option<i64>,
    },
    Content {
        id: String,
        platform: String,
        content_type: String,
        retrieved_at: i64,
        content_id: String,
        deleted: Option<bool>,
        retrieved_from: Option<String>,
        created_at: Option<Timestamp>,
        body: Option<String>,
        media: Option<Vec<String>>,
        references: Option<HashMap<String, String>>,
        added_by: Option<String>,
        added_at: Option<i64>,
    },
    Meta {
        id: String,
        platform: String,
        username: String,
        private: bool,
        banned: bool,
        retrieved_at: i64,
        display_name: Option<String>,
        profile_picture: Option<String>,
        bio: Option<String>,
        verified: Option<bool>,
        references: Option<HashMap<String, String>>,
        link: Option<String>,
        added_by: Option<String>,
        added_at: Option<i64>,
    },
}

/// The mathematical value of a record.
pub enum DataView {
    Presence {
        id: Text,
        platform: Text,
        presence_type: Text,
        retrieved_at: i64,
        added_by: Option<Text>,
        added_at: Option<i64>,
    },
    Content {
        id: Text,
        platform: Text,
        content_type: Text,
        retrieved_at: i64,
        content_id: Text,
        deleted: Option<bool>,
        retrieved_from: Option<Text>,
        created_at: Option<Timestamp>,
        body: Option<Text>,
        media: Option<Seq<Text>>,
        references: Option<Map<Text, Text>>,
        added_by: Option<Text>,
        added_at: Option<i64>,
    },
    Meta {
        id: Text,
        platform: Text,
        username: Text,
        private: bool,
        banned: bool,
        retrieved_at: i64,
        display_name: Option<Text>,
        profile_picture: Option<Text>,
        bio: Option<Text>,
        verified: Option<bool>,
        references: Option<Map<Text, Text>>,
        link: Option<Text>,
        added_by: Option<Text>,
        added_at: Option<i64>,
    },
}

impl DataView {
    pub open spec fn id(self) -> Text {
        match self {
            DataView::Presence { id, .. } => id,
            DataView::Content { id, .. } => id,
            DataView::Meta { id, .. } => id,
        }
    }

    pub open spec fn platform(self) -> Text {
        match self {
            DataView::Presence { platform, .. } => platform,
            DataView::Content { platform, .. } => platform,
            DataView::Meta { platform, .. } => platform,
        }
    }

    pub open spec fn retrieved_at(self) -> i64 {
        match self {
            DataView::Presence { retrieved_at, .. } => retrieved_at,
            DataView::Content { retrieved_at, .. } => retrieved_at,
            DataView::Meta { retrieved_at, .. } => retrieved_at,
        }
    }

    pub open spec fn added_by(self) -> Option<Text> {
        match self {
            DataView::Presence { added_by, .. } => added_by,
            DataView::Content { added_by, .. } => added_by,
            DataView::Meta { added_by, .. } => added_by,
        }
    }

    pub open spec fn added_at(self) -> Option<i64> {
        match self {
            DataView::Presence { added_at, .. } => added_at,
            DataView::Content { added_at, .. } => added_at,
            DataView::Meta { added_at, .. } => added_at,
        }
    }

    /// The record with its attribution set to `operator` at `now`, and nothing
    /// else changed.
    pub open spec fn tagged(self, operator: Text, now: i64) -> DataView {
        match self {
            DataView::Presence { id, platform, presence_type, retrieved_at, .. } => {
                DataView::Presence {
                    id,
                    platform,
                    presence_type,
                    retrieved_at,
                    added_by: Some(operator),
                    added_at: Some(now),
                }
            },
            DataView::Content {
                id,
                platform,
                content_type,
                retrieved_at,
                content_id,
                deleted,
                retrieved_from,
                created_at,
                body,
                media,
                references,
                ..
            } => DataView::Content {
                id,
                platform,
                content_type,
                retrieved_at,
                content_id,
                deleted,
                retrieved_from,
                created_at,
                body,
                media,
                references,
                added_by: Some(operator),
                added_at: Some(now),
            },
            DataView::Meta {
                id,
                platform,
                username,
                private,
                banned,
                retrieved_at,
                display_name,
                profile_picture,
                bio,
                verified,
                references,
                link,
                ..
            } => DataView::Meta {
                id,
                platform,
                username,
                private,
                banned,
                retrieved_at,
                display_name,
                profile_picture,
                bio,
                verified,
                references,
                link,
                added_by: Some(operator),
                added_at: Some(now),
            },
        }
    }

    /// Whether the configuration accepts the record: presence and content by
    /// their type on their platform, metadata by its platform alone.
    pub open spec fn verified_by(self, config: ConfigView) -> bool {
        match self {
            DataView::Presence { platform, presence_type, .. } => config.valid_presence_type(
                platform,
                presence_type,
            ),
            DataView::Content { platform, content_type, .. } => config.valid_content_type(
                platform,
                content_type,
            ),
            DataView::Meta { platform, .. } => config.valid_platform(platform),
        }
    }

    /// Whether the record may be submitted under a lease on `lease`: it is on
    /// the lease's platform and either about the leased identifier or metadata
    /// for a lease whose identifier is not confirmed yet.
    pub open spec fn fits_lease(self, lease: QueueItemView) -> bool {
        self.platform() == lease.platform && (self.id() == lease.platform_id || (self is Meta
            && !lease.confirmed_id))
    }
}

impl View for Data {
    type V = DataView;

    open spec fn view(&self) -> DataView {
        match self {
            Data::Presence { id, platform, presence_type, retrieved_at, added_by, added_at } => {
                DataView::Presence {
                    id: id@,
                    platform: platform@,
                    presence_type: presence_type@,
                    retrieved_at: *retrieved_at,
                    added_by: added_by.deep_view(),
                    added_at: *added_at,
                }
            },
            Data::Content {
                id,
                platform,
                content_type,
                retrieved_at,
                content_id,
                deleted,
                retrieved_from,
                created_at,
                body,
                media,
                references,
                added_by,
                added_at,
            } => DataView::Content {
                id: id@,
                platform: platform@,
                content_type: content_type@,
                retrieved_at: *retrieved_at,
                content_id: content_id@,
                deleted: *deleted,
                retrieved_from: retrieved_from.deep_view(),
                created_at: *created_at,
                body: body.deep_view(),
                media: media.deep_view(),
                references: references.deep_view(),
                added_by: added_by.deep_view(),
                added_at: *added_at,
            },
            Data::Meta {
                id,
                platform,
                username,
                private,
                banned,
                retrieved_at,
                display_name,
                profile_picture,
                bio,
                verified,
                references,
                link,
                added_by,
                added_at,
            } => DataView::Meta {
                id: id@,
                platform: platform@,
                username: username@,
                private: *private,
                banned: *banned,
                retrieved_at: *retrieved_at,
                display_name: display_name.deep_view(),
                profile_picture: profile_picture.deep_view(),
                bio: bio.deep_view(),
                verified: *verified,
                references: references.deep_view(),
                link: link.deep_view(),
                added_by: added_by.deep_view(),
                added_at: *added_at,
            },
        }
    }
}

impl DeepView for Data {
    type V = DataView;

    open spec fn deep_view(&self) -> DataView {
        self@
    }
}

fn copy_optional_texts(texts: &Option<Vec<String>>) -> (copy: Option<Vec<String>>)
    ensures
        copy.deep_view() == texts.deep_view(),
{
    match texts {
        Some(inner) => Some(copy_texts(inner)),
        None => None,
    }
}

fn copy_optional_pairs(pairs: &Option<HashMap<String, String>>) -> (copy: Option<
    HashMap<String, String>,
>)
    ensures
        copy.deep_view() == pairs.deep_view(),
{
    match pairs {
        Some(inner) => {
            let copy = inner.clone();
            proof {
                reveal(vstd::std_specs::hash::hash_map_deep_view_impl);
                assert(copy.deep_view() =~= inner.deep_view());
            }
            Some(copy)
        },
        None => None,
    }
}

impl Clone for Data {
    fn clone(&self) -> (copy: Self)
        ensures
            copy@ == self@,
    {
        match self {
            Data::Presence { id, platform, presence_type, retrieved_at, added_by, added_at } => {
                Data::Presence {
                    id: id.clone(),
                    platform: platform.clone(),
                    presence_type: presence_type.clone(),
                    retrieved_at: *retrieved_at,
                    added_by: copy_optional(added_by),
                    added_at: *added_at,
                }
            },
            Data::Content {
                id,
                platform,
                content_type,
                retrieved_at,
                content_id,
                deleted,
                retrieved_from,
                created_at,
                body,
                media,
                references,
                added_by,
                added_at,
            } => Data::Content {
                id: id.clone(),
                platform: platform.clone(),
                content_type: content_type.clone(),
                retrieved_at: *retrieved_at,
                content_id: content_id.clone(),
                deleted: *deleted,
                retrieved_from: copy_optional(retrieved_from),
                created_at: *created_at,
                body: copy_optional(body),
                media: copy_optional_texts(media),
                references: copy_optional_pairs(references),
                added_by: copy_optional(added_by),
                added_at: *added_at,
            },
            Data::Meta {
                id,
                platform,
                username,
                private,
                banned,
                retrieved_at,
                display_name,
                profile_picture,
                bio,
                verified,
                references,
                link,
                added_by,
                added_at,
            } => Data::Meta {
                id: id.clone(),
                platform: platform.clone(),
                username: username.clone(),
                private: *private,
                banned: *banned,
                retrieved_at: *retrieved_at,
                display_name: copy_optional(display_name),
                profile_picture: copy_optional(profile_picture),
                bio: copy_optional(bio),
                verified: *verified,
                references: copy_optional_pairs(references),
                link: copy_optional(link),
                added_by: copy_optional(added_by),
                added_at: *added_at,
            },
        }
    }
}

impl Data {
    /// Attributes the record to the operator `uuid`, as of the instant `now`.
    pub fn tag_at(self, uuid: &str, now: i64) -> (tagged: Self)
        ensures
            tagged@ == self@.tagged(uuid@, now),
    {
        match self {
            Data::Presence { id, platform, presence_type, retrieved_at, .. } => Data::Presence {
                id,
                platform,
                presence_type,
                retrieved_at,
                added_by: Some(uuid.to_string()),
                added_at: Some(now),
            },
            Data::Content {
                id,
                platform,
                content_type,
                retrieved_at,
                content_id,
                deleted,
                retrieved_from,
                created_at,
                body,
                media,
                references,
                ..
            } => Data::Content {
                id,
                platform,
                content_type,
                retrieved_at,
                content_id,
                deleted,
                retrieved_from,
                created_at,
                body,
                media,
                references,
                added_by: Some(uuid.to_string()),
                added_at: Some(now),
            },
            Data::Meta {
                id,
                platform,
                username,
                private,
                banned,
                display_name,
                profile_picture,
                bio,
                verified,
                references,
                link,
                retrieved_at,
                ..
            } => Data::Meta {
                id,
                platform,
                username,
                private,
                banned,
                display_name,
                profile_picture,
                bio,
                verified,
                references,
                link,
                retrieved_at,
                added_by: Some(uuid.to_string()),
                added_at: Some(now),
            },
        }
    }

    /// Attributes the record to the operator `uuid`, as of the present.
    pub fn tag(self, uuid: &str) -> (tagged: Self)
        ensures
            exists|at: i64| tagged@ == #[trigger] self@.tagged(uuid@, at),
    {
        let at = now();
        self.tag_at(uuid, at)
    }

    /// When the record was retrieved.
    pub fn retrieved_at(&self) -> (at: i64)
        ensures
            at == self@.retrieved_at(),
    {
        match self {
            Data::Presence { retrieved_at, .. } => *retrieved_at,
            Data::Content { retrieved_at, .. } => *retrieved_at,
            Data::Meta { retrieved_at, .. } => *retrieved_at,
        }
    }

    /// Whether the record is about the profile `id` on `platform`.
    pub fn is_about(&self, platform: &str, id: &str) -> (about: bool)
        ensures
            about == (self@.platform() == platform@ && self@.id() == id@),
    {
        match self {
            Data::Presence { id: of, platform: on, .. } => *on.as_str() == *platform && *of.as_str()
                == *id,
            Data::Content { id: of, platform: on, .. } => *on.as_str() == *platform && *of.as_str()
                == *id,
            Data::Meta { id: of, platform: on, .. } => *on.as_str() == *platform && *of.as_str()
                == *id,
        }
    }

    /// Whether the configuration accepts the record.
    pub fn verify(&self, config: &IConfig) -> (accepted: bool)
        requires
            config@.wf(),
        ensures
            accepted == self@.verified_by(config@),
    {
        match self {
            Data::Presence { platform, presence_type, .. } => config.valid_presence_type(
                platform.as_str(),
                presence_type.as_str(),
            ),
            Data::Content { platform, content_type, .. } => config.valid_content_type(
                platform.as_str(),
                content_type.as_str(),
            ),
            Data::Meta { platform, .. } => config.valid_platform(platform.as_str()),
        }
    }

    /// Whether the record may be submitted under a lease on `lease`.
    pub fn verify_for_lease(&self, lease: &InternalQueueItem) -> (accepted: bool)
        ensures
            accepted == self@.fits_lease(lease@),
    {
        match self {
            Data::Meta { platform, id, .. } => {
                lease.platform == *platform && (lease.platform_id == *id || !lease.confirmed_id)
            },
            Data::Content { platform, id, .. } => {
                lease.platform_id == *id && lease.platform == *platform
            },
            Data::Presence { platform, id, .. } => {
                lease.platform_id == *id && lease.platform == *platform
            },
        }
    }
}

/// A submission: the lease it was fetched under, if any, and its records.
#[derive(Debug, PartialEq, Eq)]
pub struct Datas {
    pub queue_id: Option<String>,
    pub data: Vec<Data>,
}

/// The mathematical value of a submission.
pub struct DatasView {
    pub queue_id: Option<Text>,
    pub data: Seq<DataView>,
}

/// What a submission is about: the profile, the operator who submitted it, and
/// the profile's username where metadata gives it.
pub struct Summary {
    pub platform_id: Text,
    pub platform: Text,
    pub added_by: Text,
    pub username: Option<Text>,
}

/// The index of the first metadata record among `data`, if there is one.
pub open spec fn first_meta(data: Seq<DataView>) -> Option<int> {
    if exists|i: int| is_first_meta(data, i) {
        Some(choose|i: int| is_first_meta(data, i))
    } else {
        None
    }
}

/// Whether `data[i]` is a metadata record and none comes before it.
pub open spec fn is_first_meta(data: Seq<DataView>, i: int) -> bool {
    &&& 0 <= i < data.len()
    &&& data[i] is Meta
    &&& forall|j: int| 0 <= j < i ==> !(#[trigger] data[j] is Meta)
}

/// The attribution of a record to `operator` at `now`.
pub open spec fn stamped(operator: Text, now: i64) -> spec_fn(DataView) -> DataView {
    |d: DataView| d.tagged(operator, now)
}

/// The condition of being accepted by `config`.
pub open spec fn accepted_by(config: ConfigView) -> spec_fn(DataView) -> bool {
    |d: DataView| d.verified_by(config)
}

/// The condition of fitting a lease on `lease`.
pub open spec fn fitting(lease: QueueItemView) -> spec_fn(DataView) -> bool {
    |d: DataView| d.fits_lease(lease)
}

impl DatasView {
    /// Every record attributed to `operator` at `now`.
    pub open spec fn tagged(self, operator: Text, now: i64) -> DatasView {
        DatasView { queue_id: self.queue_id, data: self.data.map_values(stamped(operator, now)) }
    }

    /// The records that the configuration accepts, in their order.
    pub open spec fn verify_for_config(self, config: ConfigView) -> DatasView {
        DatasView { queue_id: self.queue_id, data: self.data.filter(accepted_by(config)) }
    }

    /// The records that may be submitted under a lease on `lease`, in their
    /// order.
    pub open spec fn verify_for_queue(self, lease: QueueItemView) -> DatasView {
        DatasView { queue_id: self.queue_id, data: self.data.filter(fitting(lease)) }
    }

    /// The first metadata record, if there is one.
    pub open spec fn meta(self) -> Option<DataView> {
        match first_meta(self.data) {
            Some(i) => Some(self.data[i]),
            None => None,
        }
    }

    /// The record that speaks for the submission: its first metadata record,
    /// or its first record where it has no metadata.
    pub open spec fn authority(self) -> DataView
        recommends
            self.data.len() > 0,
    {
        match self.meta() {
            Some(meta) => meta,
            None => self.data[0],
        }
    }

    pub open spec fn info(self) -> Summary
        recommends
            self.data.len() > 0,
            self.authority().added_by() is Some,
    {
        let authority = self.authority();
        Summary {
            platform_id: authority.id(),
            platform: authority.platform(),
            added_by: authority.added_by().unwrap(),
            username: match authority {
                DataView::Meta { username, .. } => Some(username),
                _ => None,
            },
        }
    }
}

impl View for Datas {
    type V = DatasView;

    open spec fn view(&self) -> DatasView {
        DatasView { queue_id: self.queue_id.deep_view(), data: self.data.deep_view() }
    }
}

/// The views of a sequence of records.
pub open spec fn views(data: Seq<Data>) -> Seq<DataView> {
    data.map_values(|d: Data| d@)
}

impl Datas {
    /// Attributes every record to the operator `uuid`, as of the instant `now`.
    pub fn tag_at(self, uuid: &str, now: i64) -> (tagged: Self)
        ensures
            tagged@ == self@.tagged(uuid@, now),
    {
        let mut tagged_data: Vec<Data> = Vec::new();
        let ghost all = self.data@;
        assert(self.data.deep_view() =~= views(all));
        for data in it: self.data
            invariant
                it.seq() == all,
                tagged_data.deep_view() == views(all.take(it.index() as int)).map_values(
                    stamped(uuid@, now),
                ),
        {
            let ghost before = tagged_data;
            let ghost sofar = views(all.take(it.index() as int));
            let ghost shown = data@;
            let item = data.tag_at(uuid, now);
            tagged_data.push(item);
            proof {
                lemma_deep_view_push(before, tagged_data, item);
                assert(views(all.take(it.index() + 1)) =~= sofar.push(shown));
                assert(sofar.push(shown).map_values(stamped(uuid@, now)) =~= sofar.map_values(
                    stamped(uuid@, now),
                ).push(item@));
            }
        }
        assert(all.take(all.len() as int) =~= all);
        Datas { data: tagged_data, queue_id: self.queue_id }
    }

    /// Attributes every record to the operator `uuid`, as of the present.
    pub fn tag(self, uuid: &str) -> (tagged: Self)
        ensures
            exists|at: i64| tagged@ == #[trigger] self@.tagged(uuid@, at),
    {
        let at = now();
        self.tag_at(uuid, at)
    }

    /// Keeps the records that the configuration accepts and drops the others.
    pub fn verify_for_config(self, config: &IConfig) -> (verified: Self)
        requires
            config@.wf(),
        ensures
            verified@ == self@.verify_for_config(config@),
    {
        let mut verified_data: Vec<Data> = Vec::new();
        let ghost all = self.data@;
        assert(self.data.deep_view() =~= views(all));
        proof {
            reveal(Seq::filter);
        }
        for data in it: self.data
            invariant
                config@.wf(),
                it.seq() == all,
                verified_data.deep_view() == views(all.take(it.index() as int)).filter(
                    accepted_by(config@),
                ),
        {
            proof {
                let sofar = views(all.take(it.index() as int));
                assert(views(all.take(it.index() + 1)) =~= sofar.push(data@));
                sofar.lemma_filter_push(data@, accepted_by(config@));
            }
            if data.verify(config) {
                let ghost before = verified_data;
                verified_data.push(data);
                proof {
                    lemma_deep_view_push(before, verified_data, data);
                }
            }
        }
        assert(all.take(all.len() as int) =~= all);
        Datas { data: verified_data, queue_id: self.queue_id }
    }

    /// A copy of the first metadata record, if there is one.
    pub fn meta(&self) -> (found: Option<Data>)
        ensures
            found.deep_view() == self@.meta(),
    {
        let mut i: usize = 0;
        while i < self.data.len()
            invariant
                i <= self.data.len(),
                forall|j: int| 0 <= j < i ==> !(#[trigger] self@.data[j] is Meta),
            decreases self.data.len() - i,
        {
            assert(self@.data[i as int] == self.data[i as int]@);
            if let Data::Meta { .. } = &self.data[i] {
                assert(is_first_meta(self@.data, i as int));
                return Some(self.data[i].clone());
            }
            i += 1;
        }
        None
    }

    /// What the submission is about: `(platform_id, platform, added_by,
    /// username)`, read from its first metadata record or, without one, from
    /// its first record.
    pub fn info(&self) -> (summary: (String, String, String, Option<String>))
        requires
            self@.data.len() > 0,
            self@.authority().added_by() is Some,
        ensures
            summary.0@ == self@.info().platform_id,
            summary.1@ == self@.info().platform,
            summary.2@ == self@.info().added_by,
            summary.3.deep_view() == self@.info().username,
    {
        if let Some(meta) = self.meta() {
            match meta {
                Data::Meta { id, platform, added_by, username, .. } => {
                    match added_by {
                        Some(added_by) => (id, platform, added_by, Some(username)),
                        None => {
                            proof {
                                assert(false);
                            }
                            (id, platform, String::new(), Some(username))
                        },
                    }
                },
                Data::Presence { id, platform, .. } => {
                    proof {
                        assert(false);
                    }
                    (id, platform, String::new(), None)
                },
                Data::Content { id, platform, .. } => {
                    proof {
                        assert(false);
                    }
                    (id, platform, String::new(), None)
                },
            }
        } else {
            assert(self@.data[0] == self.data[0]@);
            let data = self.data[0].clone();
            match data {
                Data::Presence { id, platform, added_by, .. } => {
                    match added_by {
                        Some(added_by) => (id, platform, added_by, None),
                        None => {
                            proof {
                                assert(false);
                            }
                            (id, platform, String::new(), None)
                        },
                    }
                },
                Data::Content { id, platform, added_by, .. } => {
                    match added_by {
                        Some(added_by) => (id, platform, added_by, None),
                        None => {
                            proof {
                                assert(false);
                            }
                            (id, platform, String::new(), None)
                        },
                    }
                },
                Data::Meta { id, platform, .. } => {
                    proof {
                        assert(is_first_meta(self@.data, 0));
                        assert(false);
                    }
                    (id, platform, String::new(), None)
                },
            }
        }
    }

    /// Keeps the records that may be submitted under a lease on `queue_item`
    /// and drops the others.
    pub fn verify_for_queue(self, queue_item: InternalQueueItem) -> (verified: Self)
        ensures
            verified@ == self@.verify_for_queue(queue_item@),
    {
        let mut verified_data: Vec<Data> = Vec::new();
        let ghost all = self.data@;
        assert(self.data.deep_view() =~= views(all));
        proof {
            reveal(Seq::filter);
        }
        for data in it: self.data
            invariant
                it.seq() == all,
                verified_data.deep_view() == views(all.take(it.index() as int)).filter(
                    fitting(queue_item@),
                ),
        {
            proof {
                let sofar = views(all.take(it.index() as int));
                assert(views(all.take(it.index() + 1)) =~= sofar.push(data@));
                sofar.lemma_filter_push(data@, fitting(queue_item@));
            }
            if data.verify_for_lease(&queue_item) {
                let ghost before = verified_data;
                verified_data.push(data);
                proof {
                    lemma_deep_view_push(before, verified_data, data);
                }
            }
        }
        assert(all.take(all.len() as int) =~= all);
        Datas { data: verified_data, queue_id: self.queue_id }
    }
}

/// Filtering a submission by the configuration a second time drops nothing
/// more.
pub proof fn lemma_verify_for_config_idempotent(batch: DatasView, config: ConfigView)
    ensures
        batch.verify_for_config(config).verify_for_config(config) == batch.verify_for_config(
            config,
        ),
{
    lemma_filter_idempotent(batch.data, accepted_by(config));
}

/// Filtering a submission by a lease a second time drops nothing more.
pub proof fn lemma_verify_for_queue_idempotent(batch: DatasView, lease: QueueItemView)
    ensures
        batch.verify_for_queue(lease).verify_for_queue(lease) == batch.verify_for_queue(lease),
{
    lemma_filter_idempotent(batch.data, fitting(lease));
}

/// What a filter kept, it keeps again.
pub proof fn lemma_filter_idempotent<A>(items: Seq<A>, keep: spec_fn(A) -> bool)
    ensures
        items.filter(keep).filter(keep) == items.filter(keep),
    decreases items.len(),
{
    reveal(Seq::filter);
    if items.len() > 0 {
        lemma_filter_idempotent(items.drop_last(), keep);
        if keep(items.last()) {
            items.drop_last().filter(keep).lemma_filter_push(items.last(), keep);
        }
    }
}

} // verus!
