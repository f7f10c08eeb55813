//! Subjects: named bundles of profiles, each owned by one operator.

use vstd::prelude::*;

use crate::utils::search::{first_where, lemma_first_where_is, lemma_first_where_none};
use crate::utils::text::{
    copy_optional, copy_texts, find_text, is_text, lemma_deep_view_push, lemma_deep_view_update,
    Text,
};

verus! {

/// The profiles of a subject: platforms, each with the identifiers watched on
/// it. It is a table by platform: in a subject at rest no platform is listed
/// twice.
pub type Profiles = Vec<(String, Vec<String>)>;

/// The mathematical value of [`Profiles`].
pub type ProfilesView = Seq<(Text, Seq<Text>)>;

#[derive(Debug, PartialEq, Eq)]
pub struct Subject {
    pub uuid: String,
    pub created_at: i64,
    pub created_by: String,
    pub name: String,
    pub profiles: Profiles,
    pub description: Option<String>,
}

/// The mathematical value of a subject.
pub struct SubjectView {
    pub uuid: Text,
    pub created_at: i64,
    pub created_by: Text,
    pub name: Text,
    pub profiles: ProfilesView,
    pub description: Option<Text>,
}

impl View for Subject {
    type V = SubjectView;

    open spec fn view(&self) -> SubjectView {
        SubjectView {
            uuid: self.uuid@,
            created_at: self.created_at,
            created_by: self.created_by@,
            name: self.name@,
            profiles: self.profiles.deep_view(),
            description: self.description.deep_view(),
        }
    }
}

impl DeepView for Subject {
    type V = SubjectView;

    open spec fn deep_view(&self) -> SubjectView {
        self@
    }
}

/// The profiles of one platform as `(platform, identifier)` pairs.
pub open spec fn pairs_of(platform: Text, ids: Seq<Text>) -> Seq<(Text, Text)> {
    ids.map_values(|id: Text| (platform, id))
}

/// All profiles as `(platform, identifier)` pairs, in their order.
pub open spec fn profile_pairs(profiles: ProfilesView) -> Seq<(Text, Text)>
    decreases profiles.len(),
{
    if profiles.len() == 0 {
        Seq::empty()
    } else {
        profile_pairs(profiles.drop_last()) + pairs_of(profiles.last().0, profiles.last().1)
    }
}

/// A copy of `profiles`.
pub fn copy_profiles(profiles: &Profiles) -> (copy: Profiles)
    ensures
        copy.deep_view() == profiles.deep_view(),
{
    let mut copy: Profiles = Vec::new();
    let mut i: usize = 0;
    while i < profiles.len()
        invariant
            i <= profiles.len(),
            copy.deep_view() == profiles.deep_view().take(i as int),
        decreases profiles.len() - i,
    {
        let ghost before = copy;
        let item = (profiles[i].0.clone(), copy_texts(&profiles[i].1));
        copy.push(item);
        proof {
            lemma_deep_view_push(before, copy, item);
        }
        i += 1;
        assert(copy.deep_view() =~= profiles.deep_view().take(i as int));
    }
    assert(profiles.deep_view().take(profiles.len() as int) =~= profiles.deep_view());
    copy
}

/// The profiles as a flat list of `(platform, identifier)` pairs.
pub fn flatten_profiles(profiles: &Profiles) -> (pairs: Vec<(String, String)>)
    ensures
        pairs.deep_view() == profile_pairs(profiles.deep_view()),
{
    let mut pairs: Vec<(String, String)> = Vec::new();
    let ghost all = profiles.deep_view();
    let mut i: usize = 0;
    while i < profiles.len()
        invariant
            i <= profiles.len(),
            all == profiles.deep_view(),
            pairs.deep_view() == profile_pairs(all.take(i as int)),
        decreases profiles.len() - i,
    {
        let platform = &profiles[i].0;
        let ids = &profiles[i].1;
        let ghost done = pairs.deep_view();
        assert(all[i as int] == (platform@, ids.deep_view()));
        let mut j: usize = 0;
        while j < ids.len()
            invariant
                j <= ids.len(),
                pairs.deep_view() == done + pairs_of(platform@, ids.deep_view().take(j as int)),
            decreases ids.len() - j,
        {
            let ghost before = pairs;
            let item = (platform.clone(), ids[j].clone());
            pairs.push(item);
            proof {
                lemma_deep_view_push(before, pairs, item);
                assert(ids.deep_view().take(j + 1) =~= ids.deep_view().take(j as int).push(
                    ids[j as int]@,
                ));
            }
            j += 1;
            assert(pairs.deep_view() =~= done + pairs_of(
                platform@,
                ids.deep_view().take(j as int),
            ));
        }
        proof {
            assert(ids.deep_view().take(ids.len() as int) =~= ids.deep_view());
            assert(all.take(i + 1).drop_last() =~= all.take(i as int));
            assert(all.take(i + 1).last() == all[i as int]);
        }
        i += 1;
    }
    assert(all.take(profiles.len() as int) =~= all);
    pairs
}

impl Clone for Subject {
    fn clone(&self) -> (copy: Self)
        ensures
            copy@ == self@,
    {
        Subject {
            uuid: self.uuid.clone(),
            created_at: self.created_at,
            created_by: self.created_by.clone(),
            name: self.name.clone(),
            profiles: copy_profiles(&self.profiles),
            description: copy_optional(&self.description),
        }
    }
}

/// `ids` with the first `old` replaced by `new`.
pub open spec fn replace_first(ids: Seq<Text>, old: Text, new: Text) -> Seq<Text> {
    match first_where(ids, is_text(old)) {
        Some(i) => ids.update(i, new),
        None => ids,
    }
}

/// The condition of listing the identifiers watched on `platform`.
pub open spec fn on_platform(platform: Text) -> spec_fn((Text, Seq<Text>)) -> bool {
    |listed: (Text, Seq<Text>)| listed.0 == platform
}

/// `profiles` with the first `username` among the identifiers watched on
/// `platform` replaced by `platform_id`.
pub open spec fn rebind_profiles(
    profiles: ProfilesView,
    platform: Text,
    username: Text,
    platform_id: Text,
) -> ProfilesView {
    match first_where(profiles, on_platform(platform)) {
        Some(k) => profiles.update(
            k,
            (profiles[k].0, replace_first(profiles[k].1, username, platform_id)),
        ),
        None => profiles,
    }
}

/// A subject that watches `platform_id` on `platform` where it watched
/// `username`.
pub open spec fn rebound(platform: Text, username: Text, platform_id: Text) -> spec_fn(
    SubjectView,
) -> SubjectView {
    |subject: SubjectView|
        SubjectView {
            profiles: rebind_profiles(subject.profiles, platform, username, platform_id),
            ..subject
        }
}

/// The index of the identifiers watched on `platform`, if any are.
pub fn find_platform(profiles: &Profiles, platform: &str) -> (found: Option<usize>)
    ensures
        match found {
            Some(k) => first_where(profiles.deep_view(), on_platform(platform@)) == Some(k as int)
                && k < profiles.len(),
            None => first_where(profiles.deep_view(), on_platform(platform@)) is None,
        },
{
    let mut k: usize = 0;
    while k < profiles.len()
        invariant
            k <= profiles.len(),
            forall|j: int|
                0 <= j < k ==> !on_platform(platform@)(#[trigger] profiles.deep_view()[j]),
        decreases profiles.len() - k,
    {
        assert(profiles.deep_view()[k as int] == profiles[k as int].deep_view());
        if *profiles[k].0.as_str() == *platform {
            proof {
                lemma_first_where_is(profiles.deep_view(), on_platform(platform@), k as int);
            }
            return Some(k);
        }
        k += 1;
    }
    proof {
        lemma_first_where_none(profiles.deep_view(), on_platform(platform@));
    }
    None
}

impl Subject {
    /// The subject as it watches `platform_id` on `platform` where it watched
    /// `username`.
    pub fn rebind(&self, platform: &str, username: &str, platform_id: &str) -> (moved: Self)
        ensures
            moved@ == rebound(platform@, username@, platform_id@)(self@),
    {
        let mut profiles = copy_profiles(&self.profiles);
        match find_platform(&profiles, platform) {
            Some(k) => {
                assert(profiles.deep_view()[k as int] == profiles[k as int].deep_view());
                let mut ids = copy_texts(&profiles[k].1);
                match find_text(&ids, username) {
                    Some(i) => {
                        let ghost before = ids;
                        let id = platform_id.to_string();
                        ids.set(i, id);
                        proof {
                            lemma_deep_view_update(before, ids, i as int, id);
                        }
                    },
                    None => {},
                }
                let ghost before = profiles;
                let listed = (profiles[k].0.clone(), ids);
                profiles.set(k, listed);
                proof {
                    lemma_deep_view_update(before, profiles, k as int, listed);
                    assert(profiles.deep_view() =~= rebind_profiles(
                        self@.profiles,
                        platform@,
                        username@,
                        platform_id@,
                    ));
                }
            },
            None => {},
        }
        Subject {
            uuid: self.uuid.clone(),
            created_at: self.created_at,
            created_by: self.created_by.clone(),
            name: self.name.clone(),
            profiles,
            description: copy_optional(&self.description),
        }
    }
}

} // verus!
