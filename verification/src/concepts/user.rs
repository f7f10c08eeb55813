//! Operators: the registered callers of the server.

use vstd::prelude::*;

use crate::concepts::group::Group;
use crate::concepts::subject::Subject;
use crate::database::Database;
use crate::utils::clock::now;
use crate::utils::random::{is_credential, new_key, new_uuid, EntropyError};
use crate::utils::search::{first_item_where, lemma_first_where_is, lemma_first_where_none};
use crate::utils::text::{lemma_deep_view_push, Text};

verus! {

/// An operator. Only the digest of the operator's key is kept.
#[derive(Debug, PartialEq, Eq)]
pub struct User {
    pub uuid: String,
    pub name: String,
    pub hashed_key: String,
    pub admin: bool,
    pub banned: bool,
    pub created_at: i64,
}

/// The mathematical value of an operator.
pub struct UserView {
    pub uuid: Text,
    pub name: Text,
    pub hashed_key: Text,
    pub admin: bool,
    pub banned: bool,
    pub created_at: i64,
}

impl View for User {
    type V = UserView;

    open spec fn view(&self) -> UserView {
        UserView {
            uuid: self.uuid@,
            name: self.name@,
            hashed_key: self.hashed_key@,
            admin: self.admin,
            banned: self.banned,
            created_at: self.created_at,
        }
    }
}

impl DeepView for User {
    type V = UserView;

    open spec fn deep_view(&self) -> UserView {
        self@
    }
}

impl Clone for User {
    fn clone(&self) -> (copy: Self)
        ensures
            copy@ == self@,
    {
        User {
            uuid: self.uuid.clone(),
            name: self.name.clone(),
            hashed_key: self.hashed_key.clone(),
            admin: self.admin,
            banned: self.banned,
            created_at: self.created_at,
        }
    }
}

/// The condition of carrying the key digest `hashed_key`.
pub open spec fn with_hashed_key(hashed_key: Text) -> spec_fn(UserView) -> bool {
    |user: UserView| user.hashed_key == hashed_key
}

/// The condition of being owned by `owner`.
pub open spec fn subject_owned_by(owner: Text) -> spec_fn(crate::concepts::subject::SubjectView) -> bool {
    |subject: crate::concepts::subject::SubjectView| subject.created_by == owner
}

/// The condition of being owned by `owner`.
pub open spec fn group_owned_by(owner: Text) -> spec_fn(crate::concepts::group::GroupView) -> bool {
    |group: crate::concepts::group::GroupView| group.created_by == owner
}

impl User {
    /// An ordinary operator called `name`, with the given identifier and key
    /// digest, made at `now`.
    pub fn with_identity(name: &str, uuid: String, hashed_key: String, now: i64) -> (user: Self)
        ensures
            user@ == (UserView {
                uuid: uuid@,
                name: name@,
                hashed_key: hashed_key@,
                admin: false,
                banned: false,
                created_at: now,
            }),
    {
        Self { uuid, name: name.to_string(), hashed_key, admin: false, banned: false, created_at: now }
    }

    /// A new ordinary operator called `name`, with a fresh identifier and a
    /// fresh key. The key is returned beside the operator, who keeps only its
    /// digest.
    pub fn new(name: &str) -> (outcome: Result<(Self, String), EntropyError>)
        ensures
            outcome matches Ok(made) ==> {
                &&& made.0@.name == name@
                &&& !made.0@.admin
                &&& !made.0@.banned
                &&& is_credential(made.1@, made.0@.hashed_key, 32)
            },
    {
        match new_key() {
            Ok((key, hashed_key)) => {
                match new_uuid() {
                    Ok(uuid) => Ok((Self::with_identity(name, uuid, hashed_key, now()), key)),
                    Err(error) => Err(error),
                }
            },
            Err(error) => Err(error),
        }
    }

    /// A new administrator called `name`, with a fresh identifier and a fresh
    /// key.
    pub fn new_admin(name: &str) -> (outcome: Result<(Self, String), EntropyError>)
        ensures
            outcome matches Ok(made) ==> {
                &&& made.0@.name == name@
                &&& made.0@.admin
                &&& !made.0@.banned
                &&& is_credential(made.1@, made.0@.hashed_key, 32)
            },
    {
        match Self::new(name) {
            Ok((mut admin, key)) => {
                admin.admin = true;
                Ok((admin, key))
            },
            Err(error) => Err(error),
        }
    }

    /// The subjects that the operator owns, in the store's order; `None` where
    /// the operator owns none.
    pub fn subjects(&self, db: &Database) -> (owned: Option<Vec<Subject>>)
        ensures
            match owned {
                Some(list) => list.deep_view() == db@.subjects.filter(subject_owned_by(self@.uuid))
                    && list@.len() > 0,
                None => db@.subjects.filter(subject_owned_by(self@.uuid)).len() == 0,
            },
    {
        let mut subjects: Vec<Subject> = Vec::new();
        let ghost mine = subject_owned_by(self@.uuid);
        let mut i: usize = 0;
        proof {
            reveal(Seq::filter);
        }
        while i < db.subjects.len()
            invariant
                i <= db.subjects.len(),
                mine == subject_owned_by(self@.uuid),
                subjects.deep_view() == db@.subjects.take(i as int).filter(mine),
            decreases db.subjects.len() - i,
        {
            proof {
                let sofar = db@.subjects.take(i as int);
                assert(db@.subjects.take(i + 1) =~= sofar.push(db.subjects[i as int]@));
                sofar.lemma_filter_push(db.subjects[i as int]@, mine);
            }
            if *db.subjects[i].created_by == *self.uuid {
                let ghost before = subjects;
                let item = db.subjects[i].clone();
                subjects.push(item);
                proof {
                    lemma_deep_view_push(before, subjects, item);
                }
            }
            i += 1;
        }
        assert(db@.subjects.take(db.subjects.len() as int) =~= db@.subjects);
        if subjects.is_empty() {
            None
        } else {
            Some(subjects)
        }
    }

    /// The groups that the operator owns, in the store's order; `None` where
    /// the operator owns none.
    pub fn groups(&self, db: &Database) -> (owned: Option<Vec<Group>>)
        ensures
            match owned {
                Some(list) => list.deep_view() == db@.groups.filter(group_owned_by(self@.uuid))
                    && list@.len() > 0,
                None => db@.groups.filter(group_owned_by(self@.uuid)).len() == 0,
            },
    {
        let mut groups: Vec<Group> = Vec::new();
        let ghost mine = group_owned_by(self@.uuid);
        let mut i: usize = 0;
        proof {
            reveal(Seq::filter);
        }
        while i < db.groups.len()
            invariant
                i <= db.groups.len(),
                mine == group_owned_by(self@.uuid),
                groups.deep_view() == db@.groups.take(i as int).filter(mine),
            decreases db.groups.len() - i,
        {
            proof {
                let sofar = db@.groups.take(i as int);
                assert(db@.groups.take(i + 1) =~= sofar.push(db.groups[i as int]@));
                sofar.lemma_filter_push(db.groups[i as int]@, mine);
            }
            if *db.groups[i].created_by == *self.uuid {
                let ghost before = groups;
                let item = db.groups[i].clone();
                groups.push(item);
                proof {
                    lemma_deep_view_push(before, groups, item);
                }
            }
            i += 1;
        }
        assert(db@.groups.take(db.groups.len() as int) =~= db@.groups);
        if groups.is_empty() {
            None
        } else {
            Some(groups)
        }
    }

    /// The operator whose key digest is `key`, if there is one.
    pub fn with_key(key: &str, db: &Database) -> (found: Option<Self>)
        ensures
            found.deep_view() == first_item_where(db@.users, with_hashed_key(key@)),
    {
        let mut i: usize = 0;
        while i < db.users.len()
            invariant
                i <= db.users.len(),
                forall|j: int| 0 <= j < i ==> !with_hashed_key(key@)(#[trigger] db@.users[j]),
            decreases db.users.len() - i,
        {
            assert(db@.users[i as int] == db.users[i as int]@);
            if *db.users[i].hashed_key == *key {
                proof {
                    lemma_first_where_is(db@.users, with_hashed_key(key@), i as int);
                }
                return Some(db.users[i].clone());
            }
            i += 1;
        }
        proof {
            lemma_first_where_none(db@.users, with_hashed_key(key@));
        }
        None
    }
}

} // verus!
