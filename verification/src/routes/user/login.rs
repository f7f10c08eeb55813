//! What an operator owns.

use vstd::prelude::*;

use crate::concepts::group::Group;
use crate::concepts::subject::Subject;
use crate::concepts::user::{group_owned_by, subject_owned_by, User};
use crate::database::Database;
use crate::routes::response::{LoginResponse, StatusCode};

verus! {

/// Answers with `user` and the subjects and groups that `user` owns, each in
/// the store's order.
pub fn login(user: &User, db: &Database) -> (answer: (StatusCode, LoginResponse))
    ensures
        answer.0 == StatusCode::OK,
        answer.1.response@ == "OK"@,
        answer.1.user@ == user@,
        answer.1.subjects.deep_view() == db@.subjects.filter(subject_owned_by(user@.uuid)),
        answer.1.groups.deep_view() == db@.groups.filter(group_owned_by(user@.uuid)),
{
    let subjects: Vec<Subject> = match user.subjects(db) {
        Some(subjects) => subjects,
        None => {
            let none: Vec<Subject> = Vec::new();
            assert(none.deep_view() =~= db@.subjects.filter(subject_owned_by(user@.uuid)));
            none
        },
    };
    let groups: Vec<Group> = match user.groups(db) {
        Some(groups) => groups,
        None => {
            let none: Vec<Group> = Vec::new();
            assert(none.deep_view() =~= db@.groups.filter(group_owned_by(user@.uuid)));
            none
        },
    };
    (StatusCode::OK, LoginResponse::from_user_data(user.clone(), subjects, groups))
}

} // verus!
