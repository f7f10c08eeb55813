//! Groups: named lists of subjects, each owned by one operator.

use vstd::prelude::*;

use crate::utils::text::{copy_optional, copy_texts, Text};

verus! {

#[derive(Debug, PartialEq, Eq)]
pub struct Group {
    pub uuid: String,
    pub created_at: i64,
    pub created_by: String,
    pub name: String,
    pub subjects: Vec<String>,
    pub description: Option<String>,
}

/// The mathematical value of a group.
pub struct GroupView {
    pub uuid: Text,
    pub created_at: i64,
    pub created_by: Text,
    pub name: Text,
    pub subjects: Seq<Text>,
    pub description: Option<Text>,
}

impl View for Group {
    type V = GroupView;

    open spec fn view(&self) -> GroupView {
        GroupView {
            uuid: self.uuid@,
            created_at: self.created_at,
            created_by: self.created_by@,
            name: self.name@,
            subjects: self.subjects.deep_view(),
            description: self.description.deep_view(),
        }
    }
}

impl DeepView for Group {
    type V = GroupView;

    open spec fn deep_view(&self) -> GroupView {
        self@
    }
}

impl Clone for Group {
    fn clone(&self) -> (copy: Self)
        ensures
            copy@ == self@,
    {
        Group {
            uuid: self.uuid.clone(),
            created_at: self.created_at,
            created_by: self.created_by.clone(),
            name: self.name.clone(),
            subjects: copy_texts(&self.subjects),
            description: copy_optional(&self.description),
        }
    }
}

} // verus!
