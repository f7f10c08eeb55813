//! The things the server keeps: records, subjects, groups and operators.

pub mod data;
pub mod group;
pub mod subject;
pub mod user;
