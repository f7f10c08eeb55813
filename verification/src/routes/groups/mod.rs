//! Routes that make, change and drop groups.
//!
//! A group lists subjects by identifier, and only subjects that exist.

pub mod create;
pub mod delete;
pub mod update;
