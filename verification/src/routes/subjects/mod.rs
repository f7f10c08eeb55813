//! Routes that make, change and drop subjects.
//!
//! A subject refers to the queue entry of each profile that it watches, once
//! for each time that it lists the profile. Making a subject refers to all its
//! profiles, dropping it drops the references again, and changing it refers to
//! the profiles that are new to it and drops the references to those that
//! left it.

pub mod balance;
pub mod create;
pub mod delete;
pub mod update;
