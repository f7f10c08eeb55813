//! Routes that make operators: invites and registration.

pub mod invite;
pub mod register;
