//! Routes about the operator who calls: who they are, what they own, and
//! their key.

pub mod from_request_parts;
pub mod login;
pub mod reset;
