//! Helpers shared by the rest of the crate.

pub mod clock;
pub mod deserialise_array;
pub mod random;
pub mod search;
pub mod text;
