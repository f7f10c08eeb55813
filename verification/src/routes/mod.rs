//! The operations that the server offers, one module per route.

pub mod add;
pub mod default;
pub mod frontpage;
pub mod groups;
pub mod halt;
pub mod queue;
pub mod response;
pub mod subjects;
pub mod types;
pub mod user;
pub mod users;
pub mod view;
