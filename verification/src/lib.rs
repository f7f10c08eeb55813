//! Work coordination for a fleet of data providers.
//!
//! Providers lease profiles from a shared queue, fetch what the profile's
//! platform shows, and submit records that are checked against the active
//! configuration and against the lease they were fetched under. Every rule of
//! that exchange is an ordinary function over an in-memory [`database::Database`],
//! stated over the mathematical view of the state and proved by Verus.

pub mod concepts;
pub mod config;
pub mod database;
pub mod restore;
pub mod routes;
pub mod utils;
