//! Change watching: deduplicated, rate-limited notifications over a durable,
//! queryable, resumable event log.
pub mod application;
pub mod domain;
pub mod infrastructure;
pub mod interfaces;
