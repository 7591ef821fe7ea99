//! Core of a sync service that mirrors a user's account data (user record,
//! projects, time entries) between a client-held snapshot and a remote
//! authoritative store.
//!
//! The heart of the crate is the conflict-resolution and outcome-merging
//! engine: given the changes made on each side since the last sync, it decides
//! what each side must change, keeps the "at most one running timer" rule, and
//! assembles the final outcome once the changes were pushed.

pub mod applier;
pub mod arbiter;
pub mod auth;
pub mod conflicts;
pub mod engine;
pub mod error;
pub mod laws;
pub mod models;
pub mod outcome;
pub mod resolution;
pub mod wire;
