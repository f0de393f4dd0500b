//! Ranks the files of a git repository by code churn — lines added plus lines
//! deleted — across the linear slice of history reachable from a branch tip.
//!
//! The crate is organised around a small mathematical model of the engine:
//! [`model`] holds the specification-level description of commits, diff line
//! events and the churn table; [`table`] implements the aggregate mapping from
//! file paths to line deltas; [`engine`] classifies line events and folds them
//! into the table, one qualifying commit at a time; [`report`] orders the
//! final table and renders it; [`backend`] drives the engine over a real
//! repository through the `git2` crate; [`config`] merges the run
//! configuration from its two sources.

pub mod backend;
pub mod config;
pub mod engine;
pub mod model;
pub mod report;
pub mod table;
