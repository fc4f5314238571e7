//! Search-cache engine of an interactive launcher: an index of launchable
//! entries, per-query memoized result lists, fuzzy ranking and query dispatch.

pub mod keyed;
pub mod text;
pub mod entry;
pub mod result;
pub mod cache;
pub mod config;
pub mod rank;
pub mod query;
pub mod input;
pub mod launch;
