//! A bisection assistant for dated releases: it keeps the catalog of candidate releases
//! and the log of verdicts, and decides which release to try next, preferring releases
//! that open a month, a week or a day.

pub mod bisecting;
pub mod controller;
pub mod date;
pub mod error;
pub mod install;
pub mod release_hub;
pub mod releases;
pub mod track;
