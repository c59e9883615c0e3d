//! An in-memory collector of the statistics and logs that remote workers report, per
//! account and per keyword, with a retention sweep that bounds the logs kept.
pub mod cli;
pub mod helpers;
pub mod laws;
pub mod models;
pub mod store;
pub mod sweeper;
