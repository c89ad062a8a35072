//! Incremental fuzzy filtering and selection over a fixed list of candidates.
pub mod matcher;
pub mod ranking;
pub mod app;
pub mod session;
pub mod ui;
