//! Commit statistics over a tree of local repositories: per-repository
//! commit extraction with deduplication and filtering, aggregation into
//! global histograms and rankings, and projection of the per-day histogram
//! onto a fixed-shape contribution calendar.

pub mod analyzer;
pub mod cli;
pub mod contribution_calendar;
pub mod date;
pub mod day_map;
pub mod error;
pub mod git_parser;
pub mod git_repo;
pub mod local_time;
pub mod sorting;
pub mod sums;
