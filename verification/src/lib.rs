//! Verified logic of the peisear web layer: the repository policy scans
//! (changelog, command block, scripts, markup), the query-string encoders,
//! the form parsers, the calendar windows and their day buckets, the
//! dashboard's callouts and burnout signals, and the error mapping.

pub mod changelog;
pub mod components;
pub mod config;
pub mod dec_007;
pub mod error;
pub mod handlers;
pub mod jobs;
pub mod js_scan;
pub mod prose_scan;
pub mod source_scans;
pub mod text;
