//! Streaming log analysis: line parsing, filtering, rule evaluation with
//! sliding windows, statistics and reports.

pub mod text;
pub mod log_entry;
pub mod timestamp;
pub mod strmap;
pub mod config;
pub mod rules;
pub mod stats;
pub mod report;
pub mod pipeline;
pub mod tail;
pub mod session;
pub mod ui;
