//! Facilities shared by the pipeline stages.

pub mod error_log;
