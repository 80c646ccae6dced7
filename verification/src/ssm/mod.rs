//! The state-space layer beneath the mixers: its configuration, its scan, and the
//! reversal in time that a bidirectional layer needs.

pub mod bands;
pub mod config;
pub mod scan;
