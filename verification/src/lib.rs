//! Logging configuration for HotShot nodes: the values that the process
//! environment holds are turned into the settings of the logging subscriber.
//!
//! - [`span_events`] reads the comma separated list of span life-cycle
//!   points to report,
//! - [`log_target`] decides where log lines go,
//! - [`settings`] gathers what the subscriber is built from,
//! - [`text`] holds the character level helpers they share.

pub mod log_target;
pub mod settings;
pub mod span_events;
pub mod text;
