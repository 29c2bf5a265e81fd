//! The settings that the logging subscriber is built from, decided from the
//! values of the environment variables `RUST_LOG_SPAN_EVENTS`,
//! `RUST_LOG_FORMAT` and `RUST_LOG_FILE` (`None` where one is unset).

use vstd::prelude::*;
use crate::span_events::{SpanEvents, span_events_of, no_events, parse_span_events};
use crate::text::same_text;

verus! {

/// What the subscriber is built with.
#[derive(Clone, Copy, Debug, PartialEq, Eq, Structural)]
pub struct LoggingSettings {
    /// The span life-cycle points that are logged as events.
    pub span_events: SpanEvents,
    /// Whether log lines are written as JSON rather than as text.
    pub json: bool,
}

/// The span points that the value of `RUST_LOG_SPAN_EVENTS` asks for;
/// none when the variable is unset.
pub open spec fn span_events_setting(value: Option<Seq<char>>) -> SpanEvents {
    match value {
        Some(list) => span_events_of(list),
        None => no_events(),
    }
}

/// Whether the value of `RUST_LOG_FORMAT` asks for JSON: it must be exactly
/// `json`.
pub open spec fn json_setting(value: Option<Seq<char>>) -> bool {
    value == Some("json"@)
}

/// An unset `RUST_LOG_SPAN_EVENTS` asks for no point; a set one asks for
/// exactly the points that its list names.
pub proof fn lemma_span_events_setting(list: Seq<char>)
    ensures
        span_events_setting(None) == (SpanEvents {
            new: false,
            enter: false,
            exit: false,
            close: false,
        }),
        span_events_setting(Some(list)) == span_events_of(list),
{
}

/// JSON is chosen exactly when `RUST_LOG_FORMAT` holds the text `json`;
/// every other value, and an unset variable, give plain text.
pub proof fn lemma_json_setting(value: Seq<char>)
    ensures
        json_setting(Some(value)) <==> value == "json"@,
        !json_setting(None),
{
}

/// The view of an optional string.
pub open spec fn opt_view(value: Option<&str>) -> Option<Seq<char>> {
    match value {
        Some(s) => Some(s@),
        None => None,
    }
}

/// Whether log lines are written as JSON, given the value of
/// `RUST_LOG_FORMAT`.
pub fn uses_json_format(log_format: Option<&str>) -> (r: bool)
    ensures
        r == json_setting(opt_view(log_format)),
        r <==> (log_format matches Some(format) && format@ == "json"@),
{
    match log_format {
        Some(format) => same_text(format, "json"),
        None => false,
    }
}

/// The subscriber's settings, given the values of `RUST_LOG_SPAN_EVENTS`
/// and `RUST_LOG_FORMAT`.
pub fn logging_settings(span_events: Option<&str>, log_format: Option<&str>) -> (r:
    LoggingSettings)
    ensures
        r.span_events == span_events_setting(opt_view(span_events)),
        r.json == json_setting(opt_view(log_format)),
        span_events matches Some(list) ==> r.span_events == span_events_of(list@),
        span_events is None ==> r.span_events == (SpanEvents {
            new: false,
            enter: false,
            exit: false,
            close: false,
        }),
        r.json <==> (log_format matches Some(format) && format@ == "json"@),
{
    let events = match span_events {
        Some(list) => parse_span_events(list),
        None => SpanEvents::none(),
    };
    LoggingSettings { span_events: events, json: uses_json_format(log_format) }
}

} // verus!
