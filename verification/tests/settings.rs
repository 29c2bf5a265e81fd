use hotshot_logging::settings::{logging_settings, uses_json_format, LoggingSettings};
use hotshot_logging::span_events::SpanEvents;

#[test]
fn json_only_for_exact_value() {
    assert!(uses_json_format(Some("json")));
    assert!(!uses_json_format(Some("JSON")));
    assert!(!uses_json_format(Some(" json")));
    assert!(!uses_json_format(Some("json\n")));
    assert!(!uses_json_format(Some("")));
    assert!(!uses_json_format(Some("text")));
    assert!(!uses_json_format(None));
}

#[test]
fn unset_variables_give_defaults() {
    assert_eq!(
        logging_settings(None, None),
        LoggingSettings { span_events: SpanEvents::none(), json: false }
    );
}

#[test]
fn settings_follow_the_variables() {
    let s = logging_settings(Some("new, close"), Some("json"));
    assert_eq!(s.span_events, SpanEvents { new: true, enter: false, exit: false, close: true });
    assert!(s.json);
    let s = logging_settings(Some("active"), Some("pretty"));
    assert_eq!(s.span_events, SpanEvents { new: false, enter: true, exit: true, close: false });
    assert!(!s.json);
}
