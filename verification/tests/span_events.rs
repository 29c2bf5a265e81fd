use hotshot_logging::span_events::{parse_span_events, SpanEvents};

fn events(new: bool, enter: bool, exit: bool, close: bool) -> SpanEvents {
    SpanEvents { new, enter, exit, close }
}

fn none() -> SpanEvents {
    events(false, false, false, false)
}

#[test]
fn each_name_gives_its_points() {
    assert_eq!(parse_span_events("new"), events(true, false, false, false));
    assert_eq!(parse_span_events("enter"), events(false, true, false, false));
    assert_eq!(parse_span_events("exit"), events(false, false, true, false));
    assert_eq!(parse_span_events("close"), events(false, false, false, true));
    assert_eq!(parse_span_events("active"), events(false, true, true, false));
    assert_eq!(parse_span_events("full"), events(true, true, true, true));
}

#[test]
fn active_is_enter_and_exit() {
    assert_eq!(parse_span_events("active"), parse_span_events("enter,exit"));
}

#[test]
fn full_is_all_four_points() {
    assert_eq!(parse_span_events("full"), parse_span_events("new,enter,exit,close"));
}

#[test]
fn list_is_union_of_entries() {
    assert_eq!(parse_span_events("new,close"), events(true, false, false, true));
    assert_eq!(parse_span_events("exit,new,enter"), events(true, true, true, false));
    assert_eq!(parse_span_events("active,close"), events(false, true, true, true));
}

#[test]
fn order_and_repetition_do_not_matter() {
    assert_eq!(parse_span_events("close,new"), parse_span_events("new,close"));
    assert_eq!(parse_span_events("exit,exit"), parse_span_events("exit"));
    assert_eq!(parse_span_events("new,full,new"), parse_span_events("full"));
}

#[test]
fn empty_and_unknown_entries_name_nothing() {
    assert_eq!(parse_span_events(""), none());
    assert_eq!(parse_span_events("none"), none());
    assert_eq!(parse_span_events("NEW"), none());
    assert_eq!(parse_span_events("ne w"), none());
    assert_eq!(parse_span_events("new exit"), none());
    assert_eq!(parse_span_events(",,"), none());
    assert_eq!(parse_span_events("bogus,close"), parse_span_events("close"));
    assert_eq!(parse_span_events(",new,,"), parse_span_events("new"));
}

#[test]
fn white_space_around_entries_is_ignored() {
    assert_eq!(parse_span_events("  new , \texit\n"), events(true, false, true, false));
    assert_eq!(parse_span_events("\u{3000}close\u{a0}"), events(false, false, false, true));
    assert_eq!(parse_span_events("\r\nfull \u{2028}"), events(true, true, true, true));
    assert_eq!(parse_span_events("   "), none());
}

#[test]
fn none_and_union_with() {
    assert_eq!(SpanEvents::none(), none());
    let a = events(true, false, true, false);
    let b = events(false, false, true, true);
    assert_eq!(a.union_with(b), events(true, false, true, true));
    assert_eq!(a.union_with(SpanEvents::none()), a);
}
