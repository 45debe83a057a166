use hypr_rules::events::{split_event, Event, EventRouter};
use hypr_rules::rules::StaticRule;
use hypr_rules::send::{apply_static_rules, dispatch_command, notify_command, NotifyIcon};
use hypr_rules::window::{parse_active_window, parse_hex_span, split_lines, Window};

fn s(x: &str) -> String {
    x.to_string()
}

#[test]
fn active_window_record_reaches_only_its_subscribers() {
    let mut router = EventRouter::new();
    let a = router.subscribe(Event::ActiveWindow);
    let _b = router.subscribe(Event::ActiveWindowV2);
    let c = router.subscribe(Event::ActiveWindow);
    let _d = router.subscribe(Event::ConfigReloaded);
    let (ids, payload) = router.process_events("activewindow>>firefox,Mozilla Firefox");
    assert_eq!(ids, vec![a, c]);
    assert_eq!(payload, "firefox,Mozilla Firefox");
}

#[test]
fn unrecognized_record_reaches_nobody() {
    let mut router = EventRouter::new();
    router.subscribe(Event::ActiveWindow);
    router.subscribe(Event::Unrecognized);
    let (ids, _) = router.process_events("openwindow>>80a0,2,kitty,term");
    assert!(ids.is_empty());
    let (ids, _) = router.process_events("no delimiter here");
    assert!(ids.is_empty());
}

#[test]
fn event_names() {
    assert_eq!(Event::from_str("activewindow"), Event::ActiveWindow);
    assert_eq!(Event::from_str("activewindowv2"), Event::ActiveWindowV2);
    assert_eq!(Event::from_str("configreloaded"), Event::ConfigReloaded);
    assert_eq!(Event::from_str("ActiveWindow"), Event::Unrecognized);
}

#[test]
fn split_at_first_delimiter() {
    assert_eq!(split_event("a>>b>>c"), Some((s("a"), s("b>>c"))));
    assert_eq!(split_event(">>"), Some((s(""), s(""))));
    assert_eq!(split_event("a>b"), None);
}

const REPORT: &str = "Window 55d5c8a0 -> kitty:\n\tmapped: 1\n\tclass: kitty\n\ttitle: my shell\n\tpid: 42\n";

#[test]
fn parses_active_window_report() {
    let w = parse_active_window(REPORT).unwrap();
    assert_eq!(w.address, 0x55d5c8a0);
    assert_eq!(w.class, "kitty");
    assert_eq!(w.title, "my shell");
}

#[test]
fn invalid_report_is_no_window() {
    assert!(parse_active_window("Invalid").is_none());
    assert!(parse_active_window("").is_none());
    assert!(parse_active_window("Window zz -> x:\n\tclass: a\n\ttitle: b\n").is_none());
    assert!(parse_active_window("Window 1f -> x:\n\tclass: a\n").is_none());
}

#[test]
fn hex_span_limits() {
    let v: Vec<char> = "7fffffffffffffff".chars().collect();
    assert_eq!(parse_hex_span(&v, 0, v.len()), Some(isize::MAX));
    let v: Vec<char> = "8000000000000000".chars().collect();
    assert_eq!(parse_hex_span(&v, 0, v.len()), None);
    let v: Vec<char> = "aBc".chars().collect();
    assert_eq!(parse_hex_span(&v, 0, 3), Some(0xabc));
    assert_eq!(parse_hex_span(&v, 1, 1), None);
}

#[test]
fn runtime_rule_applies_to_matching_window() {
    let rule = StaticRule {
        title: s("Foo"),
        class: s("Bar"),
        properties: vec![s("setfloating "), s("movewindowpixel exact 10,20,")],
    };
    let w = Window { address: 0x1a2b, class: s("Bar"), title: s("Foo") };
    assert_eq!(
        rule.apply_properties(&w),
        vec![s("setfloating address:0x1a2b"), s("movewindowpixel exact 10,20,address:0x1a2b")]
    );
    let other = Window { address: 0x1a2b, class: s("Bar"), title: s("Baz") };
    assert!(rule.apply_properties(&other).is_empty());
    let rules = vec![rule];
    assert_eq!(apply_static_rules(&Some(w), &rules).len(), 2);
    assert!(apply_static_rules(&None, &rules).is_empty());
}

#[test]
fn command_texts() {
    assert_eq!(dispatch_command("pin address:0x1"), "dispatch pin address:0x1");
    assert_eq!(
        notify_command(NotifyIcon::Info, 5000, "rgb(ff1ea3)", "hello"),
        "notify 1 5000 rgb(ff1ea3) hello"
    );
    assert_eq!(notify_command(NotifyIcon::NoIcon, 0, "0", "x"), "notify -1 0 0 x");
}

#[test]
fn parses_firefox_report() {
    let w = parse_active_window(
        "Window 55d1e3a0 -> Mozilla Firefox:\n\tclass: firefox\n\ttitle: Mozilla Firefox\n",
    )
    .unwrap();
    assert_eq!(w.address, 0x55d1e3a0);
    assert_eq!(w.class, "firefox");
    assert_eq!(w.title, "Mozilla Firefox");
}

#[test]
fn report_without_string_title_is_no_window() {
    assert!(parse_active_window("Window 1f -> x:\n\tclass: a\n\ttitle: [1, 2]\n").is_none());
    assert!(parse_active_window("Window 1f -> x:\n\tclass: a\n\ttitle: 5\n").is_none());
    assert!(parse_active_window("Window 1f -> x:\n\t- a\n").is_none());
    assert!(parse_active_window("Window 1f ->").is_none());
}

#[test]
fn splits_lines_like_std() {
    for text in ["", "a", "a\n", "a\r\nb", "a\n\nb\r", "\n", "x\r\n\r\n", "foo\r\nbar\n\nbaz\r"] {
        let expected: Vec<String> = text.lines().map(|l| l.to_string()).collect();
        assert_eq!(split_lines(text), expected, "{text:?}");
    }
}
