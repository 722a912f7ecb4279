use tmux_cmc::notification::copy_notification;
use tmux_cmc::notification::unescape_output;
use tmux_cmc::protocol::RawNotification;
use tmux_cmc::Notification;

#[test]
fn unescape_backslash() {
    assert_eq!(unescape_output("a\\134b"), "a\\b");
}

#[test]
fn unescape_cr() {
    assert_eq!(unescape_output("a\\015b"), "a\rb");
}

#[test]
fn unescape_no_escapes() {
    assert_eq!(unescape_output("hello world"), "hello world");
}

// ── further cases ─────────────────────────────────────────────────────────────

#[test]
fn unescape_lone_backslash_kept() {
    assert_eq!(unescape_output("a\\b"), "a\\b");
    assert_eq!(unescape_output("end\\"), "end\\");
}

#[test]
fn unescape_reads_at_most_three_digits() {
    assert_eq!(unescape_output("\\1011"), "A1");
}

#[test]
fn unescape_short_octal_runs() {
    assert_eq!(unescape_output("\\7x"), "\u{7}x");
    assert_eq!(unescape_output("\\12"), "\n");
    assert_eq!(unescape_output("\\8"), "\\8");
}

#[test]
fn unescape_code_above_ascii() {
    assert_eq!(unescape_output("\\777"), "\u{1ff}");
}

fn raw(kind: &str, rest: &str) -> RawNotification {
    RawNotification { kind: kind.into(), rest: rest.into() }
}

#[test]
fn output_notification() {
    match Notification::from_raw(&raw("output", "%1 hello\\134world")) {
        Notification::Output { pane, data } => {
            assert_eq!(pane.as_str(), "%1");
            assert_eq!(data, "hello\\world");
        }
        other => panic!("{other:?}"),
    }
    match Notification::from_raw(&raw("output", "%2")) {
        Notification::Output { pane, data } => {
            assert_eq!(pane.as_str(), "%2");
            assert_eq!(data, "");
        }
        other => panic!("{other:?}"),
    }
}

#[test]
fn pane_exited_notification() {
    match Notification::from_raw(&raw("pane-exited", "%3 -2")) {
        Notification::PaneExited { pane, exit_code } => {
            assert_eq!(pane.as_str(), "%3");
            assert_eq!(exit_code, -2);
        }
        other => panic!("{other:?}"),
    }
    match Notification::from_raw(&raw("pane-exited", "")) {
        Notification::PaneExited { pane, exit_code } => {
            assert_eq!(pane.as_str(), "%0");
            assert_eq!(exit_code, 0);
        }
        other => panic!("{other:?}"),
    }
    match Notification::from_raw(&raw("pane-exited", "%4 nope")) {
        Notification::PaneExited { exit_code, .. } => assert_eq!(exit_code, 0),
        other => panic!("{other:?}"),
    }
}

#[test]
fn session_changed_notification() {
    match Notification::from_raw(&raw("session-changed", "$1 my session")) {
        Notification::SessionChanged { session, name } => {
            assert_eq!(session.as_str(), "$1");
            assert_eq!(name, "my session");
        }
        other => panic!("{other:?}"),
    }
}

#[test]
fn window_notifications() {
    match Notification::from_raw(&raw("window-add", "@2")) {
        Notification::WindowAdded { window } => assert_eq!(window.as_str(), "@2"),
        other => panic!("{other:?}"),
    }
    match Notification::from_raw(&raw("window-close", "")) {
        Notification::WindowClosed { window } => assert_eq!(window.as_str(), "@0"),
        other => panic!("{other:?}"),
    }
}

#[test]
fn simple_and_unhandled_notifications() {
    assert!(matches!(Notification::from_raw(&raw("sessions-changed", "")), Notification::SessionsChanged));
    assert!(matches!(Notification::from_raw(&raw("exit", "")), Notification::Exit));
    match Notification::from_raw(&raw("future-thing", "foo bar")) {
        Notification::Unhandled { raw } => assert_eq!(raw, "%future-thing foo bar"),
        other => panic!("{other:?}"),
    }
}

#[test]
fn unescape_undoes_tmux_escaping() {
    // tmux writes a backslash as \134 and a carriage return as \015.
    assert_eq!(unescape_output("a\\134b\\015c"), "a\\b\rc");
    assert_eq!(unescape_output("\\134\\134"), "\\\\");
}

#[test]
fn output_notification_splits_at_first_space() {
    match Notification::from_raw(&raw("output", "%5 two  spaces\\015")) {
        Notification::Output { pane, data } => {
            assert_eq!(pane.as_str(), "%5");
            assert_eq!(data, "two  spaces\r");
        }
        other => panic!("{other:?}"),
    }
}

#[test]
fn copy_notification_keeps_everything() {
    let n = Notification::from_raw(&raw("session-changed", "$2 work"));
    match copy_notification(&n) {
        Notification::SessionChanged { session, name } => {
            assert_eq!(session.as_str(), "$2");
            assert_eq!(name, "work");
        }
        other => panic!("{other:?}"),
    }
}
