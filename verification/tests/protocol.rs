use tmux_cmc::protocol::{parse_line, Line, RawNotification};

#[test]
fn parses_begin() {
    let line = parse_line("%begin 1712000000 1 0");
    assert_eq!(line, Line::Begin { ts: 1712000000, serial: 1, flags: 0 });
}

#[test]
fn parses_end() {
    let line = parse_line("%end 1712000000 1 0");
    assert_eq!(line, Line::End { ts: 1712000000, serial: 1, flags: 0 });
}

#[test]
fn parses_error() {
    let line = parse_line("%error 1712000000 2 0");
    assert_eq!(line, Line::Error { ts: 1712000000, serial: 2, flags: 0 });
}

#[test]
fn parses_output_notification() {
    let line = parse_line("%output %1 hello world");
    assert_eq!(
        line,
        Line::Notification(RawNotification { kind: "output".into(), rest: "%1 hello world".into() })
    );
}

#[test]
fn parses_pane_exited() {
    let line = parse_line("%pane-exited %3 0");
    assert_eq!(
        line,
        Line::Notification(RawNotification { kind: "pane-exited".into(), rest: "%3 0".into() })
    );
}

#[test]
fn parses_session_changed() {
    let line = parse_line("%session-changed $1 my-session");
    assert_eq!(
        line,
        Line::Notification(RawNotification {
            kind: "session-changed".into(),
            rest: "$1 my-session".into(),
        })
    );
}

#[test]
fn parses_window_add() {
    let line = parse_line("%window-add @2");
    assert_eq!(
        line,
        Line::Notification(RawNotification { kind: "window-add".into(), rest: "@2".into() })
    );
}

#[test]
fn parses_window_close() {
    let line = parse_line("%window-close @5");
    assert_eq!(
        line,
        Line::Notification(RawNotification { kind: "window-close".into(), rest: "@5".into() })
    );
}

#[test]
fn parses_sessions_changed() {
    let line = parse_line("%sessions-changed");
    assert_eq!(
        line,
        Line::Notification(RawNotification { kind: "sessions-changed".into(), rest: "".into() })
    );
}

#[test]
fn parses_exit() {
    let line = parse_line("%exit");
    assert_eq!(line, Line::Notification(RawNotification { kind: "exit".into(), rest: "".into() }));
}

#[test]
fn parses_unknown_notification() {
    let line = parse_line("%future-thing foo bar");
    assert_eq!(
        line,
        Line::Notification(RawNotification { kind: "future-thing".into(), rest: "foo bar".into() })
    );
}

#[test]
fn parses_ordinary_output() {
    let line = parse_line("$3");
    assert_eq!(line, Line::Output("$3".into()));
}

#[test]
fn parses_empty_output() {
    let line = parse_line("");
    assert_eq!(line, Line::Output("".into()));
}

#[test]
fn parses_output_with_percent_in_content() {
    // A line that starts with % but has a non-keyword word — treated as notification
    // with kind "bad" and rest "data"
    let line = parse_line("%bad data");
    assert_eq!(
        line,
        Line::Notification(RawNotification { kind: "bad".into(), rest: "data".into() })
    );
}

#[test]
fn begin_serial_zero_handshake() {
    // tmux emits %begin 0 0 0 / %end 0 0 0 on startup (pre-3.5a)
    let begin = parse_line("%begin 0 0 0");
    let end = parse_line("%end 0 0 0");
    assert_eq!(begin, Line::Begin { ts: 0, serial: 0, flags: 0 });
    assert_eq!(end, Line::End { ts: 0, serial: 0, flags: 0 });
}

#[test]
fn strips_dcs_prefix_from_begin() {
    // tmux 3.5a+ wraps the initial line in a DCS sequence
    let line = parse_line("\x1bP1000p%begin 1775252542 271 0");
    assert_eq!(line, Line::Begin { ts: 1775252542, serial: 271, flags: 0 });
}

#[test]
fn no_dcs_prefix_unchanged() {
    // Normal line without DCS prefix
    let line = parse_line("%end 1712000000 5 0");
    assert_eq!(line, Line::End { ts: 1712000000, serial: 5, flags: 0 });
}

// ── further cases ─────────────────────────────────────────────────────────────

#[test]
fn begin_with_bad_number_is_a_notification() {
    let line = parse_line("%begin 17x 1 0");
    assert_eq!(
        line,
        Line::Notification(RawNotification { kind: "begin".into(), rest: "17x 1 0".into() })
    );
}

#[test]
fn begin_with_two_numbers_is_a_notification() {
    let line = parse_line("%end 1 2");
    assert_eq!(line, Line::Notification(RawNotification { kind: "end".into(), rest: "1 2".into() }));
}

#[test]
fn begin_flags_overflowing_u32_is_a_notification() {
    let line = parse_line("%begin 1 2 4294967296");
    assert_eq!(
        line,
        Line::Notification(RawNotification { kind: "begin".into(), rest: "1 2 4294967296".into() })
    );
}

#[test]
fn begin_tolerates_extra_whitespace_and_words() {
    assert_eq!(parse_line("%begin  7\t8  9 extra"), Line::Begin { ts: 7, serial: 8, flags: 9 });
    assert_eq!(parse_line("%end +7 8 9"), Line::End { ts: 7, serial: 8, flags: 9 });
}

#[test]
fn timestamp_at_u64_limit() {
    assert_eq!(
        parse_line("%begin 18446744073709551615 1 0"),
        Line::Begin { ts: u64::MAX, serial: 1, flags: 0 }
    );
    assert!(matches!(parse_line("%begin 18446744073709551616 1 0"), Line::Notification(_)));
}

#[test]
fn esc_line_without_percent_is_output() {
    assert_eq!(parse_line("\x1bP1000p"), Line::Output("\x1bP1000p".into()));
}

#[test]
fn dcs_prefix_before_notification() {
    assert_eq!(
        parse_line("\x1bP1000p%exit"),
        Line::Notification(RawNotification { kind: "exit".into(), rest: "".into() })
    );
}

#[test]
fn percent_alone_is_empty_notification() {
    assert_eq!(
        parse_line("%"),
        Line::Notification(RawNotification { kind: "".into(), rest: "".into() })
    );
}
