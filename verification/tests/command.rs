use tmux_cmc::command::{
    has_session, kill_pane, kill_session, new_session, new_window, send_keys, set_option,
    shell_escape, split_pane, NewSessionOptions, NewWindowOptions, OptionTarget, SplitPaneOptions,
};
use tmux_cmc::{PaneId, SessionId, WindowId};

#[test]
fn shell_escape_simple() {
    assert_eq!(shell_escape("hello"), "hello");
}

#[test]
fn shell_escape_with_spaces() {
    assert_eq!(shell_escape("hello world"), "'hello world'");
}

#[test]
fn shell_escape_with_quotes() {
    assert_eq!(shell_escape("it's"), r"'it'\''s'");
}

#[test]
fn shell_escape_empty() {
    assert_eq!(shell_escape(""), "''");
}

#[test]
fn shell_escape_strips_newline() {
    // After stripping \n, "foobar" is all alphanumeric → unquoted
    assert_eq!(shell_escape("foo\nbar"), "foobar");
}

#[test]
fn shell_escape_strips_cr() {
    assert_eq!(shell_escape("foo\rbar"), "foobar");
}

#[test]
fn shell_escape_strips_null() {
    assert_eq!(shell_escape("foo\0bar"), "foobar");
}

#[test]
fn shell_escape_injection_attempt() {
    // Without newline stripping, this would send "kill-server" as a
    // separate tmux command. With stripping, it becomes one safe string.
    let result = shell_escape("foo\nkill-server");
    assert!(!result.contains('\n'), "newline must not survive escaping");
    assert_eq!(result, "fookill-server");
}

#[test]
fn shell_escape_strips_newline_preserves_quoting() {
    // If the remaining string has special chars, it still gets quoted
    assert_eq!(shell_escape("foo bar\nbaz"), "'foo barbaz'");
}

#[test]
fn shell_escape_only_control_chars() {
    assert_eq!(shell_escape("\n\r\0"), "''");
}

// ── further cases ─────────────────────────────────────────────────────────────

#[test]
fn shell_escape_plain_punctuation_unquoted() {
    assert_eq!(shell_escape("a-b_c.d/e:f"), "a-b_c.d/e:f");
}

#[test]
fn shell_escape_non_ascii_is_quoted() {
    assert_eq!(shell_escape("héllo"), "'héllo'");
}

#[test]
fn shell_escape_only_quote() {
    assert_eq!(shell_escape("'"), r"''\'''");
}

#[test]
fn has_session_command() {
    assert_eq!(has_session("my-session"), "has-session -t my-session");
    assert_eq!(has_session("a b"), "has-session -t 'a b'");
}

#[test]
fn new_session_command_named() {
    let opts = NewSessionOptions::named("demo");
    assert_eq!(new_session(&opts), "new-session -d -s demo -P -F '#{session_id}'");
}

#[test]
fn new_session_command_default() {
    let opts = NewSessionOptions::default();
    assert_eq!(new_session(&opts), "new-session -P -F '#{session_id}'");
}

#[test]
fn new_session_command_with_directory() {
    let mut opts = NewSessionOptions::named("w");
    opts.start_directory = Some("/tmp/my dir".into());
    assert_eq!(new_session(&opts), "new-session -d -s w -c '/tmp/my dir' -P -F '#{session_id}'");
}

#[test]
fn kill_session_command() {
    let id = SessionId::new("$4").unwrap();
    assert_eq!(kill_session(&id), "kill-session -t $4");
}

#[test]
fn new_window_command() {
    let mut opts = NewWindowOptions::default();
    opts.session = SessionId::new("$2").unwrap();
    opts.name = Some("logs".into());
    opts.detached = true;
    opts.start_command = Some("tail -f x".into());
    assert_eq!(new_window(&opts), "new-window -d -t $2 -n logs -P -F '#{window_id}' 'tail -f x'");
}

#[test]
fn new_window_command_default() {
    assert_eq!(new_window(&NewWindowOptions::default()), "new-window -t $0 -P -F '#{window_id}'");
}

#[test]
fn split_pane_commands() {
    let mut opts = SplitPaneOptions::default();
    assert_eq!(split_pane(&opts), "split-window -v -t @0 -P -F '#{pane_id}'");
    opts.vertical = true;
    opts.target = WindowId::new("@7").unwrap();
    opts.start_command = Some("htop".into());
    assert_eq!(split_pane(&opts), "split-window -h -t @7 -P -F '#{pane_id}' htop");
}

#[test]
fn kill_pane_command() {
    let id = PaneId::new("%9").unwrap();
    assert_eq!(kill_pane(&id), "kill-pane -t %9");
}

#[test]
fn send_keys_commands() {
    let pane = PaneId::new("%1").unwrap();
    assert_eq!(send_keys(&pane, "echo hi", false), "send-keys -t %1 'echo hi' Enter");
    assert_eq!(send_keys(&pane, "abc", true), "send-keys -t %1 -l abc");
}

#[test]
fn set_option_commands() {
    let s = SessionId::new("$1").unwrap();
    let w = WindowId::new("@2").unwrap();
    let p = PaneId::new("%3").unwrap();
    assert_eq!(set_option(&OptionTarget::Global, "mouse", "on"), "set-option -g mouse on");
    assert_eq!(
        set_option(&OptionTarget::Session(s), "status-left", " my app "),
        "set-option -t $1 status-left ' my app '"
    );
    assert_eq!(
        set_option(&OptionTarget::Window(w), "status-interval", "2"),
        "set-option -t @2 status-interval 2"
    );
    assert_eq!(set_option(&OptionTarget::Pane(p), "x", "y"), "set-option -p -t %3 x y");
}

#[test]
fn commands_stay_on_one_line() {
    let pane = PaneId::new("%1").unwrap();
    let cmds = vec![
        has_session("a\nkill-server"),
        send_keys(&pane, "ls\r\nrm -rf /", false),
        set_option(&OptionTarget::Global, "a\nb", "c\0d"),
        new_session(&NewSessionOptions::named("x\ny")),
    ];
    for c in cmds {
        assert!(!c.contains('\n') && !c.contains('\r') && !c.contains('\0'), "{c}");
    }
}

#[test]
fn option_defaults() {
    let o = NewSessionOptions::default();
    assert!(o.name.is_none() && !o.detached && o.start_directory.is_none());
    let n = NewSessionOptions::named("s");
    assert_eq!(n.name.as_deref(), Some("s"));
    assert!(n.detached);
    let w = NewWindowOptions::default();
    assert_eq!(w.session.as_str(), "$0");
    let p = SplitPaneOptions::default();
    assert_eq!(p.target.as_str(), "@0");
    assert!(!p.vertical);
}

/// What `w` denotes when it is exactly one POSIX-shell word made of unquoted
/// runs of plain characters, `'...'` quoted runs and `\'` escapes.
fn shell_word(w: &str) -> Option<String> {
    let c: Vec<char> = w.chars().collect();
    let mut out = String::new();
    let mut quoted = false;
    let mut i = 0;
    while i < c.len() {
        if quoted {
            if c[i] == '\'' {
                quoted = false;
            } else {
                out.push(c[i]);
            }
            i += 1;
        } else if c[i] == '\'' {
            quoted = true;
            i += 1;
        } else if c[i] == '\\' && i + 1 < c.len() && c[i + 1] == '\'' {
            out.push('\'');
            i += 2;
        } else if c[i].is_ascii_alphanumeric() || "-_./:".contains(c[i]) {
            out.push(c[i]);
            i += 1;
        } else {
            return None;
        }
    }
    if quoted { None } else { Some(out) }
}

#[test]
fn shell_escape_reads_back() {
    for s in ["plain", "with space", "it's", "''", "a\\b", "x\ny'z", "", "\n", "$(rm -rf /)"] {
        let expected: String = s.chars().filter(|c| !matches!(c, '\n' | '\r' | '\0')).collect();
        assert_eq!(shell_word(&shell_escape(s)), Some(expected), "{s:?}");
    }
}

#[test]
fn shell_escape_unchanged_exactly_for_plain_text() {
    for s in ["hello", "a-b_c.d/e:f", "X9"] {
        assert_eq!(shell_escape(s), s);
    }
    for s in ["", "a b", "it's", "é", "a\nb"] {
        assert_ne!(shell_escape(s), s);
    }
}
