use std::io::{Error, ErrorKind};
use tmux_cmc::connection::{launch_failure, spawn_error, wait_failure};
use std::time::Duration;

use tmux_cmc::connection::startup_outcome;
use tmux_cmc::reader::HandshakeState;
use tmux_cmc::response::{created_pane_id, created_session_id, created_window_id, session_exists};
use tmux_cmc::{ConnectOptions, Response, TmuxError};

fn resp(lines: &[&str], is_error: bool) -> Response {
    Response { serial: 3, flags: 0, output: lines.iter().map(|s| s.to_string()).collect(), is_error }
}

#[test]
fn first_line_and_text() {
    let r = resp(&["a", "b", "c"], false);
    assert_eq!(r.first_line(), Some("a"));
    assert_eq!(r.text(), "a\nb\nc");
    let e = resp(&[], false);
    assert_eq!(e.first_line(), None);
    assert_eq!(e.text(), "");
}

#[test]
fn into_result_maps_errors() {
    assert!(resp(&["x"], false).into_result().is_ok());
    match resp(&["no such", "session"], true).into_result() {
        Err(TmuxError::CommandError { serial, message }) => {
            assert_eq!(serial, 3);
            assert_eq!(message, "no such\nsession");
        }
        other => panic!("{other:?}"),
    }
}

#[test]
fn session_exists_cases() {
    assert_eq!(session_exists(Ok(resp(&[], false))).unwrap(), true);
    assert_eq!(
        session_exists(Err(TmuxError::CommandError { serial: 1, message: "x".into() })).unwrap(),
        false
    );
    assert!(matches!(session_exists(Err(TmuxError::Disconnected)), Err(TmuxError::Disconnected)));
}

#[test]
fn created_ids() {
    assert_eq!(created_session_id(&resp(&[" $5 \t"], false)).unwrap().as_str(), "$5");
    assert_eq!(created_window_id(&resp(&["@2"], false)).unwrap().as_str(), "@2");
    assert_eq!(created_pane_id(&resp(&["%8", "x"], false)).unwrap().as_str(), "%8");
    match created_session_id(&resp(&[], false)) {
        Err(TmuxError::UnexpectedResponse(m)) => assert_eq!(m, "empty new-session output"),
        other => panic!("{other:?}"),
    }
    match created_window_id(&resp(&["oops"], false)) {
        Err(TmuxError::UnexpectedResponse(m)) => assert_eq!(m, "invalid window id: oops"),
        other => panic!("{other:?}"),
    }
    match created_pane_id(&resp(&[], false)) {
        Err(TmuxError::UnexpectedResponse(m)) => assert_eq!(m, "empty split-window output"),
        other => panic!("{other:?}"),
    }
}

#[test]
fn startup_outcomes() {
    let t = Duration::from_secs(5);
    assert!(startup_outcome(HandshakeState::Ready, "", t).is_ok());
    match startup_outcome(HandshakeState::Failed, "  no server\n", t) {
        Err(TmuxError::StartupFailed { stderr }) => assert_eq!(stderr, "no server"),
        other => panic!("{other:?}"),
    }
    match startup_outcome(HandshakeState::Failed, " \n", t) {
        Err(TmuxError::StartupFailed { stderr }) => {
            assert_eq!(stderr, "tmux exited immediately with no error output")
        }
        other => panic!("{other:?}"),
    }
    match startup_outcome(HandshakeState::Waiting, "", t) {
        Err(TmuxError::HandshakeTimeout { timeout }) => assert_eq!(timeout, t),
        other => panic!("{other:?}"),
    }
}

#[test]
fn connect_options_default() {
    let o = ConnectOptions::default();
    assert!(o.socket_name.is_none());
    assert_eq!(o.handshake_timeout, Duration::from_secs(5));
}

#[test]
fn connect_options_clone_keeps_timeout() {
    let mut o = ConnectOptions::default();
    o.socket_name = Some("example".into());
    o.handshake_timeout = Duration::from_millis(1500);
    let c = o.clone();
    assert_eq!(c.socket_name.as_deref(), Some("example"));
    assert_eq!(c.handshake_timeout, Duration::from_millis(1500));
}

#[test]
fn launch_and_wait_failures() {
    assert!(matches!(spawn_error(Error::from(ErrorKind::NotFound)), TmuxError::TmuxNotFound));
    match spawn_error(Error::from(ErrorKind::PermissionDenied)) {
        TmuxError::Io(e) => assert_eq!(e.kind(), ErrorKind::PermissionDenied),
        other => panic!("{other:?}"),
    }
    assert!(matches!(launch_failure(Error::from(ErrorKind::Other), true), TmuxError::TmuxNotFound));
    assert!(matches!(wait_failure(true), TmuxError::Disconnected));
    assert!(matches!(wait_failure(false), TmuxError::ResponseTimeout { serial: 0 }));
}
