//! Connection settings, and what the outcome of the startup handshake means.
use vstd::prelude::*;
use std::time::Duration;

use crate::error::TmuxError;
use crate::reader::HandshakeState;
use crate::text::{chars_of, string_from_chars, trim, trim_spec};

verus! {

/// The duration of `secs` whole seconds, as `Duration::from_secs` makes it.
pub uninterp spec fn duration_from_secs(secs: u64) -> Duration;

/// `Duration::from_secs`: the duration of `secs` seconds. It is a function of
/// `secs` alone; durations are opaque here, so its value is only named.
#[verifier::external_body]
fn seconds(secs: u64) -> (r: Duration)
    ensures
        r == duration_from_secs(secs),
{
    Duration::from_secs(secs)
}

/// `Duration::clone`: `Duration` is `Copy`, and its clone is the same value.
pub assume_specification[ <std::time::Duration as Clone>::clone ](d: &std::time::Duration) -> (r:
    std::time::Duration)
    ensures
        r == *d,
;

/// Options for establishing a control mode connection.
#[derive(Debug, Clone)]
pub struct ConnectOptions {
    pub socket_name: Option<String>,
    pub handshake_timeout: Duration,
}

impl Default for ConnectOptions {
    /// The default socket, and a handshake timeout of five seconds.
    fn default() -> (r: Self)
        ensures
            r.socket_name is None,
            r.handshake_timeout == duration_from_secs(5),
    {
        ConnectOptions { socket_name: None, handshake_timeout: seconds(5) }
    }
}

/// The message for a tmux that exited during startup: its trimmed error
/// output, or a fixed text when that is empty.
pub open spec fn startup_failure_message(stderr: Seq<char>) -> Seq<char> {
    if trim_spec(stderr).len() == 0 {
        "tmux exited immediately with no error output"@
    } else {
        trim_spec(stderr)
    }
}

/// What `Client::connect` reports once the wait for the handshake is over:
/// success when the handshake completed, a startup failure carrying tmux's
/// error output when tmux exited first, and a timeout when neither happened
/// in time.
pub fn startup_outcome(state: HandshakeState, stderr: &str, timeout: Duration) -> (r: Result<
    (),
    TmuxError,
>)
    ensures
        match state {
            HandshakeState::Ready => r is Ok,
            HandshakeState::Failed => r matches Err(TmuxError::StartupFailed { stderr: m }) && m@
                == startup_failure_message(stderr@),
            HandshakeState::Waiting => r matches Err(TmuxError::HandshakeTimeout { timeout: t })
                && t == timeout,
        },
{
    match state {
        HandshakeState::Ready => Ok(()),
        HandshakeState::Failed => {
            let v = chars_of(stderr);
            let t = trim(v.as_slice());
            let message = if t.len() == 0 {
                "tmux exited immediately with no error output".to_owned()
            } else {
                string_from_chars(t.as_slice())
            };
            Err(TmuxError::StartupFailed { stderr: message })
        },
        HandshakeState::Waiting => Err(TmuxError::HandshakeTimeout { timeout }),
    }
}

} // verus!

verus! {

/// Whether the error's kind (`std::io::Error::kind`) is `ErrorKind::NotFound`.
pub uninterp spec fn io_error_not_found(e: std::io::Error) -> bool;

/// `std::io::Error::kind`, told apart: whether the error's kind is
/// `ErrorKind::NotFound`. It is a function of the error alone; errors are
/// opaque here, so its value is only named.
#[verifier::external_body]
fn is_not_found(e: &std::io::Error) -> (r: bool)
    ensures
        r == io_error_not_found(*e),
{
    matches!(e.kind(), std::io::ErrorKind::NotFound)
}

/// The error for a failed launch of `tmux`: a missing program means tmux is
/// not installed; any other I/O error is passed on.
pub fn launch_failure(e: std::io::Error, not_found: bool) -> (r: TmuxError)
    ensures
        not_found ==> r is TmuxNotFound,
        !not_found ==> r == TmuxError::Io(e),
{
    if not_found {
        TmuxError::TmuxNotFound
    } else {
        TmuxError::Io(e)
    }
}

/// The error reported when spawning `tmux` fails with `e`: `TmuxNotFound`
/// when `e` says the program was not found, `e` itself otherwise.
pub fn spawn_error(e: std::io::Error) -> (r: TmuxError)
    ensures
        io_error_not_found(e) ==> r is TmuxNotFound,
        !io_error_not_found(e) ==> r == TmuxError::Io(e),
{
    let not_found = is_not_found(&e);
    launch_failure(e, not_found)
}

/// The error for a caller whose wait for a response failed: `Disconnected`
/// when the reader dropped the waiter (tmux is gone), `ResponseTimeout`
/// when the time ran out.
pub fn wait_failure(disconnected: bool) -> (r: TmuxError)
    ensures
        disconnected ==> r is Disconnected,
        !disconnected ==> r == (TmuxError::ResponseTimeout { serial: 0 }),
{
    if disconnected {
        TmuxError::Disconnected
    } else {
        TmuxError::ResponseTimeout { serial: 0 }
    }
}

} // verus!
