//! The errors that the library reports.
use vstd::prelude::*;

verus! {

#[verifier::external_type_specification]
#[verifier::external_body]
pub struct ExIoError(std::io::Error);

/// Everything that can go wrong when talking to tmux.
#[derive(Debug)]
#[non_exhaustive]
pub enum TmuxError {
    /// An I/O error on the connection to tmux.
    Io(std::io::Error),
    /// The `tmux` binary could not be found.
    TmuxNotFound,
    /// tmux did not finish the control-mode handshake in time.
    HandshakeTimeout { timeout: std::time::Duration },
    /// tmux exited before the handshake finished.
    StartupFailed { stderr: String },
    /// tmux answered a command with `%error`.
    CommandError { serial: u64, message: String },
    /// The connection to tmux is gone.
    Disconnected,
    /// A response could not be parsed.
    ParseError(String),
    /// No response arrived in time.
    ResponseTimeout { serial: u64 },
    /// A response did not have the expected form.
    UnexpectedResponse(String),
    /// A string is not a valid entity id.
    InvalidId(String),
}

} // verus!
