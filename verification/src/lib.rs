//! Client side of the tmux control-mode protocol (`tmux -CC`): the wire-format
//! parser, the command builders, the reader's response demultiplexing, the
//! FIFO of waiting callers, and the typed ids, notifications and errors.
use vstd::prelude::*;

pub mod command;
pub mod connection;
pub mod error;
pub mod ids;
pub mod notification;
pub mod number;
pub mod protocol;
pub mod queue;
pub mod reader;
pub mod response;
pub mod text;

pub use command::{NewSessionOptions, NewWindowOptions, OptionTarget, SplitPaneOptions};
pub use connection::ConnectOptions;
pub use error::TmuxError;
pub use ids::{PaneId, SessionId, WindowId};
pub use notification::Notification;
pub use response::Response;

verus! {

/// The result of a library operation.
pub type Result<T> = std::result::Result<T, TmuxError>;

} // verus!
