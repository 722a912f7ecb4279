//! Completed responses to commands, and what the client makes of them.
use vstd::prelude::*;

use crate::error::TmuxError;
use crate::ids::{is_valid_id, PaneId, SessionId, WindowId};
use crate::text::{chars_of, join, join_spec, string_from_chars, strings_view, trim, trim_spec};

verus! {

/// A completed response from tmux to a sent command.
#[derive(Debug, Clone)]
pub struct Response {
    pub serial: u64,
    pub flags: u32,
    /// Lines between `%begin` and `%end`. Empty for commands with no output.
    pub output: Vec<String>,
    /// True if tmux returned `%error` instead of `%end`.
    pub is_error: bool,
}

/// A [`Response`] with its output lines taken as character sequences.
pub struct ResponseView {
    pub serial: u64,
    pub flags: u32,
    pub output: Seq<Seq<char>>,
    pub is_error: bool,
}

impl View for Response {
    type V = ResponseView;

    open spec fn view(&self) -> ResponseView {
        ResponseView {
            serial: self.serial,
            flags: self.flags,
            output: strings_view(self.output@),
            is_error: self.is_error,
        }
    }
}

impl Response {
    /// The first output line, if any.
    pub fn first_line(&self) -> (r: Option<&str>)
        ensures
            self.output@.len() == 0 ==> r is None,
            self.output@.len() > 0 ==> (r matches Some(l) && l@ == self.output@[0]@),
    {
        if self.output.len() > 0 {
            Some(self.output[0].as_str())
        } else {
            None
        }
    }

    /// All output joined by newlines.
    pub fn text(&self) -> (r: String)
        ensures
            r@ == join_spec(strings_view(self.output@), "\n"@),
    {
        join(&self.output, "\n")
    }

    /// What a command's caller gets: the response itself, or, when tmux
    /// answered with `%error`, a command error carrying the serial and the
    /// output joined by newlines.
    pub fn into_result(self) -> (r: Result<Response, TmuxError>)
        ensures
            !self.is_error ==> r == Ok::<Response, TmuxError>(self),
            self.is_error ==> (r matches Err(TmuxError::CommandError { serial, message }) && serial
                == self.serial && message@ == join_spec(strings_view(self.output@), "\n"@)),
    {
        if self.is_error {
            Err(TmuxError::CommandError { serial: self.serial, message: self.text() })
        } else {
            Ok(self)
        }
    }
}

/// The answer to `has-session`: a command error means the session does not
/// exist; any other error is passed on.
pub fn session_exists(outcome: Result<Response, TmuxError>) -> (r: Result<bool, TmuxError>)
    ensures
        match outcome {
            Ok(_) => r == Ok::<bool, TmuxError>(true),
            Err(TmuxError::CommandError { .. }) => r == Ok::<bool, TmuxError>(false),
            Err(e) => r == Err::<bool, TmuxError>(e),
        },
{
    match outcome {
        Ok(_) => Ok(true),
        Err(TmuxError::CommandError { .. }) => Ok(false),
        Err(e) => Err(e),
    }
}

/// The message for a missing id: `empty <command> output`.
pub open spec fn empty_output_message(command: Seq<char>) -> Seq<char> {
    "empty "@ + command + " output"@
}

/// The message for an unreadable id: `invalid <what> id: <line>`.
pub open spec fn invalid_id_message(what: Seq<char>, line: Seq<char>) -> Seq<char> {
    "invalid "@ + what + " id: "@ + line
}

/// The first output line, trimmed, when it is an id with the given sigil; the
/// error the client reports otherwise.
pub open spec fn id_from_first_line(
    output: Seq<Seq<char>>,
    sigil: char,
    command: Seq<char>,
    what: Seq<char>,
) -> Result<Seq<char>, Seq<char>> {
    if output.len() == 0 {
        Err(empty_output_message(command))
    } else if is_valid_id(trim_spec(output[0]), sigil) {
        Ok(trim_spec(output[0]))
    } else {
        Err(invalid_id_message(what, output[0]))
    }
}

/// Checks the first line of `resp` for an id; on success returns the trimmed
/// line, on failure the message for an unexpected response.
fn first_line_id(resp: &Response, sigil: char, command: &str, what: &str) -> (r: Result<
    String,
    String,
>)
    ensures
        r matches Ok(s) ==> id_from_first_line(resp@.output, sigil, command@, what@) == Ok::<
            Seq<char>,
            Seq<char>,
        >(s@),
        r matches Err(m) ==> id_from_first_line(resp@.output, sigil, command@, what@) == Err::<
            Seq<char>,
            Seq<char>,
        >(m@),
{
    match resp.first_line() {
        None => {
            let mut m = "empty ".to_owned();
            m.append(command);
            m.append(" output");
            Err(m)
        },
        Some(line) => {
            let v = chars_of(line);
            let t = string_from_chars(trim(v.as_slice()).as_slice());
            if crate::ids::check_id(t.as_str(), sigil) {
                Ok(t)
            } else {
                let mut m = "invalid ".to_owned();
                m.append(what);
                m.append(" id: ");
                m.append(line);
                Err(m)
            }
        },
    }
}

/// The session id that `new-session -P` printed.
pub fn created_session_id(resp: &Response) -> (r: Result<SessionId, TmuxError>)
    ensures
        match id_from_first_line(resp@.output, '$', "new-session"@, "session"@) {
            Ok(s) => r matches Ok(id) && id@ == s,
            Err(m) => r matches Err(TmuxError::UnexpectedResponse(msg)) && msg@ == m,
        },
{
    match first_line_id(resp, '$', "new-session", "session") {
        Ok(s) => Ok(SessionId::new_unchecked(s.as_str())),
        Err(m) => Err(TmuxError::UnexpectedResponse(m)),
    }
}

/// The window id that `new-window -P` printed.
pub fn created_window_id(resp: &Response) -> (r: Result<WindowId, TmuxError>)
    ensures
        match id_from_first_line(resp@.output, '@', "new-window"@, "window"@) {
            Ok(s) => r matches Ok(id) && id@ == s,
            Err(m) => r matches Err(TmuxError::UnexpectedResponse(msg)) && msg@ == m,
        },
{
    match first_line_id(resp, '@', "new-window", "window") {
        Ok(s) => Ok(WindowId::new_unchecked(s.as_str())),
        Err(m) => Err(TmuxError::UnexpectedResponse(m)),
    }
}

/// The pane id that `split-window -P` printed.
pub fn created_pane_id(resp: &Response) -> (r: Result<PaneId, TmuxError>)
    ensures
        match id_from_first_line(resp@.output, '%', "split-window"@, "pane"@) {
            Ok(s) => r matches Ok(id) && id@ == s,
            Err(m) => r matches Err(TmuxError::UnexpectedResponse(msg)) && msg@ == m,
        },
{
    match first_line_id(resp, '%', "split-window", "pane") {
        Ok(s) => Ok(PaneId::new_unchecked(s.as_str())),
        Err(m) => Err(TmuxError::UnexpectedResponse(m)),
    }
}

} // verus!

verus! {

/// When the first output line is the sigil followed by the decimal digits of
/// any `u64`, that line is the id read back, whatever its length.
pub proof fn lemma_printed_id_accepted(
    n: u64,
    sigil: char,
    rest: Seq<Seq<char>>,
    command: Seq<char>,
    what: Seq<char>,
)
    requires
        !crate::text::is_unicode_ws(sigil),
    ensures
        id_from_first_line(
            seq![seq![sigil] + crate::number::decimal_digits(n as nat)] + rest,
            sigil,
            command,
            what,
        ) == Ok::<Seq<char>, Seq<char>>(seq![sigil] + crate::number::decimal_digits(n as nat)),
{
    let d = crate::number::decimal_digits(n as nat);
    crate::number::lemma_decimal_digits_round_trip(n as nat);
    let x = seq![sigil] + d;
    let out = seq![x] + rest;
    assert(out[0] == x);
    assert(x[0] == sigil);
    assert(crate::text::trim_start_spec(x) == x);
    let last = x[x.len() - 1];
    assert(last == d[d.len() - 1]);
    assert(crate::number::is_digit(d[d.len() - 1]));
    assert(x.last() == last);
    assert(crate::text::trim_end_spec(x) == x);
    assert(trim_spec(x) == x);
    assert(x.drop_first() =~= d);
    assert(crate::number::unsigned_digits(d) == d);
    assert(crate::number::parse_unsigned_spec(d, u64::MAX as nat) == Some(n as nat));
    assert(is_valid_id(x, sigil));
}

} // verus!
