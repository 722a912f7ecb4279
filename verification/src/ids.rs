//! Typed tmux entity identifiers: sessions `$n`, windows `@n`, panes `%n`.
use vstd::prelude::*;

use crate::error::TmuxError;
use crate::number::parse_unsigned_spec;
use crate::text::{chars_of, slice_chars};

verus! {

/// Whether `s` is `sigil` followed by a decimal `u64` (as `str::parse::<u64>`
/// reads it).
pub open spec fn is_valid_id(s: Seq<char>, sigil: char) -> bool {
    &&& s.len() > 0
    &&& s[0] == sigil
    &&& parse_unsigned_spec(s.drop_first(), u64::MAX as nat) is Some
}

/// Checks `s` against [`is_valid_id`].
pub fn check_id(s: &str, sigil: char) -> (r: bool)
    ensures
        r == is_valid_id(s@, sigil),
{
    let v = chars_of(s);
    if v.len() == 0 || v[0] != sigil {
        return false;
    }
    let rest = slice_chars(v.as_slice(), 1, v.len());
    assert(rest@ =~= s@.drop_first());
    crate::number::parse_unsigned(rest.as_slice(), u64::MAX).is_some()
}

/// A tmux session identifier (`$n`).
#[derive(Debug, Clone, PartialEq, Eq, Hash)]
pub struct SessionId(pub(crate) String);

/// A tmux window identifier (`@n`).
#[derive(Debug, Clone, PartialEq, Eq, Hash)]
pub struct WindowId(pub(crate) String);

/// A tmux pane identifier (`%n`).
#[derive(Debug, Clone, PartialEq, Eq, Hash)]
pub struct PaneId(pub(crate) String);

impl View for SessionId {
    type V = Seq<char>;

    closed spec fn view(&self) -> Seq<char> {
        self.0@
    }
}

impl View for WindowId {
    type V = Seq<char>;

    closed spec fn view(&self) -> Seq<char> {
        self.0@
    }
}

impl View for PaneId {
    type V = Seq<char>;

    closed spec fn view(&self) -> Seq<char> {
        self.0@
    }
}

impl SessionId {
    /// Creates an id from a `$n` string, which is checked.
    pub fn new(s: &str) -> (r: Result<Self, TmuxError>)
        ensures
            is_valid_id(s@, '$') ==> (r matches Ok(id) && id@ == s@),
            !is_valid_id(s@, '$') ==> (r matches Err(TmuxError::InvalidId(m)) && m@ == s@),
    {
        if check_id(s, '$') {
            Ok(SessionId(s.to_owned()))
        } else {
            Err(TmuxError::InvalidId(s.to_owned()))
        }
    }

    /// Creates an id from a string as it is, unchecked.
    pub(crate) fn new_unchecked(s: &str) -> (r: Self)
        ensures
            r@ == s@,
    {
        SessionId(s.to_owned())
    }

    /// The id's text.
    pub fn as_str(&self) -> (r: &str)
        ensures
            r@ == self@,
    {
        self.0.as_str()
    }
}

impl WindowId {
    /// Creates an id from a `@n` string, which is checked.
    pub fn new(s: &str) -> (r: Result<Self, TmuxError>)
        ensures
            is_valid_id(s@, '@') ==> (r matches Ok(id) && id@ == s@),
            !is_valid_id(s@, '@') ==> (r matches Err(TmuxError::InvalidId(m)) && m@ == s@),
    {
        if check_id(s, '@') {
            Ok(WindowId(s.to_owned()))
        } else {
            Err(TmuxError::InvalidId(s.to_owned()))
        }
    }

    /// Creates an id from a string as it is, unchecked.
    pub(crate) fn new_unchecked(s: &str) -> (r: Self)
        ensures
            r@ == s@,
    {
        WindowId(s.to_owned())
    }

    /// The id's text.
    pub fn as_str(&self) -> (r: &str)
        ensures
            r@ == self@,
    {
        self.0.as_str()
    }
}

impl PaneId {
    /// Creates an id from a `%n` string, which is checked.
    pub fn new(s: &str) -> (r: Result<Self, TmuxError>)
        ensures
            is_valid_id(s@, '%') ==> (r matches Ok(id) && id@ == s@),
            !is_valid_id(s@, '%') ==> (r matches Err(TmuxError::InvalidId(m)) && m@ == s@),
    {
        if check_id(s, '%') {
            Ok(PaneId(s.to_owned()))
        } else {
            Err(TmuxError::InvalidId(s.to_owned()))
        }
    }

    /// Creates an id from a string as it is, unchecked.
    pub(crate) fn new_unchecked(s: &str) -> (r: Self)
        ensures
            r@ == s@,
    {
        PaneId(s.to_owned())
    }

    /// The id's text.
    pub fn as_str(&self) -> (r: &str)
        ensures
            r@ == self@,
    {
        self.0.as_str()
    }
}

impl Default for SessionId {
    /// The session `$0`.
    fn default() -> (r: Self)
        ensures
            r@ == "$0"@,
    {
        SessionId::new_unchecked("$0")
    }
}

impl Default for WindowId {
    /// The window `@0`.
    fn default() -> (r: Self)
        ensures
            r@ == "@0"@,
    {
        WindowId::new_unchecked("@0")
    }
}

impl std::str::FromStr for SessionId {
    type Err = TmuxError;

    /// Same as [`SessionId::new`].
    fn from_str(s: &str) -> (r: Result<Self, TmuxError>)
        ensures
            is_valid_id(s@, '$') ==> (r matches Ok(id) && id@ == s@),
            !is_valid_id(s@, '$') ==> (r matches Err(TmuxError::InvalidId(m)) && m@ == s@),
    {
        SessionId::new(s)
    }
}

impl std::str::FromStr for WindowId {
    type Err = TmuxError;

    /// Same as [`WindowId::new`].
    fn from_str(s: &str) -> (r: Result<Self, TmuxError>)
        ensures
            is_valid_id(s@, '@') ==> (r matches Ok(id) && id@ == s@),
            !is_valid_id(s@, '@') ==> (r matches Err(TmuxError::InvalidId(m)) && m@ == s@),
    {
        WindowId::new(s)
    }
}

impl std::str::FromStr for PaneId {
    type Err = TmuxError;

    /// Same as [`PaneId::new`].
    fn from_str(s: &str) -> (r: Result<Self, TmuxError>)
        ensures
            is_valid_id(s@, '%') ==> (r matches Ok(id) && id@ == s@),
            !is_valid_id(s@, '%') ==> (r matches Err(TmuxError::InvalidId(m)) && m@ == s@),
    {
        PaneId::new(s)
    }
}

} // verus!
