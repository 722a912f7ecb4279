//! Asynchronous events that tmux reports between command responses.
use vstd::prelude::*;

use crate::ids::{PaneId, SessionId, WindowId};
use crate::number::{parse_i32, parse_i32_spec};
use crate::protocol::RawNotification;
use crate::text::{
    ascii_words, chars_eq_str, chars_of, find_char, push_char, slice_chars, split_ascii_words,
    split_once, string_from_chars,
};

verus! {

/// An asynchronous event emitted by tmux between command responses.
#[derive(Debug, Clone)]
#[non_exhaustive]
pub enum Notification {
    /// Output was produced in a pane.
    Output { pane: PaneId, data: String },
    /// A pane's child process exited.
    PaneExited { pane: PaneId, exit_code: i32 },
    /// The attached session changed.
    SessionChanged { session: SessionId, name: String },
    /// A new window was added to the attached session.
    WindowAdded { window: WindowId },
    /// A window in the attached session was closed.
    WindowClosed { window: WindowId },
    /// Session list changed (session created or destroyed).
    SessionsChanged,
    /// tmux client is exiting (sent with `-CC`).
    Exit,
    /// A notification type not yet handled by this crate.
    Unhandled { raw: String },
}

/// A [`Notification`] with its ids and strings taken as character sequences.
pub enum NotificationView {
    Output { pane: Seq<char>, data: Seq<char> },
    PaneExited { pane: Seq<char>, exit_code: i32 },
    SessionChanged { session: Seq<char>, name: Seq<char> },
    WindowAdded { window: Seq<char> },
    WindowClosed { window: Seq<char> },
    SessionsChanged,
    Exit,
    Unhandled { raw: Seq<char> },
}

impl View for Notification {
    type V = NotificationView;

    open spec fn view(&self) -> NotificationView {
        match self {
            Notification::Output { pane, data } => NotificationView::Output {
                pane: pane@,
                data: data@,
            },
            Notification::PaneExited { pane, exit_code } => NotificationView::PaneExited {
                pane: pane@,
                exit_code: *exit_code,
            },
            Notification::SessionChanged { session, name } => NotificationView::SessionChanged {
                session: session@,
                name: name@,
            },
            Notification::WindowAdded { window } => NotificationView::WindowAdded {
                window: window@,
            },
            Notification::WindowClosed { window } => NotificationView::WindowClosed {
                window: window@,
            },
            Notification::SessionsChanged => NotificationView::SessionsChanged,
            Notification::Exit => NotificationView::Exit,
            Notification::Unhandled { raw } => NotificationView::Unhandled { raw: raw@ },
        }
    }
}

pub open spec fn is_octal(c: char) -> bool {
    '0' <= c && c <= '7'
}

/// How many octal digits `s` starts with, counting no more than three.
pub open spec fn octal_run(s: Seq<char>) -> nat {
    if s.len() > 0 && is_octal(s[0]) {
        if s.len() > 1 && is_octal(s[1]) {
            if s.len() > 2 && is_octal(s[2]) {
                3
            } else {
                2
            }
        } else {
            1
        }
    } else {
        0
    }
}

/// The number that the octal digits `s` spell.
pub open spec fn octal_value(s: Seq<char>) -> nat
    decreases s.len(),
{
    if s.len() == 0 {
        0
    } else {
        octal_value(s.drop_last()) * 8 + (s.last() as int - '0' as int) as nat
    }
}

/// tmux's escaping of pane output undone: a backslash followed by one to three
/// octal digits stands for the character with that code; a backslash followed
/// by no octal digit stands for itself.
pub open spec fn unescape_spec(s: Seq<char>) -> Seq<char>
    decreases s.len(),
{
    if s.len() == 0 {
        seq![]
    } else if s[0] == '\\' {
        let k = octal_run(s.drop_first());
        if k == 0 {
            seq!['\\'] + unescape_spec(s.drop_first())
        } else {
            seq![octal_value(s.subrange(1, 1 + k as int)) as char] + unescape_spec(
                s.skip(1 + k as int),
            )
        }
    } else {
        seq![s[0]] + unescape_spec(s.drop_first())
    }
}

/// `char::from_u32`: the character with code `n`, if `n` is one.
#[verifier::external_body]
fn char_from_u32(n: u32) -> (r: Option<char>)
    ensures
        (n < 0xD800 || (0xE000 <= n && n <= 0x10FFFF)) ==> r == Some(n as char),
        !(n < 0xD800 || (0xE000 <= n && n <= 0x10FFFF)) ==> r is None,
{
    char::from_u32(n)
}

fn is_octal_char(c: char) -> (r: bool)
    ensures
        r == is_octal(c),
{
    '0' <= c && c <= '7'
}

/// Text without a backslash is left as it is.
pub proof fn lemma_unescape_plain(s: Seq<char>)
    requires
        !s.contains('\\'),
    ensures
        unescape_spec(s) == s,
    decreases s.len(),
{
    if s.len() > 0 {
        assert(s[0] != '\\') by {
            assert(s.contains(s[0]));
        }
        assert(!s.drop_first().contains('\\')) by {
            if s.drop_first().contains('\\') {
                let j = choose|j: int| 0 <= j < s.drop_first().len() && s.drop_first()[j] == '\\';
                assert(s[j + 1] == '\\');
            }
        }
        lemma_unescape_plain(s.drop_first());
        assert(seq![s[0]] + s.drop_first() =~= s);
    }
}

/// Unescape tmux control mode output escaping.
///
/// tmux escapes backslashes as `\134` and CR as `\015` in output notifications.
pub fn unescape_output(s: &str) -> (r: String)
    ensures
        r@ == unescape_spec(s@),
{
    let v = chars_of(s);
    // Fast path: no escapes present
    if find_char(v.as_slice(), '\\').is_none() {
        proof {
            lemma_unescape_plain(s@);
        }
        return s.to_owned();
    }
    let n = v.len();
    let mut out = String::new();
    let mut i: usize = 0;
    assert(v@.skip(0) =~= v@);
    while i < n
        invariant
            n == v@.len(),
            v@ == s@,
            i <= n,
            out@ + unescape_spec(v@.skip(i as int)) == unescape_spec(v@),
        decreases n - i,
    {
        let ghost t = v@.skip(i as int);
        assert(t.drop_first() =~= v@.skip(i + 1));
        let ch = v[i];
        if ch == '\\' {
            // Read up to 3 octal digits
            let mut k: usize = 0;
            let mut code: u32 = 0;
            while k < 3 && i + 1 + k < n && is_octal_char(v[i + 1 + k])
                invariant
                    n == v@.len(),
                    i < n,
                    t == v@.skip(i as int),
                    k <= 3,
                    i + 1 + k <= n,
                    forall|j: int| 0 <= j < k ==> is_octal(#[trigger] v@[i + 1 + j]),
                    code == octal_value(v@.subrange(i + 1, i + 1 + k)),
                    (k == 0 && code == 0) || (k == 1 && code < 8) || (k == 2 && code < 64) || (k
                        == 3 && code < 512),
                decreases 3 - k,
            {
                let d = v[i + 1 + k];
                proof {
                    let w = v@.subrange(i + 1, i + 1 + k + 1);
                    assert(w.drop_last() =~= v@.subrange(i + 1, i + 1 + k));
                    assert(w.last() == d);
                }
                code = code * 8 + (d as u32 - '0' as u32);
                k += 1;
            }
            proof {
                let u = t.drop_first();
                assert(forall|j: int| 0 <= j < u.len() ==> u[j] == v@[i + 1 + j]);
                if k < 3 {
                    if i + 1 + k < n {
                        assert(!is_octal(u[k as int]));
                    }
                }
                assert(octal_run(u) == k);
                assert(u.subrange(0, k as int) =~= v@.subrange(i + 1, i + 1 + k));
                assert(t.subrange(1, 1 + k as int) =~= v@.subrange(i + 1, i + 1 + k));
                assert(t.skip(1 + k as int) =~= v@.skip(i + 1 + k));
            }
            if k == 0 {
                push_char(&mut out, '\\');
                proof {
                    assert(out@ + unescape_spec(v@.skip(i + 1)) =~= unescape_spec(v@));
                }
                i += 1;
            } else {
                match char_from_u32(code) {
                    Some(c) => push_char(&mut out, c),
                    None => {
                        // Not a character: keep the escape as written.
                        push_char(&mut out, '\\');
                        let mut j: usize = 0;
                        while j < k
                            invariant
                                j <= k,
                                i + 1 + k <= n,
                                n == v@.len(),
                            decreases k - j,
                        {
                            push_char(&mut out, v[i + 1 + j]);
                            j += 1;
                        }
                    },
                }
                proof {
                    assert(out@ + unescape_spec(v@.skip(i + 1 + k)) =~= unescape_spec(v@));
                }
                i += 1 + k;
            }
        } else {
            push_char(&mut out, ch);
            proof {
                assert(out@ + unescape_spec(v@.skip(i + 1)) =~= unescape_spec(v@));
            }
            i += 1;
        }
    }
    assert(v@.skip(n as int) =~= Seq::<char>::empty());
    assert(out@ + unescape_spec(v@.skip(n as int)) =~= out@);
    out
}

/// What a notification of the given kind, with the given text after its
/// keyword, means.
pub open spec fn from_raw_spec(kind: Seq<char>, rest: Seq<char>) -> NotificationView {
    if kind == "output"@ {
        output_spec(rest)
    } else if kind == "pane-exited"@ {
        pane_exited_spec(rest)
    } else if kind == "session-changed"@ {
        session_changed_spec(rest)
    } else if kind == "window-add"@ {
        NotificationView::WindowAdded { window: first_word_or(rest, "@0"@) }
    } else if kind == "window-close"@ {
        NotificationView::WindowClosed { window: first_word_or(rest, "@0"@) }
    } else if kind == "sessions-changed"@ {
        NotificationView::SessionsChanged
    } else if kind == "exit"@ {
        NotificationView::Exit
    } else {
        NotificationView::Unhandled { raw: seq!['%'] + kind + seq![' '] + rest }
    }
}

/// `%output <pane> <data>`: the pane, and its output unescaped.
pub open spec fn output_spec(rest: Seq<char>) -> NotificationView {
    match split_once(rest, ' ') {
        Some((pane, data)) => NotificationView::Output { pane, data: unescape_spec(data) },
        None => NotificationView::Output { pane: rest, data: seq![] },
    }
}

/// `%pane-exited <pane> <code>`: a missing pane reads as `%0`, a missing or
/// unreadable code as 0.
pub open spec fn pane_exited_spec(rest: Seq<char>) -> NotificationView {
    let w = ascii_words(rest);
    NotificationView::PaneExited {
        pane: if w.len() > 0 {
            w[0]
        } else {
            "%0"@
        },
        exit_code: if w.len() > 1 && parse_i32_spec(w[1]) is Some {
            parse_i32_spec(w[1])->0 as i32
        } else {
            0
        },
    }
}

/// `%session-changed <session> <name>`: the name is everything after the first
/// space.
pub open spec fn session_changed_spec(rest: Seq<char>) -> NotificationView {
    match split_once(rest, ' ') {
        Some((session, name)) => NotificationView::SessionChanged { session, name },
        None => NotificationView::SessionChanged { session: rest, name: seq![] },
    }
}

/// The first whitespace-separated word of `s`, or `default` when it has none.
pub open spec fn first_word_or(s: Seq<char>, default: Seq<char>) -> Seq<char> {
    let w = ascii_words(s);
    if w.len() > 0 {
        w[0]
    } else {
        default
    }
}

impl Notification {
    /// Parse a [`RawNotification`] into a typed [`Notification`].
    pub fn from_raw(raw: &RawNotification) -> (r: Self)
        ensures
            r@ == from_raw_spec(raw.kind@, raw.rest@),
    {
        let kind = chars_of(raw.kind.as_str());
        if chars_eq_str(kind.as_slice(), "output") {
            parse_output(raw.rest.as_str())
        } else if chars_eq_str(kind.as_slice(), "pane-exited") {
            parse_pane_exited(raw.rest.as_str())
        } else if chars_eq_str(kind.as_slice(), "session-changed") {
            parse_session_changed(raw.rest.as_str())
        } else if chars_eq_str(kind.as_slice(), "window-add") {
            Notification::WindowAdded { window: parse_window_id(raw.rest.as_str()) }
        } else if chars_eq_str(kind.as_slice(), "window-close") {
            Notification::WindowClosed { window: parse_window_id(raw.rest.as_str()) }
        } else if chars_eq_str(kind.as_slice(), "sessions-changed") {
            Notification::SessionsChanged
        } else if chars_eq_str(kind.as_slice(), "exit") {
            Notification::Exit
        } else {
            let mut text = String::new();
            push_char(&mut text, '%');
            text.append(raw.kind.as_str());
            push_char(&mut text, ' ');
            text.append(raw.rest.as_str());
            proof {
                assert(text@ =~= seq!['%'] + raw.kind@ + seq![' '] + raw.rest@);
            }
            Notification::Unhandled { raw: text }
        }
    }
}

/// `%output <pane> <data>`: the pane, and its output unescaped.
pub fn parse_output(rest: &str) -> (r: Notification)
    ensures
        r@ == output_spec(rest@),
{
    let v = chars_of(rest);
    let vs = v.as_slice();
    match find_char(vs, ' ') {
        Some(i) => {
            let len = vs.len();
            assert(i < len);
            let pane = string_from_chars(slice_chars(vs, 0, i).as_slice());
            let data = string_from_chars(slice_chars(vs, i + 1, len).as_slice());
            Notification::Output {
                pane: PaneId::new_unchecked(pane.as_str()),
                data: unescape_output(data.as_str()),
            }
        },
        None => {
            // Pane with no output (rare but possible)
            Notification::Output { pane: PaneId::new_unchecked(rest), data: String::new() }
        },
    }
}

/// `%pane-exited <pane> <code>`: a missing pane reads as `%0`, a missing or
/// unreadable code as 0.
fn parse_pane_exited(rest: &str) -> (r: Notification)
    ensures
        r@ == pane_exited_spec(rest@),
{
    let v = chars_of(rest);
    let words = split_ascii_words(v.as_slice());
    let pane = if words.len() > 0 {
        PaneId::new_unchecked(string_from_chars(words[0].as_slice()).as_str())
    } else {
        PaneId::new_unchecked("%0")
    };
    let exit_code = if words.len() > 1 {
        match parse_i32(words[1].as_slice()) {
            Some(c) => c,
            None => 0,
        }
    } else {
        0
    };
    Notification::PaneExited { pane, exit_code }
}

/// `%session-changed <session> <name>`: the name is everything after the first
/// space.
fn parse_session_changed(rest: &str) -> (r: Notification)
    ensures
        r@ == session_changed_spec(rest@),
{
    let v = chars_of(rest);
    let vs = v.as_slice();
    match find_char(vs, ' ') {
        Some(i) => {
            let len = vs.len();
            assert(i < len);
            let session = string_from_chars(slice_chars(vs, 0, i).as_slice());
            let name = string_from_chars(slice_chars(vs, i + 1, len).as_slice());
            Notification::SessionChanged {
                session: SessionId::new_unchecked(session.as_str()),
                name,
            }
        },
        None => Notification::SessionChanged {
            session: SessionId::new_unchecked(rest),
            name: String::new(),
        },
    }
}

/// The window named by the first word of a `%window-add` or `%window-close`
/// line, or `@0` when there is none.
fn parse_window_id(rest: &str) -> (r: WindowId)
    ensures
        r@ == first_word_or(rest@, "@0"@),
{
    let v = chars_of(rest);
    let words = split_ascii_words(v.as_slice());
    if words.len() > 0 {
        WindowId::new_unchecked(string_from_chars(words[0].as_slice()).as_str())
    } else {
        WindowId::new_unchecked("@0")
    }
}

} // verus!

verus! {

/// A copy of `n` with the same ids and text.
pub fn copy_notification(n: &Notification) -> (r: Notification)
    ensures
        r@ == n@,
{
    match n {
        Notification::Output { pane, data } => Notification::Output {
            pane: PaneId::new_unchecked(pane.as_str()),
            data: data.clone(),
        },
        Notification::PaneExited { pane, exit_code } => Notification::PaneExited {
            pane: PaneId::new_unchecked(pane.as_str()),
            exit_code: *exit_code,
        },
        Notification::SessionChanged { session, name } => Notification::SessionChanged {
            session: SessionId::new_unchecked(session.as_str()),
            name: name.clone(),
        },
        Notification::WindowAdded { window } => Notification::WindowAdded {
            window: WindowId::new_unchecked(window.as_str()),
        },
        Notification::WindowClosed { window } => Notification::WindowClosed {
            window: WindowId::new_unchecked(window.as_str()),
        },
        Notification::SessionsChanged => Notification::SessionsChanged,
        Notification::Exit => Notification::Exit,
        Notification::Unhandled { raw } => Notification::Unhandled { raw: raw.clone() },
    }
}

} // verus!

verus! {

/// How tmux escapes one character of pane output: a backslash as `\134`, a
/// carriage return as `\015`, anything else as itself.
pub open spec fn tmux_escape_piece(c: char) -> Seq<char> {
    if c == '\\' {
        seq!['\\', '1', '3', '4']
    } else if c == '\r' {
        seq!['\\', '0', '1', '5']
    } else {
        seq![c]
    }
}

/// Pane output as tmux escapes it in `%output` notifications.
pub open spec fn tmux_escape_spec(s: Seq<char>) -> Seq<char>
    decreases s.len(),
{
    if s.len() == 0 {
        seq![]
    } else {
        tmux_escape_piece(s[0]) + tmux_escape_spec(s.drop_first())
    }
}

proof fn lemma_unescape_three_digits(e: Seq<char>, r: Seq<char>, d0: char, d1: char, d2: char)
    requires
        e == seq!['\\', d0, d1, d2] + r,
        is_octal(d0),
        is_octal(d1),
        is_octal(d2),
    ensures
        unescape_spec(e) == seq![octal_value(seq![d0, d1, d2]) as char] + unescape_spec(r),
{
    let u = e.drop_first();
    assert(u =~= seq![d0, d1, d2] + r);
    assert(u[0] == d0 && u[1] == d1 && u[2] == d2);
    assert(octal_run(u) == 3);
    assert(e.subrange(1, 4) =~= seq![d0, d1, d2]);
    assert(e.skip(4) =~= r);
}

/// Undoing tmux's escaping gives back the pane output.
pub proof fn lemma_unescape_round_trip(s: Seq<char>)
    ensures
        unescape_spec(tmux_escape_spec(s)) == s,
    decreases s.len(),
{
    if s.len() == 0 {
        assert(tmux_escape_spec(s) =~= Seq::<char>::empty());
        assert(s =~= Seq::<char>::empty());
    } else {
        let c = s[0];
        let rest = s.drop_first();
        let r = tmux_escape_spec(rest);
        let e = tmux_escape_spec(s);
        lemma_unescape_round_trip(rest);
        assert(seq![c] + rest =~= s);
        if c == '\\' {
            assert(e =~= seq!['\\', '1', '3', '4'] + r);
            lemma_unescape_three_digits(e, r, '1', '3', '4');
            let v = seq!['1', '3', '4'];
            assert(v.drop_last() =~= seq!['1', '3']);
            assert(seq!['1', '3'].drop_last() =~= seq!['1']);
            assert(seq!['1'].drop_last() =~= Seq::<char>::empty());
            assert(octal_value(Seq::<char>::empty()) == 0);
            assert(octal_value(seq!['1']) == 1);
            assert(octal_value(seq!['1', '3']) == 11);
            assert(octal_value(v) == 92);
            assert((92 as char) == '\\');
        } else if c == '\r' {
            assert(e =~= seq!['\\', '0', '1', '5'] + r);
            lemma_unescape_three_digits(e, r, '0', '1', '5');
            let v = seq!['0', '1', '5'];
            assert(v.drop_last() =~= seq!['0', '1']);
            assert(seq!['0', '1'].drop_last() =~= seq!['0']);
            assert(seq!['0'].drop_last() =~= Seq::<char>::empty());
            assert(octal_value(Seq::<char>::empty()) == 0);
            assert(octal_value(seq!['0']) == 0);
            assert(octal_value(seq!['0', '1']) == 1);
            assert(octal_value(v) == 13);
            assert((13 as char) == '\r');
        } else {
            assert(e =~= seq![c] + r);
            assert(e.drop_first() =~= r);
        }
    }
}

/// An `%output` line's text is the pane, a space and the escaped data: the
/// notification names that pane and carries the data unescaped; with no space,
/// the whole text names the pane and the data is empty.
pub proof fn lemma_output_notification(pane: Seq<char>, data: Seq<char>)
    requires
        !pane.contains(' '),
    ensures
        output_spec(pane + seq![' '] + data) == (NotificationView::Output {
            pane,
            data: unescape_spec(data),
        }),
        output_spec(pane) == (NotificationView::Output { pane, data: seq![] }),
        from_raw_spec("output"@, pane + seq![' '] + data) == (NotificationView::Output {
            pane,
            data: unescape_spec(data),
        }),
        from_raw_spec("output"@, pane) == (NotificationView::Output { pane, data: seq![] }),
{
    let s = pane + seq![' '] + data;
    let i = pane.len() as int;
    assert(s[i] == ' ');
    assert forall|j: int| 0 <= j < i implies s[j] != ' ' by {
        assert(s[j] == pane[j]);
        if pane[j] == ' ' {
            assert(pane.contains(' '));
        }
    }
    assert(crate::text::is_first_index(s, ' ', i));
    let k = choose|k: int| crate::text::is_first_index(s, ' ', k);
    crate::text::lemma_first_index_unique(s, ' ', i, k);
    assert(s.take(i) =~= pane);
    assert(s.skip(i + 1) =~= data);
    assert(!(exists|j: int| crate::text::is_first_index(pane, ' ', j))) by {
        if exists|j: int| crate::text::is_first_index(pane, ' ', j) {
            let j = choose|j: int| crate::text::is_first_index(pane, ' ', j);
            assert(pane.contains(' '));
        }
    }
}

} // verus!

verus! {

/// An `i32` in decimal, as `to_string` writes it: a `-` for a negative number,
/// then the digits of its magnitude.
pub open spec fn i32_decimal(c: int) -> Seq<char> {
    if c < 0 {
        seq!['-'] + crate::number::decimal_digits((-c) as nat)
    } else {
        crate::number::decimal_digits(c as nat)
    }
}

/// A `%pane-exited` line naming a pane and then an exit code reports that
/// pane and exactly that exit code, negative, zero or positive.
pub proof fn lemma_pane_exited_code(pane: Seq<char>, c: i32)
    requires
        pane.len() > 0,
        forall|i: int| 0 <= i < pane.len() ==> !crate::text::is_ascii_ws(#[trigger] pane[i]),
    ensures
        from_raw_spec("pane-exited"@, pane + seq![' '] + i32_decimal(c as int)) == (
        NotificationView::PaneExited { pane, exit_code: c }),
{
    reveal_strlit("pane-exited");
    reveal_strlit("output");
    let m: nat = if c < 0 {
        (-(c as int)) as nat
    } else {
        c as nat
    };
    crate::number::lemma_decimal_digits_round_trip(m);
    let d = crate::number::decimal_digits(m);
    let q = i32_decimal(c as int);
    assert forall|i: int| 0 <= i < q.len() implies !crate::text::is_ascii_ws(#[trigger] q[i]) by {
        if c < 0 {
            if i > 0 {
                assert(q[i] == d[i - 1]);
                assert(crate::number::is_digit(d[i - 1]));
            }
        } else {
            assert(crate::number::is_digit(d[i]));
        }
    }
    crate::text::lemma_two_words(pane, q);
    let w = crate::text::ascii_words(pane + seq![' '] + q);
    assert(w[0] == pane && w[1] == q);
    if c < 0 {
        assert(q.drop_first() =~= d);
        assert(crate::number::parse_i32_spec(q) == Some(c as int));
    } else {
        assert(q[0] != '-') by {
            assert(crate::number::is_digit(d[0]));
        }
        assert(crate::number::unsigned_digits(q) == q);
        assert(crate::number::parse_i32_spec(q) == Some(c as int));
    }
    let rest = pane + seq![' '] + q;
    assert("pane-exited"@ != "output"@) by {
        assert("pane-exited"@.len() != "output"@.len());
    }
    assert(from_raw_spec("pane-exited"@, rest) == pane_exited_spec(rest));
    assert(pane_exited_spec(rest) == (NotificationView::PaneExited { pane, exit_code: c }));
}

} // verus!
