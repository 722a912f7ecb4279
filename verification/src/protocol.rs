//! The lines that tmux writes on its control-mode output.
use vstd::prelude::*;

use crate::number::{parse_unsigned, parse_unsigned_spec};
use crate::text::{
    ascii_words, chars_eq_str, chars_of, find_char, is_first_index, lemma_first_index_unique,
    slice_chars, split_ascii_words, split_once, string_from_chars,
};

verus! {

/// A parsed line from tmux control mode stdout.
#[derive(Debug, PartialEq, Eq)]
pub enum Line {
    /// `%begin <ts> <serial> <flags>`
    Begin { ts: u64, serial: u64, flags: u32 },
    /// `%end <ts> <serial> <flags>`
    End { ts: u64, serial: u64, flags: u32 },
    /// `%error <ts> <serial> <flags>`
    Error { ts: u64, serial: u64, flags: u32 },
    /// A notification line starting with `%` but not begin/end/error.
    Notification(RawNotification),
    /// An ordinary output line inside a %begin/%end block.
    Output(String),
}

/// A raw unparsed notification from tmux.
#[derive(Debug, PartialEq, Eq)]
pub struct RawNotification {
    pub kind: String,
    pub rest: String,
}

/// A [`Line`] with its strings taken as character sequences.
pub enum LineView {
    Begin { ts: u64, serial: u64, flags: u32 },
    End { ts: u64, serial: u64, flags: u32 },
    Error { ts: u64, serial: u64, flags: u32 },
    Notification { kind: Seq<char>, rest: Seq<char> },
    Output(Seq<char>),
}

impl View for Line {
    type V = LineView;

    open spec fn view(&self) -> LineView {
        match self {
            Line::Begin { ts, serial, flags } => LineView::Begin {
                ts: *ts,
                serial: *serial,
                flags: *flags,
            },
            Line::End { ts, serial, flags } => LineView::End { ts: *ts, serial: *serial, flags: *flags },
            Line::Error { ts, serial, flags } => LineView::Error {
                ts: *ts,
                serial: *serial,
                flags: *flags,
            },
            Line::Notification(raw) => LineView::Notification { kind: raw.kind@, rest: raw.rest@ },
            Line::Output(text) => LineView::Output(text@),
        }
    }
}

/// The line with a leading DCS sequence removed: a line that starts with ESC and
/// holds a `%` is cut to start at its first `%`; any other line is kept whole.
pub open spec fn strip_dcs_spec(s: Seq<char>) -> Seq<char> {
    if s.len() > 0 && s[0] == '\x1b' {
        match split_once(s, '%') {
            Some((_, after)) => seq!['%'] + after,
            None => s,
        }
    } else {
        s
    }
}

/// The first three whitespace-separated words of `s`, read as `u64`, `u64` and
/// `u32`; `None` when there are fewer than three or one does not parse. Further
/// words are ignored.
pub open spec fn parse_triple_spec(s: Seq<char>) -> Option<(u64, u64, u32)> {
    let w = ascii_words(s);
    if w.len() >= 3 {
        match (
            parse_unsigned_spec(w[0], u64::MAX as nat),
            parse_unsigned_spec(w[1], u64::MAX as nat),
            parse_unsigned_spec(w[2], u32::MAX as nat),
        ) {
            (Some(a), Some(b), Some(c)) => Some((a as u64, b as u64, c as u32)),
            _ => None,
        }
    } else {
        None
    }
}

/// The keyword of a `%` line (its text up to the first space) and the rest
/// after that space (empty when there is no space).
pub open spec fn keyword_split(rest: Seq<char>) -> (Seq<char>, Seq<char>) {
    match split_once(rest, ' ') {
        Some(p) => p,
        None => (rest, seq![]),
    }
}

/// What a line of control-mode output means.
pub open spec fn parse_line_spec(s: Seq<char>) -> LineView {
    let l = strip_dcs_spec(s);
    if l.len() > 0 && l[0] == '%' {
        let (kw, rem) = keyword_split(l.drop_first());
        match parse_triple_spec(rem) {
            Some((ts, serial, flags)) if kw == "begin"@ => LineView::Begin { ts, serial, flags },
            Some((ts, serial, flags)) if kw == "end"@ => LineView::End { ts, serial, flags },
            Some((ts, serial, flags)) if kw == "error"@ => LineView::Error { ts, serial, flags },
            _ => LineView::Notification { kind: kw, rest: rem },
        }
    } else {
        LineView::Output(l)
    }
}

/// Parse a single line from tmux control mode output.
///
/// This function is stateless — it does not track whether we are inside a
/// `%begin`/`%end` block. The caller is responsible for accumulation.
///
/// When using a pty (required for tmux 3.5a+), the first line may be wrapped
/// in a DCS (Device Control String) sequence: `\x1bP1000p%begin ...`. This
/// prefix is stripped before parsing.
pub fn parse_line(line: &str) -> (r: Line)
    ensures
        r@ == parse_line_spec(line@),
{
    let all = chars_of(line);
    let l = strip_dcs_prefix(all.as_slice());
    if l.len() > 0 && l[0] == '%' {
        let rest = slice_chars(l.as_slice(), 1, l.len());
        assert(rest@ =~= l@.drop_first());
        let (kw, rem) = match find_char(rest.as_slice(), ' ') {
            Some(i) => (
                slice_chars(rest.as_slice(), 0, i),
                slice_chars(rest.as_slice(), i + 1, rest.len()),
            ),
            None => (rest, Vec::new()),
        };
        proof {
            let (skw, srem) = keyword_split(rest@);
            assert(kw@ =~= skw);
            assert(rem@ =~= srem);
        }
        let tri = parse_triple(rem.as_slice());
        if let Some((ts, serial, flags)) = tri {
            if chars_eq_str(kw.as_slice(), "begin") {
                return Line::Begin { ts, serial, flags };
            } else if chars_eq_str(kw.as_slice(), "end") {
                return Line::End { ts, serial, flags };
            } else if chars_eq_str(kw.as_slice(), "error") {
                return Line::Error { ts, serial, flags };
            }
        }
        Line::Notification(
            RawNotification {
                kind: string_from_chars(kw.as_slice()),
                rest: string_from_chars(rem.as_slice()),
            },
        )
    } else {
        Line::Output(string_from_chars(l.as_slice()))
    }
}

/// Strip a DCS (Device Control String) prefix from a line.
///
/// tmux 3.5a+ wraps the initial control mode output in a DCS sequence:
/// `\x1bP1000p%begin ...`. The line is cut to start at its first `%`.
/// If no DCS prefix is found, the line is returned unchanged.
pub fn strip_dcs_prefix(s: &[char]) -> (r: Vec<char>)
    ensures
        r@ == strip_dcs_spec(s@),
{
    if s.len() > 0 && s[0] == '\x1b' {
        if let Some(pos) = find_char(s, '%') {
            let r = slice_chars(s, pos, s.len());
            assert(r@ =~= seq!['%'] + s@.skip(pos + 1));
            return r;
        }
    }
    slice_chars(s, 0, s.len())
}

/// Parse three space-separated integers from a string.
pub fn parse_triple(s: &[char]) -> (r: Option<(u64, u64, u32)>)
    ensures
        r == parse_triple_spec(s@),
{
    let words = split_ascii_words(s);
    if words.len() < 3 {
        return None;
    }
    let a = parse_unsigned(words[0].as_slice(), u64::MAX);
    let b = parse_unsigned(words[1].as_slice(), u64::MAX);
    let c = parse_unsigned(words[2].as_slice(), 0xffff_ffff);
    match (a, b, c) {
        (Some(a), Some(b), Some(c)) => Some((a, b, c as u32)),
        _ => None,
    }
}

/// A DCS prefix (an ESC and then no `%`) in front of a `%` line does not change
/// what the line means.
pub proof fn lemma_dcs_prefix_ignored(prefix: Seq<char>, body: Seq<char>)
    requires
        prefix.len() > 0,
        prefix[0] == '\x1b',
        !prefix.contains('%'),
        body.len() > 0,
        body[0] == '%',
    ensures
        parse_line_spec(prefix + body) == parse_line_spec(body),
{
    let s = prefix + body;
    let i = prefix.len() as int;
    assert(s[i] == '%');
    assert forall|j: int| 0 <= j < i implies s[j] != '%' by {
        assert(s[j] == prefix[j]);
    }
    assert(is_first_index(s, '%', i));
    let k = choose|k: int| is_first_index(s, '%', k);
    lemma_first_index_unique(s, '%', i, k);
    assert(seq!['%'] + s.skip(i + 1) =~= body);
    assert(strip_dcs_spec(body) == body);
}

} // verus!

verus! {

/// A line that does not start with `%` or ESC is an output line holding the
/// line exactly as written.
pub proof fn lemma_output_line_kept(l: Seq<char>)
    requires
        l.len() == 0 || (l[0] != '%' && l[0] != '\x1b'),
    ensures
        parse_line_spec(l) == LineView::Output(l),
{
}

/// A `%` line whose keyword is not a well-formed `%begin`, `%end` or
/// `%error` is a notification whose kind is the keyword and whose rest is
/// everything after the first space, exactly as written; with no space, the
/// rest is empty. So kind and rest put back together give the line.
pub proof fn lemma_notification_line_kept(kw: Seq<char>, rem: Seq<char>)
    requires
        !kw.contains(' '),
        !(kw == "begin"@ || kw == "end"@ || kw == "error"@) || parse_triple_spec(rem) is None,
    ensures
        parse_line_spec(seq!['%'] + kw + seq![' '] + rem) == (LineView::Notification {
            kind: kw,
            rest: rem,
        }),
        parse_line_spec(seq!['%'] + kw) == (LineView::Notification { kind: kw, rest: seq![] }),
{
    let l = seq!['%'] + kw + seq![' '] + rem;
    assert(l[0] == '%');
    let body = l.drop_first();
    assert(body =~= kw + seq![' '] + rem);
    let i = kw.len() as int;
    assert(body[i] == ' ');
    assert forall|j: int| 0 <= j < i implies body[j] != ' ' by {
        assert(body[j] == kw[j]);
        if kw[j] == ' ' {
            assert(kw.contains(' '));
        }
    }
    assert(is_first_index(body, ' ', i));
    let k = choose|k: int| is_first_index(body, ' ', k);
    lemma_first_index_unique(body, ' ', i, k);
    assert(body.take(i) =~= kw);
    assert(body.skip(i + 1) =~= rem);
    assert(keyword_split(body) == (kw, rem));
    let l2 = seq!['%'] + kw;
    assert(l2[0] == '%');
    assert(l2.drop_first() =~= kw);
    assert(!(exists|j: int| is_first_index(kw, ' ', j))) by {
        if exists|j: int| is_first_index(kw, ' ', j) {
            let j = choose|j: int| is_first_index(kw, ' ', j);
            assert(kw.contains(' '));
        }
    }
    assert(keyword_split(kw) == (kw, Seq::<char>::empty()));
    assert(ascii_words(Seq::<char>::empty()) == Seq::<Seq<char>>::empty());
    assert(parse_triple_spec(Seq::<char>::empty()) is None);
}

} // verus!
