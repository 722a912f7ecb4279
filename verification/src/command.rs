//! The tmux commands that the client sends, built as single-line strings.
use vstd::prelude::*;

use crate::ids::{is_valid_id, PaneId, SessionId, WindowId};
use crate::number::{is_digit, unsigned_digits};
use crate::text::{chars_of, join, join_spec, push_char, string_from_chars, strings_view};

verus! {

/// Characters that would split the tmux command stream: line feed, carriage
/// return and NUL.
pub open spec fn is_stream_breaking(c: char) -> bool {
    c == '\n' || c == '\r' || c == '\0'
}

/// `s` without its stream-breaking characters.
pub open spec fn sanitize(s: Seq<char>) -> Seq<char>
    decreases s.len(),
{
    if s.len() == 0 {
        seq![]
    } else {
        let p = sanitize(s.drop_last());
        if is_stream_breaking(s.last()) {
            p
        } else {
            p.push(s.last())
        }
    }
}

/// Characters that need no quoting: ASCII letters and digits, `-`, `_`, `.`,
/// `/` and `:`.
pub open spec fn is_plain(c: char) -> bool {
    ||| ('a' <= c && c <= 'z')
    ||| ('A' <= c && c <= 'Z')
    ||| ('0' <= c && c <= '9')
    ||| c == '-'
    ||| c == '_'
    ||| c == '.'
    ||| c == '/'
    ||| c == ':'
}

pub open spec fn all_plain(s: Seq<char>) -> bool {
    forall|i: int| 0 <= i < s.len() ==> is_plain(#[trigger] s[i])
}

/// The quoted form of one character: `'` becomes `'\''`, any other character
/// stays as it is.
pub open spec fn quote_piece(c: char) -> Seq<char> {
    if c == '\'' {
        seq!['\'', '\\', '\'', '\'']
    } else {
        seq![c]
    }
}

/// `s` for the inside of single quotes: each `'` becomes `'\''`.
pub open spec fn quote_body(s: Seq<char>) -> Seq<char>
    decreases s.len(),
{
    if s.len() == 0 {
        seq![]
    } else {
        quote_body(s.drop_last()) + quote_piece(s.last())
    }
}

/// The escaped form of `s`: stream-breaking characters are dropped; what is
/// left is `''` when empty, itself when every character is plain, and else
/// wrapped in single quotes with each inner `'` written as `'\''`.
pub open spec fn shell_escape_spec(s: Seq<char>) -> Seq<char> {
    let t = sanitize(s);
    if t.len() == 0 {
        seq!['\'', '\'']
    } else if all_plain(t) {
        t
    } else {
        seq!['\''] + quote_body(t) + seq!['\'']
    }
}

fn is_plain_char(c: char) -> (r: bool)
    ensures
        r == is_plain(c),
{
    ('a' <= c && c <= 'z') || ('A' <= c && c <= 'Z') || ('0' <= c && c <= '9') || c == '-' || c
        == '_' || c == '.' || c == '/' || c == ':'
}

/// Minimal shell escaping: wrap in single quotes, escaping any `'` inside.
///
/// Suitable for tmux command arguments that may contain spaces or special chars.
///
/// # Security
///
/// Control characters (`\n`, `\r`, `\0`) are stripped because they would
/// split the tmux command stream — each newline becomes a separate tmux
/// command, enabling injection of arbitrary tmux commands.
pub fn shell_escape(s: &str) -> (r: String)
    ensures
        r@ == shell_escape_spec(s@),
{
    let v = chars_of(s);
    // Strip control characters that could split the command stream.
    let mut sanitized: Vec<char> = Vec::new();
    let mut plain = true;
    let mut i: usize = 0;
    while i < v.len()
        invariant
            i <= v@.len(),
            sanitized@ == sanitize(v@.take(i as int)),
            plain == all_plain(sanitized@),
        decreases v.len() - i,
    {
        let c = v[i];
        assert(v@.take(i + 1).drop_last() =~= v@.take(i as int));
        if !(c == '\n' || c == '\r' || c == '\0') {
            let ghost before = sanitized@;
            sanitized.push(c);
            if !is_plain_char(c) {
                plain = false;
                assert(!is_plain(sanitized@[sanitized@.len() - 1]));
            } else {
                assert(all_plain(before) ==> all_plain(sanitized@)) by {
                    if all_plain(before) {
                        assert forall|j: int| 0 <= j < sanitized@.len() implies is_plain(
                            #[trigger] sanitized@[j],
                        ) by {
                            if j < before.len() {
                                assert(sanitized@[j] == before[j]);
                            }
                        }
                    }
                }
                assert(!all_plain(before) ==> !all_plain(sanitized@)) by {
                    if !all_plain(before) {
                        let j = choose|j: int| 0 <= j < before.len() && !is_plain(before[j]);
                        assert(sanitized@[j] == before[j]);
                    }
                }
            }
        }
        i += 1;
    }
    assert(v@.take(v@.len() as int) =~= v@);
    if sanitized.len() == 0 {
        let mut r = String::new();
        push_char(&mut r, '\'');
        push_char(&mut r, '\'');
        assert(r@ =~= seq!['\'', '\'']);
        return r;
    }
    // If the string has no special characters, pass through unquoted for readability
    if plain {
        return string_from_chars(sanitized.as_slice());
    }
    // Single-quote the string, escaping internal single quotes as '\''
    let mut r = String::new();
    push_char(&mut r, '\'');
    let mut j: usize = 0;
    while j < sanitized.len()
        invariant
            j <= sanitized@.len(),
            r@ == seq!['\''] + quote_body(sanitized@.take(j as int)),
        decreases sanitized.len() - j,
    {
        let c = sanitized[j];
        assert(sanitized@.take(j + 1).drop_last() =~= sanitized@.take(j as int));
        if c == '\'' {
            push_char(&mut r, '\'');
            push_char(&mut r, '\\');
            push_char(&mut r, '\'');
            push_char(&mut r, '\'');
        } else {
            push_char(&mut r, c);
        }
        assert(r@ =~= seq!['\''] + quote_body(sanitized@.take(j + 1)));
        j += 1;
    }
    push_char(&mut r, '\'');
    assert(sanitized@.take(sanitized@.len() as int) =~= sanitized@);
    assert(r@ =~= seq!['\''] + quote_body(sanitized@) + seq!['\'']);
    r
}

} // verus!

verus! {

/// `Some(c + text)` when `o` is `Some(text)`, else `None`.
pub open spec fn prepend_char(c: char, o: Option<Seq<char>>) -> Option<Seq<char>> {
    match o {
        Some(t) => Some(seq![c] + t),
        None => None,
    }
}

/// What the text `w` denotes when it is exactly one POSIX-shell word made of
/// unquoted runs of plain characters, `'...'` single-quoted runs and `\'`
/// escapes (starting inside a quoted run when `in_quotes`); `None` when it is
/// not such a word (another unquoted character, a stray `\`, or an unclosed
/// quote).
pub open spec fn shell_word_from(in_quotes: bool, w: Seq<char>) -> Option<Seq<char>>
    decreases w.len(),
{
    if w.len() == 0 {
        if in_quotes {
            None
        } else {
            Some(seq![])
        }
    } else if in_quotes {
        if w[0] == '\'' {
            shell_word_from(false, w.drop_first())
        } else {
            prepend_char(w[0], shell_word_from(true, w.drop_first()))
        }
    } else if w[0] == '\'' {
        shell_word_from(true, w.drop_first())
    } else if w[0] == '\\' && w.len() >= 2 && w[1] == '\'' {
        prepend_char('\'', shell_word_from(false, w.skip(2)))
    } else if is_plain(w[0]) {
        prepend_char(w[0], shell_word_from(false, w.drop_first()))
    } else {
        None
    }
}

/// What `w` denotes as one POSIX-shell word of the form above.
pub open spec fn shell_word(w: Seq<char>) -> Option<Seq<char>> {
    shell_word_from(false, w)
}

proof fn lemma_sanitize_no_breaking(s: Seq<char>)
    ensures
        forall|i: int| 0 <= i < sanitize(s).len() ==> !is_stream_breaking(#[trigger] sanitize(s)[i]),
    decreases s.len(),
{
    if s.len() > 0 {
        lemma_sanitize_no_breaking(s.drop_last());
        let p = sanitize(s.drop_last());
        assert forall|i: int| 0 <= i < sanitize(s).len() implies !is_stream_breaking(
            #[trigger] sanitize(s)[i],
        ) by {
            if i < p.len() {
                assert(sanitize(s)[i] == p[i]);
            }
        }
    }
}

proof fn lemma_quote_body_no_breaking(s: Seq<char>)
    requires
        forall|i: int| 0 <= i < s.len() ==> !is_stream_breaking(#[trigger] s[i]),
    ensures
        forall|i: int| 0 <= i < quote_body(s).len() ==> !is_stream_breaking(#[trigger] quote_body(s)[i]),
    decreases s.len(),
{
    if s.len() > 0 {
        lemma_quote_body_no_breaking(s.drop_last());
        let p = quote_body(s.drop_last());
        assert(s.last() == s[s.len() - 1]);
        if s.last() == '\'' {
            assert forall|i: int| 0 <= i < quote_body(s).len() implies !is_stream_breaking(
                #[trigger] quote_body(s)[i],
            ) by {
                if i < p.len() {
                    assert(quote_body(s)[i] == p[i]);
                }
            }
        } else {
            assert forall|i: int| 0 <= i < quote_body(s).len() implies !is_stream_breaking(
                #[trigger] quote_body(s)[i],
            ) by {
                if i < p.len() {
                    assert(quote_body(s)[i] == p[i]);
                }
            }
        }
    }
}

/// An escaped argument never holds a line feed, a carriage return or a NUL,
/// so it cannot split the command stream, and it is never empty.
pub proof fn lemma_shell_escape_single_line(s: Seq<char>)
    ensures
        forall|i: int|
            0 <= i < shell_escape_spec(s).len() ==> !is_stream_breaking(
                #[trigger] shell_escape_spec(s)[i],
            ),
        shell_escape_spec(s).len() > 0,
{
    let t = sanitize(s);
    lemma_sanitize_no_breaking(s);
    if t.len() > 0 && !all_plain(t) {
        lemma_quote_body_no_breaking(t);
        let r = shell_escape_spec(s);
        let q = quote_body(t);
        assert forall|i: int| 0 <= i < r.len() implies !is_stream_breaking(#[trigger] r[i]) by {
            if 1 <= i < 1 + q.len() {
                assert(r[i] == q[i - 1]);
            }
        }
    }
}

proof fn lemma_quote_body_prepend(c: char, s: Seq<char>)
    ensures
        quote_body(seq![c] + s) == quote_piece(c) + quote_body(s),
    decreases s.len(),
{
    let x = seq![c] + s;
    if s.len() == 0 {
        assert(x.drop_last() =~= Seq::<char>::empty());
        assert(x.last() == c);
        assert(quote_body(Seq::<char>::empty()) == Seq::<char>::empty());
        assert(quote_body(s) == Seq::<char>::empty());
        assert(quote_body(x) =~= quote_piece(c) + quote_body(s));
    } else {
        assert(x.drop_last() =~= seq![c] + s.drop_last());
        assert(x.last() == s.last());
        lemma_quote_body_prepend(c, s.drop_last());
        assert(quote_body(x) =~= quote_piece(c) + quote_body(s));
    }
}

proof fn lemma_read_quoted(t: Seq<char>)
    ensures
        shell_word_from(true, quote_body(t) + seq!['\'']) == Some(t),
    decreases t.len(),
{
    if t.len() == 0 {
        assert(quote_body(t) == Seq::<char>::empty());
        assert(quote_body(t) + seq!['\''] =~= seq!['\'']);
        assert(seq!['\''].drop_first() =~= Seq::<char>::empty());
        assert(shell_word_from(false, Seq::<char>::empty()) == Some(Seq::<char>::empty()));
        assert(shell_word_from(true, seq!['\'']) == shell_word_from(
            false,
            Seq::<char>::empty(),
        ));
        assert(t =~= Seq::<char>::empty());
    } else {
        let c = t[0];
        let rest = t.drop_first();
        assert(seq![c] + rest =~= t);
        lemma_quote_body_prepend(c, rest);
        lemma_read_quoted(rest);
        let tail = quote_body(rest) + seq!['\''];
        assert(shell_word_from(true, tail) == Some(rest));
        if c == '\'' {
            let w = seq!['\'', '\\', '\'', '\''] + tail;
            assert(quote_body(t) + seq!['\''] =~= w);
            let w1 = w.drop_first();
            assert(w1 =~= seq!['\\', '\'', '\''] + tail);
            let w2 = seq!['\''] + tail;
            assert(w1.skip(2) =~= w2);
            assert(w2.drop_first() =~= tail);
            assert(shell_word_from(false, w2) == shell_word_from(true, tail));
            assert(w1[0] == '\\' && w1[1] == '\'');
            assert(shell_word_from(false, w1) == prepend_char(
                '\'',
                shell_word_from(false, w1.skip(2)),
            ));
            assert(shell_word_from(true, w) == shell_word_from(false, w1));
            assert(seq!['\''] + rest =~= t);
        } else {
            let w = seq![c] + tail;
            assert(quote_body(t) + seq!['\''] =~= w);
            assert(w.drop_first() =~= tail);
            assert(shell_word_from(true, w) == prepend_char(c, shell_word_from(true, tail)));
        }
    }
}

proof fn lemma_read_plain(t: Seq<char>)
    requires
        all_plain(t),
    ensures
        shell_word_from(false, t) == Some(t),
    decreases t.len(),
{
    if t.len() > 0 {
        assert(is_plain(t[0]));
        assert(all_plain(t.drop_first())) by {
            assert forall|i: int| 0 <= i < t.drop_first().len() implies is_plain(
                #[trigger] t.drop_first()[i],
            ) by {
                assert(t.drop_first()[i] == t[i + 1]);
            }
        }
        lemma_read_plain(t.drop_first());
        assert(seq![t[0]] + t.drop_first() =~= t);
    } else {
        assert(t =~= Seq::<char>::empty());
    }
}

/// An escaped argument is exactly one POSIX-shell word, and that word denotes
/// the original text less the stream-breaking characters that were stripped.
pub proof fn lemma_shell_escape_reads_back(s: Seq<char>)
    ensures
        shell_word(shell_escape_spec(s)) == Some(sanitize(s)),
{
    let t = sanitize(s);
    if t.len() == 0 {
        let w = seq!['\'', '\''];
        assert(w.drop_first() =~= seq!['\'']);
        assert(seq!['\''].drop_first() =~= Seq::<char>::empty());
        assert(shell_word_from(false, Seq::<char>::empty()) == Some(Seq::<char>::empty()));
        assert(shell_word_from(true, seq!['\'']) == Some(Seq::<char>::empty()));
        assert(shell_word_from(false, w) == Some(Seq::<char>::empty()));
        assert(t =~= Seq::<char>::empty());
    } else if all_plain(t) {
        lemma_read_plain(t);
    } else {
        lemma_read_quoted(t);
        let w = seq!['\''] + quote_body(t) + seq!['\''];
        assert(w.drop_first() =~= quote_body(t) + seq!['\'']);
        assert(shell_word_from(false, w) == shell_word_from(true, w.drop_first()));
    }
}

proof fn lemma_sanitize_identity(s: Seq<char>)
    requires
        forall|i: int| 0 <= i < s.len() ==> !is_stream_breaking(#[trigger] s[i]),
    ensures
        sanitize(s) == s,
    decreases s.len(),
{
    if s.len() > 0 {
        assert(!is_stream_breaking(s[s.len() - 1]));
        assert forall|i: int| 0 <= i < s.drop_last().len() implies !is_stream_breaking(
            #[trigger] s.drop_last()[i],
        ) by {
            assert(s.drop_last()[i] == s[i]);
        }
        lemma_sanitize_identity(s.drop_last());
        assert(s.drop_last().push(s.last()) =~= s);
    } else {
        assert(s =~= Seq::<char>::empty());
    }
}

proof fn lemma_quote_body_len(t: Seq<char>)
    ensures
        quote_body(t).len() >= t.len(),
    decreases t.len(),
{
    if t.len() > 0 {
        lemma_quote_body_len(t.drop_last());
    }
}

/// Escaping leaves a text as it is exactly when the text is non-empty and
/// every character is plain (an ASCII letter or digit, `-`, `_`, `.`, `/` or
/// `:`).
pub proof fn lemma_shell_escape_unchanged(s: Seq<char>)
    ensures
        shell_escape_spec(s) == s <==> (s.len() > 0 && all_plain(s)),
{
    let t = sanitize(s);
    if s.len() > 0 && all_plain(s) {
        lemma_sanitize_identity(s);
    }
    if shell_escape_spec(s) == s {
        lemma_shell_escape_single_line(s);
        let r = shell_escape_spec(s);
        assert(forall|i: int| 0 <= i < s.len() ==> !is_stream_breaking(#[trigger] s[i])) by {
            assert forall|i: int| 0 <= i < s.len() implies !is_stream_breaking(#[trigger] s[i]) by {
                assert(s[i] == r[i]);
            }
        }
        lemma_sanitize_identity(s);
        assert(t == s);
        if t.len() == 0 {
            assert(r.len() == 2);
        } else if !all_plain(t) {
            lemma_quote_body_len(t);
            assert(r.len() == quote_body(t).len() + 2);
        }
    }
}

} // verus!

verus! {

/// Options for creating a new session.
#[derive(Debug, Clone)]
#[non_exhaustive]
pub struct NewSessionOptions {
    pub name: Option<String>,
    /// Start detached (don't attach the current client). Recommended.
    pub detached: bool,
    /// Working directory of the new session, as text.
    pub start_directory: Option<String>,
}

/// Options for creating a new window.
#[derive(Debug, Clone)]
#[non_exhaustive]
pub struct NewWindowOptions {
    pub session: SessionId,
    pub name: Option<String>,
    pub detached: bool,
    pub start_command: Option<String>,
}

/// Options for splitting a pane.
#[derive(Debug, Clone)]
#[non_exhaustive]
pub struct SplitPaneOptions {
    pub target: WindowId,
    /// `true` = vertical split (panes side by side), `false` = horizontal (stacked).
    pub vertical: bool,
    pub start_command: Option<String>,
}

/// Target for `set-option`.
#[derive(Debug, Clone)]
pub enum OptionTarget {
    Global,
    Session(SessionId),
    Window(WindowId),
    Pane(PaneId),
}

impl NewSessionOptions {
    /// Create new session options with the given name, detached.
    pub fn named(name: &str) -> (r: Self)
        ensures
            r.name matches Some(n) && n@ == name@,
            r.detached,
            r.start_directory is None,
    {
        NewSessionOptions { name: Some(name.to_owned()), detached: true, start_directory: None }
    }
}

impl Default for NewSessionOptions {
    /// No name, not detached, no start directory.
    fn default() -> (r: Self)
        ensures
            r.name is None,
            !r.detached,
            r.start_directory is None,
    {
        NewSessionOptions { name: None, detached: false, start_directory: None }
    }
}

impl Default for NewWindowOptions {
    /// Session `$0`, no name, not detached, no start command.
    fn default() -> (r: Self)
        ensures
            r.session@ == "$0"@,
            r.name is None,
            !r.detached,
            r.start_command is None,
    {
        NewWindowOptions {
            session: SessionId::default(),
            name: None,
            detached: false,
            start_command: None,
        }
    }
}

impl Default for SplitPaneOptions {
    /// Window `@0`, horizontal, no start command.
    fn default() -> (r: Self)
        ensures
            r.target@ == "@0"@,
            !r.vertical,
            r.start_command is None,
    {
        SplitPaneOptions { target: WindowId::default(), vertical: false, start_command: None }
    }
}

/// A flag and the escaped value after it, when there is a value.
pub open spec fn flag_with(flag: Seq<char>, value: Option<String>) -> Seq<Seq<char>> {
    match value {
        Some(v) => seq![flag, shell_escape_spec(v@)],
        None => seq![],
    }
}

/// The escaped value as one word, when there is a value.
pub open spec fn escaped_word(value: Option<String>) -> Seq<Seq<char>> {
    match value {
        Some(v) => seq![shell_escape_spec(v@)],
        None => seq![],
    }
}

/// The words of a `new-session` command.
pub open spec fn new_session_words(opts: NewSessionOptions) -> Seq<Seq<char>> {
    seq!["new-session"@] + (if opts.detached {
        seq!["-d"@]
    } else {
        seq![]
    }) + flag_with("-s"@, opts.name) + flag_with("-c"@, opts.start_directory) + seq![
        "-P"@,
        "-F '#{session_id}'"@,
    ]
}

/// The words of a `new-window` command.
pub open spec fn new_window_words(opts: NewWindowOptions) -> Seq<Seq<char>> {
    seq!["new-window"@] + (if opts.detached {
        seq!["-d"@]
    } else {
        seq![]
    }) + seq!["-t"@, opts.session@] + flag_with("-n"@, opts.name) + seq![
        "-P"@,
        "-F '#{window_id}'"@,
    ] + escaped_word(opts.start_command)
}

/// The words of a `split-window` command.
pub open spec fn split_pane_words(opts: SplitPaneOptions) -> Seq<Seq<char>> {
    seq![
        "split-window"@,
        if opts.vertical {
            "-h"@
        } else {
            "-v"@
        },
        "-t"@,
        opts.target@,
        "-P"@,
        "-F '#{pane_id}'"@,
    ] + escaped_word(opts.start_command)
}

fn push_part(parts: &mut Vec<String>, s: String)
    ensures
        strings_view(final(parts)@) == strings_view(old(parts)@).push(s@),
{
    parts.push(s);
    assert(strings_view(parts@) =~= strings_view(old(parts)@).push(s@));
}

fn push_flag_with(parts: &mut Vec<String>, flag: &str, value: &Option<String>)
    ensures
        strings_view(final(parts)@) == strings_view(old(parts)@) + flag_with(flag@, *value),
{
    match value {
        Some(v) => {
            push_part(parts, flag.to_owned());
            push_part(parts, shell_escape(v.as_str()));
        },
        None => {},
    }
    assert(strings_view(parts@) =~= strings_view(old(parts)@) + flag_with(flag@, *value));
}

fn push_escaped_word(parts: &mut Vec<String>, value: &Option<String>)
    ensures
        strings_view(final(parts)@) == strings_view(old(parts)@) + escaped_word(*value),
{
    match value {
        Some(v) => {
            push_part(parts, shell_escape(v.as_str()));
        },
        None => {},
    }
    assert(strings_view(parts@) =~= strings_view(old(parts)@) + escaped_word(*value));
}

/// `has-session -t <name>` — exits 0 if exists, 1 if not.
pub fn has_session(name: &str) -> (r: String)
    ensures
        r@ == "has-session -t "@ + shell_escape_spec(name@),
{
    let mut r = "has-session -t ".to_owned();
    r.append(shell_escape(name).as_str());
    r
}

/// `new-session` with the given options.
/// Returns the session id via `-P -F '#{session_id}'`.
pub fn new_session(opts: &NewSessionOptions) -> (r: String)
    ensures
        r@ == join_spec(new_session_words(*opts), " "@),
{
    let mut parts: Vec<String> = Vec::new();
    push_part(&mut parts, "new-session".to_owned());
    if opts.detached {
        push_part(&mut parts, "-d".to_owned());
    }
    push_flag_with(&mut parts, "-s", &opts.name);
    push_flag_with(&mut parts, "-c", &opts.start_directory);
    // Print the session id on stdout
    push_part(&mut parts, "-P".to_owned());
    push_part(&mut parts, "-F '#{session_id}'".to_owned());
    assert(strings_view(parts@) =~= new_session_words(*opts));
    join(&parts, " ")
}

/// `kill-session -t <id>`
pub fn kill_session(id: &SessionId) -> (r: String)
    ensures
        r@ == "kill-session -t "@ + id@,
{
    let mut r = "kill-session -t ".to_owned();
    r.append(id.as_str());
    r
}

/// `new-window` with options.
/// Returns the window id via `-P -F '#{window_id}'`.
pub fn new_window(opts: &NewWindowOptions) -> (r: String)
    ensures
        r@ == join_spec(new_window_words(*opts), " "@),
{
    let mut parts: Vec<String> = Vec::new();
    push_part(&mut parts, "new-window".to_owned());
    if opts.detached {
        push_part(&mut parts, "-d".to_owned());
    }
    push_part(&mut parts, "-t".to_owned());
    push_part(&mut parts, opts.session.as_str().to_owned());
    push_flag_with(&mut parts, "-n", &opts.name);
    push_part(&mut parts, "-P".to_owned());
    push_part(&mut parts, "-F '#{window_id}'".to_owned());
    push_escaped_word(&mut parts, &opts.start_command);
    assert(strings_view(parts@) =~= new_window_words(*opts));
    join(&parts, " ")
}

/// `split-window` with options.
/// Returns the pane id via `-P -F '#{pane_id}'`.
pub fn split_pane(opts: &SplitPaneOptions) -> (r: String)
    ensures
        r@ == join_spec(split_pane_words(*opts), " "@),
{
    let mut parts: Vec<String> = Vec::new();
    push_part(&mut parts, "split-window".to_owned());
    push_part(
        &mut parts,
        if opts.vertical {
            "-h"
        } else {
            "-v"
        }.to_owned(),
    );
    push_part(&mut parts, "-t".to_owned());
    push_part(&mut parts, opts.target.as_str().to_owned());
    push_part(&mut parts, "-P".to_owned());
    push_part(&mut parts, "-F '#{pane_id}'".to_owned());
    push_escaped_word(&mut parts, &opts.start_command);
    assert(strings_view(parts@) =~= split_pane_words(*opts));
    join(&parts, " ")
}

/// `kill-pane -t <id>`
pub fn kill_pane(id: &PaneId) -> (r: String)
    ensures
        r@ == "kill-pane -t "@ + id@,
{
    let mut r = "kill-pane -t ".to_owned();
    r.append(id.as_str());
    r
}

/// The text of a `send-keys` command.
pub open spec fn send_keys_spec(pane: Seq<char>, keys: Seq<char>, literal: bool) -> Seq<char> {
    if literal {
        "send-keys -t "@ + pane + " -l "@ + shell_escape_spec(keys)
    } else {
        "send-keys -t "@ + pane + " "@ + shell_escape_spec(keys) + " Enter"@
    }
}

/// `send-keys -t <pane> [-l] <keys> Enter`
pub fn send_keys(pane: &PaneId, keys: &str, literal: bool) -> (r: String)
    ensures
        r@ == send_keys_spec(pane@, keys@, literal),
{
    let mut r = "send-keys -t ".to_owned();
    r.append(pane.as_str());
    if literal {
        r.append(" -l ");
        r.append(shell_escape(keys).as_str());
    } else {
        r.append(" ");
        r.append(shell_escape(keys).as_str());
        r.append(" Enter");
    }
    r
}

/// The text of a `set-option` command.
pub open spec fn set_option_spec(target: OptionTarget, name: Seq<char>, value: Seq<char>) -> Seq<
    char,
> {
    let tail = shell_escape_spec(name) + " "@ + shell_escape_spec(value);
    match target {
        OptionTarget::Global => "set-option -g "@ + tail,
        OptionTarget::Session(id) => "set-option -t "@ + id@ + " "@ + tail,
        OptionTarget::Window(id) => "set-option -t "@ + id@ + " "@ + tail,
        OptionTarget::Pane(id) => "set-option -p -t "@ + id@ + " "@ + tail,
    }
}

/// `set-option [-g] [-t <target>] <name> <value>`
pub fn set_option(target: &OptionTarget, name: &str, value: &str) -> (r: String)
    ensures
        r@ == set_option_spec(*target, name@, value@),
{
    let mut tail = shell_escape(name);
    tail.append(" ");
    tail.append(shell_escape(value).as_str());
    let mut r = match target {
        OptionTarget::Global => "set-option -g ".to_owned(),
        OptionTarget::Session(id) => {
            let mut r = "set-option -t ".to_owned();
            r.append(id.as_str());
            r.append(" ");
            r
        },
        OptionTarget::Window(id) => {
            let mut r = "set-option -t ".to_owned();
            r.append(id.as_str());
            r.append(" ");
            r
        },
        OptionTarget::Pane(id) => {
            let mut r = "set-option -p -t ".to_owned();
            r.append(id.as_str());
            r.append(" ");
            r
        },
    };
    r.append(tail.as_str());
    r
}

} // verus!

verus! {

/// Text that holds no line feed, carriage return or NUL: one tmux command line.
pub open spec fn single_line(s: Seq<char>) -> bool {
    forall|i: int| 0 <= i < s.len() ==> !is_stream_breaking(#[trigger] s[i])
}

proof fn lemma_single_line_concat(a: Seq<char>, b: Seq<char>)
    requires
        single_line(a),
        single_line(b),
    ensures
        single_line(a + b),
{
    assert forall|i: int| 0 <= i < (a + b).len() implies !is_stream_breaking(#[trigger] (a + b)[i]) by {
        if i < a.len() {
            assert((a + b)[i] == a[i]);
        } else {
            assert((a + b)[i] == b[i - a.len()]);
        }
    }
}

proof fn lemma_join_single_line(parts: Seq<Seq<char>>, sep: Seq<char>)
    requires
        single_line(sep),
        forall|i: int| 0 <= i < parts.len() ==> single_line(#[trigger] parts[i]),
    ensures
        single_line(join_spec(parts, sep)),
    decreases parts.len(),
{
    if parts.len() == 0 {
        assert(join_spec(parts, sep) =~= Seq::<char>::empty());
    } else if parts.len() == 1 {
        assert(single_line(parts[0]));
    } else {
        let init = parts.drop_last();
        assert forall|i: int| 0 <= i < init.len() implies single_line(#[trigger] init[i]) by {
            assert(init[i] == parts[i]);
        }
        lemma_join_single_line(init, sep);
        assert(single_line(parts[parts.len() - 1]));
        lemma_single_line_concat(join_spec(init, sep), sep);
        lemma_single_line_concat(join_spec(init, sep) + sep, parts.last());
    }
}

proof fn lemma_escaped_single_line(s: Seq<char>)
    ensures
        single_line(shell_escape_spec(s)),
{
    lemma_shell_escape_single_line(s);
}

proof fn lemma_flag_with_single_line(flag: Seq<char>, value: Option<String>)
    requires
        single_line(flag),
    ensures
        forall|i: int|
            0 <= i < flag_with(flag, value).len() ==> single_line(#[trigger] flag_with(flag, value)[i]),
        forall|i: int|
            0 <= i < escaped_word(value).len() ==> single_line(#[trigger] escaped_word(value)[i]),
{
    if let Some(v) = value {
        lemma_escaped_single_line(v@);
    }
}

/// An id that `new` accepts is one line: its sigil and then digits, with
/// perhaps a `+`.
pub proof fn lemma_valid_id_single_line(s: Seq<char>, sigil: char)
    requires
        is_valid_id(s, sigil),
        !is_stream_breaking(sigil),
    ensures
        single_line(s),
{
    let d = unsigned_digits(s.drop_first());
    assert forall|i: int| 0 <= i < s.len() implies !is_stream_breaking(#[trigger] s[i]) by {
        if i > 0 {
            assert(s[i] == s.drop_first()[i - 1]);
            if s.drop_first().len() > 0 && s.drop_first()[0] == '+' {
                if i > 1 {
                    assert(d[i - 2] == s[i]);
                    assert(is_digit(d[i - 2]));
                }
            } else {
                assert(d[i - 1] == s[i]);
                assert(is_digit(d[i - 1]));
            }
        }
    }
}

/// Every command built from caller text is one tmux command line, whatever the
/// names, keys, values and commands it carries, as long as the ids it names
/// are single lines (as every id that `new` accepts is).
pub proof fn lemma_commands_single_line(
    name: Seq<char>,
    session: Seq<char>,
    session_opts: NewSessionOptions,
    window_opts: NewWindowOptions,
    split_opts: SplitPaneOptions,
    pane: Seq<char>,
    keys: Seq<char>,
    literal: bool,
    target: OptionTarget,
    value: Seq<char>,
)
    requires
        single_line(session),
        single_line(window_opts.session@),
        single_line(split_opts.target@),
        single_line(pane),
        match target {
            OptionTarget::Global => true,
            OptionTarget::Session(id) => single_line(id@),
            OptionTarget::Window(id) => single_line(id@),
            OptionTarget::Pane(id) => single_line(id@),
        },
    ensures
        single_line("has-session -t "@ + shell_escape_spec(name)),
        single_line("kill-session -t "@ + session),
        single_line("kill-pane -t "@ + pane),
        single_line(join_spec(new_session_words(session_opts), " "@)),
        single_line(join_spec(new_window_words(window_opts), " "@)),
        single_line(join_spec(split_pane_words(split_opts), " "@)),
        single_line(send_keys_spec(pane, keys, literal)),
        single_line(set_option_spec(target, name, value)),
{
    reveal_strlit("has-session -t ");
    reveal_strlit("kill-session -t ");
    reveal_strlit("kill-pane -t ");
    lemma_single_line_concat("kill-session -t "@, session);
    lemma_single_line_concat("kill-pane -t "@, pane);
    reveal_strlit("new-session");
    reveal_strlit("new-window");
    reveal_strlit("split-window");
    reveal_strlit("-d");
    reveal_strlit("-s");
    reveal_strlit("-c");
    reveal_strlit("-n");
    reveal_strlit("-t");
    reveal_strlit("-h");
    reveal_strlit("-v");
    reveal_strlit("-P");
    reveal_strlit("-F '#{session_id}'");
    reveal_strlit("-F '#{window_id}'");
    reveal_strlit("-F '#{pane_id}'");
    reveal_strlit(" ");
    reveal_strlit("send-keys -t ");
    reveal_strlit(" -l ");
    reveal_strlit(" Enter");
    reveal_strlit("set-option -g ");
    reveal_strlit("set-option -t ");
    reveal_strlit("set-option -p -t ");
    lemma_escaped_single_line(name);
    lemma_escaped_single_line(keys);
    lemma_escaped_single_line(value);
    lemma_single_line_concat("has-session -t "@, shell_escape_spec(name));
    // new-session
    lemma_flag_with_single_line("-s"@, session_opts.name);
    lemma_flag_with_single_line("-c"@, session_opts.start_directory);
    let w = new_session_words(session_opts);
    assert forall|i: int| 0 <= i < w.len() implies single_line(#[trigger] w[i]) by {
        let d = if session_opts.detached {
            seq!["-d"@]
        } else {
            seq![]
        };
        let a = seq!["new-session"@];
        let b = flag_with("-s"@, session_opts.name);
        let c = flag_with("-c"@, session_opts.start_directory);
        let e = seq!["-P"@, "-F '#{session_id}'"@];
        assert(w == a + d + b + c + e);
        if i < 1 {
            assert(w[i] == a[i]);
        } else if i < 1 + d.len() {
            assert(w[i] == d[i - 1]);
        } else if i < 1 + d.len() + b.len() {
            assert(w[i] == b[i - 1 - d.len()]);
        } else if i < 1 + d.len() + b.len() + c.len() {
            assert(w[i] == c[i - 1 - d.len() - b.len()]);
        } else {
            assert(w[i] == e[i - 1 - d.len() - b.len() - c.len()]);
        }
    }
    lemma_join_single_line(w, " "@);
    // new-window
    lemma_flag_with_single_line("-n"@, window_opts.name);
    let w = new_window_words(window_opts);
    assert forall|i: int| 0 <= i < w.len() implies single_line(#[trigger] w[i]) by {
        let d = if window_opts.detached {
            seq!["-d"@]
        } else {
            seq![]
        };
        let a = seq!["new-window"@];
        let t = seq!["-t"@, window_opts.session@];
        let b = flag_with("-n"@, window_opts.name);
        let e = seq!["-P"@, "-F '#{window_id}'"@];
        let c = escaped_word(window_opts.start_command);
        lemma_flag_with_single_line("-n"@, window_opts.start_command);
        assert(w == a + d + t + b + e + c);
        if i < 1 {
            assert(w[i] == a[i]);
        } else if i < 1 + d.len() {
            assert(w[i] == d[i - 1]);
        } else if i < 3 + d.len() {
            assert(w[i] == t[i - 1 - d.len()]);
        } else if i < 3 + d.len() + b.len() {
            assert(w[i] == b[i - 3 - d.len()]);
        } else if i < 5 + d.len() + b.len() {
            assert(w[i] == e[i - 3 - d.len() - b.len()]);
        } else {
            assert(w[i] == c[i - 5 - d.len() - b.len()]);
        }
    }
    lemma_join_single_line(w, " "@);
    // split-window
    let w = split_pane_words(split_opts);
    assert forall|i: int| 0 <= i < w.len() implies single_line(#[trigger] w[i]) by {
        let a = seq![
            "split-window"@,
            if split_opts.vertical {
                "-h"@
            } else {
                "-v"@
            },
            "-t"@,
            split_opts.target@,
            "-P"@,
            "-F '#{pane_id}'"@,
        ];
        let c = escaped_word(split_opts.start_command);
        lemma_flag_with_single_line("-n"@, split_opts.start_command);
        assert(w == a + c);
        if i < 6 {
            assert(w[i] == a[i]);
        } else {
            assert(w[i] == c[i - 6]);
        }
    }
    lemma_join_single_line(w, " "@);
    // send-keys
    lemma_single_line_concat("send-keys -t "@, pane);
    if literal {
        lemma_single_line_concat("send-keys -t "@ + pane, " -l "@);
        lemma_single_line_concat("send-keys -t "@ + pane + " -l "@, shell_escape_spec(keys));
    } else {
        lemma_single_line_concat("send-keys -t "@ + pane, " "@);
        lemma_single_line_concat("send-keys -t "@ + pane + " "@, shell_escape_spec(keys));
        lemma_single_line_concat("send-keys -t "@ + pane + " "@ + shell_escape_spec(keys), " Enter"@);
    }
    // set-option
    let tail = shell_escape_spec(name) + " "@ + shell_escape_spec(value);
    lemma_single_line_concat(shell_escape_spec(name), " "@);
    lemma_single_line_concat(shell_escape_spec(name) + " "@, shell_escape_spec(value));
    match target {
        OptionTarget::Global => {
            lemma_single_line_concat("set-option -g "@, tail);
        },
        OptionTarget::Session(id) => {
            lemma_single_line_concat("set-option -t "@, id@);
            lemma_single_line_concat("set-option -t "@ + id@, " "@);
            lemma_single_line_concat("set-option -t "@ + id@ + " "@, tail);
        },
        OptionTarget::Window(id) => {
            lemma_single_line_concat("set-option -t "@, id@);
            lemma_single_line_concat("set-option -t "@ + id@, " "@);
            lemma_single_line_concat("set-option -t "@ + id@ + " "@, tail);
        },
        OptionTarget::Pane(id) => {
            lemma_single_line_concat("set-option -p -t "@, id@);
            lemma_single_line_concat("set-option -p -t "@ + id@, " "@);
            lemma_single_line_concat("set-option -p -t "@ + id@ + " "@, tail);
        },
    }
}

} // verus!
