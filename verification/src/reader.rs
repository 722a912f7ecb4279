//! The reader's decisions: how lines of control-mode output become responses,
//! handshake signals and notifications.
use vstd::prelude::*;

use crate::notification::{copy_notification, from_raw_spec, Notification, NotificationView};
use crate::protocol::{parse_line, parse_line_spec, Line, LineView};
use crate::response::{Response, ResponseView};
use crate::text::{chars_eq_str, chars_of, slice_chars, string_from_chars, strings_view};

verus! {

/// State of the startup handshake.
#[derive(Debug, Clone, Copy, PartialEq, Eq)]
pub enum HandshakeState {
    /// Waiting for the initial `%begin 0 0 0` / `%end 0 0 0` block.
    Waiting,
    /// Handshake completed successfully.
    Ready,
    /// tmux exited before completing the handshake.
    Failed,
}

/// What the reader keeps between lines: the response block in flight, if any,
/// and whether the handshake is done.
pub struct ReaderState {
    current_serial: Option<u64>,
    current_flags: u32,
    accumulator: Vec<String>,
    handshake_done: bool,
}

/// A [`ReaderState`] with its accumulated lines taken as character sequences.
pub struct ReaderView {
    pub current_serial: Option<u64>,
    pub current_flags: u32,
    pub accumulator: Seq<Seq<char>>,
    pub handshake_done: bool,
}

impl View for ReaderState {
    type V = ReaderView;

    closed spec fn view(&self) -> ReaderView {
        ReaderView {
            current_serial: self.current_serial,
            current_flags: self.current_flags,
            accumulator: strings_view(self.accumulator@),
            handshake_done: self.handshake_done,
        }
    }
}

/// What the reader loop does after a line.
pub enum ReaderAction {
    /// Nothing; read the next line.
    Continue,
    /// The handshake block is complete: report that tmux is ready.
    HandshakeReady,
    /// A response block is complete: hand it to the next waiting caller.
    Deliver(Response),
    /// Send the notification to every subscriber.
    Broadcast(Notification),
    /// Send the notification to every subscriber, then stop reading: tmux is
    /// exiting.
    Stop(Notification),
}

/// A [`ReaderAction`] in terms of views.
pub enum ActionView {
    Continue,
    HandshakeReady,
    Deliver(ResponseView),
    Broadcast(NotificationView),
    Stop(NotificationView),
}

impl View for ReaderAction {
    type V = ActionView;

    open spec fn view(&self) -> ActionView {
        match self {
            ReaderAction::Continue => ActionView::Continue,
            ReaderAction::HandshakeReady => ActionView::HandshakeReady,
            ReaderAction::Deliver(r) => ActionView::Deliver(r@),
            ReaderAction::Broadcast(n) => ActionView::Broadcast(n@),
            ReaderAction::Stop(n) => ActionView::Stop(n@),
        }
    }
}

/// The state before any line has been read.
pub open spec fn initial_reader() -> ReaderView {
    ReaderView {
        current_serial: None,
        current_flags: 0,
        accumulator: seq![],
        handshake_done: false,
    }
}

/// A line without the `\r` that a raw pty leaves before the line feed.
pub open spec fn strip_cr(s: Seq<char>) -> Seq<char> {
    if s.len() > 0 && s.last() == '\r' {
        s.drop_last()
    } else {
        s
    }
}

/// The reader's next state and action after one line.
///
/// `%begin` opens a block; the matching `%end` closes it (the first one
/// completes the handshake, later ones deliver a response); the matching
/// `%error` delivers an error response; output lines are kept while a block is
/// open and dropped otherwise; notifications are broadcast, and `%exit` stops
/// the reader. Ends and errors for another serial are ignored.
pub open spec fn reader_step(st: ReaderView, raw_line: Seq<char>) -> (ReaderView, ActionView) {
    match parse_line_spec(strip_cr(raw_line)) {
        LineView::Begin { serial, flags, .. } => (
            ReaderView {
                current_serial: Some(serial),
                current_flags: flags,
                accumulator: seq![],
                handshake_done: st.handshake_done,
            },
            ActionView::Continue,
        ),
        LineView::End { serial, .. } => {
            if st.current_serial == Some(serial) {
                if !st.handshake_done {
                    (
                        ReaderView { current_serial: None, handshake_done: true, ..st },
                        ActionView::HandshakeReady,
                    )
                } else {
                    (
                        ReaderView { current_serial: None, accumulator: seq![], ..st },
                        ActionView::Deliver(
                            ResponseView {
                                serial,
                                flags: st.current_flags,
                                output: st.accumulator,
                                is_error: false,
                            },
                        ),
                    )
                }
            } else {
                (st, ActionView::Continue)
            }
        },
        LineView::Error { serial, .. } => {
            if st.current_serial == Some(serial) {
                (
                    ReaderView { current_serial: None, accumulator: seq![], ..st },
                    ActionView::Deliver(
                        ResponseView {
                            serial,
                            flags: st.current_flags,
                            output: st.accumulator,
                            is_error: true,
                        },
                    ),
                )
            } else {
                (st, ActionView::Continue)
            }
        },
        LineView::Notification { kind, rest } => (
            st,
            if kind == "exit"@ {
                ActionView::Stop(from_raw_spec(kind, rest))
            } else {
                ActionView::Broadcast(from_raw_spec(kind, rest))
            },
        ),
        LineView::Output(text) => {
            if st.current_serial is Some {
                (ReaderView { accumulator: st.accumulator.push(text), ..st }, ActionView::Continue)
            } else {
                (st, ActionView::Continue)
            }
        },
    }
}

fn take_accumulator(v: &mut Vec<String>) -> (r: Vec<String>)
    ensures
        r@ == old(v)@,
        final(v)@ == Seq::<String>::empty(),
{
    let mut r: Vec<String> = Vec::new();
    std::mem::swap(&mut r, v);
    r
}

impl ReaderState {
    /// The state before any line has been read.
    pub fn new() -> (r: Self)
        ensures
            r@ == initial_reader(),
    {
        let r = ReaderState {
            current_serial: None,
            current_flags: 0,
            accumulator: Vec::new(),
            handshake_done: false,
        };
        assert(strings_view(r.accumulator@) =~= seq![]);
        r
    }

    /// Whether the handshake block has completed.
    pub fn handshake_done(&self) -> (r: bool)
        ensures
            r == self@.handshake_done,
    {
        self.handshake_done
    }

    /// Takes in one line of control-mode output (without its line feed) and
    /// says what to do with it.
    pub fn step(&mut self, line: &str) -> (action: ReaderAction)
        ensures
            (final(self)@, action@) == reader_step(old(self)@, line@),
    {
        let v = chars_of(line);
        let n = v.len();
        let clean = if n > 0 && v[n - 1] == '\r' {
            slice_chars(v.as_slice(), 0, n - 1)
        } else {
            v
        };
        assert(clean@ =~= strip_cr(line@));
        let text = string_from_chars(clean.as_slice());
        let parsed = parse_line(text.as_str());
        proof {
            assert(strings_view(seq![]) =~= Seq::<Seq<char>>::empty());
        }
        match parsed {
            Line::Begin { serial, flags, .. } => {
                self.current_serial = Some(serial);
                self.current_flags = flags;
                self.accumulator = Vec::new();
                ReaderAction::Continue
            },
            Line::End { serial, .. } => {
                if self.current_serial == Some(serial) {
                    self.current_serial = None;
                    if !self.handshake_done {
                        // First %begin/%end pair = startup handshake complete.
                        // tmux 3.5a+ may use a non-zero serial for the initial block.
                        self.handshake_done = true;
                        ReaderAction::HandshakeReady
                    } else {
                        let output = take_accumulator(&mut self.accumulator);
                        ReaderAction::Deliver(
                            Response { serial, flags: self.current_flags, output, is_error: false },
                        )
                    }
                } else {
                    ReaderAction::Continue
                }
            },
            Line::Error { serial, .. } => {
                if self.current_serial == Some(serial) {
                    self.current_serial = None;
                    let output = take_accumulator(&mut self.accumulator);
                    ReaderAction::Deliver(
                        Response { serial, flags: self.current_flags, output, is_error: true },
                    )
                } else {
                    ReaderAction::Continue
                }
            },
            Line::Notification(raw) => {
                let kind = chars_of(raw.kind.as_str());
                let is_exit = chars_eq_str(kind.as_slice(), "exit");
                let notif = Notification::from_raw(&raw);
                if is_exit {
                    ReaderAction::Stop(notif)
                } else {
                    ReaderAction::Broadcast(notif)
                }
            },
            Line::Output(text) => {
                if self.current_serial.is_some() {
                    let ghost before = self.accumulator@;
                    self.accumulator.push(text);
                    assert(strings_view(self.accumulator@) =~= strings_view(before).push(text@));
                }
                // Lines outside a %begin/%end block are discarded
                ReaderAction::Continue
            },
        }
    }
}

} // verus!

verus! {

/// The reader's state and actions after a sequence of lines.
pub open spec fn reader_run(st: ReaderView, lines: Seq<Seq<char>>) -> (ReaderView, Seq<ActionView>)
    decreases lines.len(),
{
    if lines.len() == 0 {
        (st, seq![])
    } else {
        let (next, action) = reader_step(st, lines[0]);
        let (last, actions) = reader_run(next, lines.drop_first());
        (last, seq![action] + actions)
    }
}

/// What a line means once its trailing `\r` is removed.
pub open spec fn line_meaning(l: Seq<char>) -> LineView {
    parse_line_spec(strip_cr(l))
}

/// Lines that may stand inside the response block with the given serial:
/// output lines, notifications other than `%exit`, and `%end` or `%error`
/// lines for some other serial.
pub open spec fn is_block_line(l: Seq<char>, serial: u64) -> bool {
    match line_meaning(l) {
        LineView::Output(_) => true,
        LineView::Notification { kind, .. } => kind != "exit"@,
        LineView::End { serial: s, .. } => s != serial,
        LineView::Error { serial: s, .. } => s != serial,
        _ => false,
    }
}

/// The output lines among `lines`, in order.
pub open spec fn block_output(lines: Seq<Seq<char>>) -> Seq<Seq<char>>
    decreases lines.len(),
{
    if lines.len() == 0 {
        seq![]
    } else {
        match line_meaning(lines[0]) {
            LineView::Output(t) => seq![t] + block_output(lines.drop_first()),
            _ => block_output(lines.drop_first()),
        }
    }
}

/// Inside an open block, output lines are collected in order, notifications
/// are broadcast, and ends and errors for other serials are ignored; nothing
/// else changes.
pub proof fn lemma_block_body(st: ReaderView, serial: u64, lines: Seq<Seq<char>>)
    requires
        st.current_serial == Some(serial),
        forall|i: int| 0 <= i < lines.len() ==> is_block_line(#[trigger] lines[i], serial),
    ensures
        reader_run(st, lines).0 == (ReaderView {
            accumulator: st.accumulator + block_output(lines),
            ..st
        }),
        reader_run(st, lines).1.len() == lines.len(),
        forall|i: int|
            0 <= i < lines.len() ==> !(#[trigger] reader_run(st, lines).1[i] is Deliver)
                && !(reader_run(st, lines).1[i] is HandshakeReady) && !(reader_run(
                st,
                lines,
            ).1[i] is Stop),
    decreases lines.len(),
{
    if lines.len() == 0 {
        assert(st.accumulator + block_output(lines) =~= st.accumulator);
    } else {
        let l = lines[0];
        assert(is_block_line(l, serial));
        let (next, action) = reader_step(st, l);
        let rest = lines.drop_first();
        assert forall|i: int| 0 <= i < rest.len() implies is_block_line(#[trigger] rest[i], serial) by {
            assert(rest[i] == lines[i + 1]);
        }
        assert(next.current_serial == st.current_serial);
        lemma_block_body(next, serial, rest);
        match line_meaning(l) {
            LineView::Output(t) => {
                assert(next.accumulator == st.accumulator.push(t));
                assert(st.accumulator.push(t) + block_output(rest) =~= st.accumulator + (seq![t]
                    + block_output(rest)));
            },
            _ => {},
        }
        let acts = reader_run(st, lines).1;
        assert forall|i: int| 0 <= i < lines.len() implies !(#[trigger] acts[i] is Deliver) && !(
        acts[i] is HandshakeReady) && !(acts[i] is Stop) by {
            if i > 0 {
                assert(acts[i] == reader_run(next, rest).1[i - 1]);
            }
        }
    }
}

/// A whole response block — a `%begin`, then output lines, notifications and
/// ends or errors for other serials, then the matching `%end` — ends with the collected output lines delivered
/// under the block's serial and flags (or, for the first block, with the
/// handshake reported), and leaves no block open.
pub proof fn lemma_block_delivered(
    st: ReaderView,
    begin: Seq<char>,
    body: Seq<Seq<char>>,
    end: Seq<char>,
    serial: u64,
    flags: u32,
)
    requires
        line_meaning(begin) matches LineView::Begin { serial: s, flags: f, .. } && s == serial && f
            == flags,
        forall|i: int| 0 <= i < body.len() ==> is_block_line(#[trigger] body[i], serial),
        line_meaning(end) matches LineView::End { serial: s, .. } && s == serial,
    ensures
        ({
            let (last, actions) = reader_run(st, seq![begin] + body + seq![end]);
            &&& actions.len() == body.len() + 2
            &&& actions.last() == if st.handshake_done {
                ActionView::Deliver(
                    ResponseView { serial, flags, output: block_output(body), is_error: false },
                )
            } else {
                ActionView::HandshakeReady
            }
            &&& forall|i: int|
                0 <= i < actions.len() - 1 ==> !(#[trigger] actions[i] is Deliver) && !(
                actions[i] is HandshakeReady)
            &&& last.current_serial is None
            &&& last.handshake_done
            &&& st.handshake_done ==> last.accumulator.len() == 0
        }),
{
    lemma_block_with_closer(st, begin, body, end, serial, flags);
}

/// The same block closed by a matching `%error` instead ends with the collected
/// output delivered as an error response, whether or not the handshake is done.
pub proof fn lemma_error_block_delivered(
    st: ReaderView,
    begin: Seq<char>,
    body: Seq<Seq<char>>,
    error: Seq<char>,
    serial: u64,
    flags: u32,
)
    requires
        line_meaning(begin) matches LineView::Begin { serial: s, flags: f, .. } && s == serial && f
            == flags,
        forall|i: int| 0 <= i < body.len() ==> is_block_line(#[trigger] body[i], serial),
        line_meaning(error) matches LineView::Error { serial: s, .. } && s == serial,
    ensures
        ({
            let (last, actions) = reader_run(st, seq![begin] + body + seq![error]);
            &&& actions.len() == body.len() + 2
            &&& actions.last() == ActionView::Deliver(
                ResponseView { serial, flags, output: block_output(body), is_error: true },
            )
            &&& forall|i: int|
                0 <= i < actions.len() - 1 ==> !(#[trigger] actions[i] is Deliver) && !(
                actions[i] is HandshakeReady)
            &&& last.current_serial is None
            &&& last.handshake_done == st.handshake_done
            &&& last.accumulator.len() == 0
        }),
{
    lemma_block_with_closer(st, begin, body, error, serial, flags);
}

proof fn lemma_run_append_one(st: ReaderView, lines: Seq<Seq<char>>, l: Seq<char>)
    ensures
        reader_run(st, lines + seq![l]) == ({
            let (mid, acts) = reader_run(st, lines);
            let (last, a) = reader_step(mid, l);
            (last, acts + seq![a])
        }),
    decreases lines.len(),
{
    let whole = lines + seq![l];
    if lines.len() == 0 {
        assert(whole =~= seq![l]);
        assert(whole.drop_first() =~= Seq::<Seq<char>>::empty());
        let (next, a) = reader_step(st, l);
        assert(reader_run(next, whole.drop_first()) == (next, Seq::<ActionView>::empty()));
        assert(reader_run(st, lines) == (st, Seq::<ActionView>::empty()));
        assert(reader_run(st, whole).1 =~= Seq::<ActionView>::empty() + seq![a]);
        assert(reader_run(st, whole).0 == next);
    } else {
        let (next, a0) = reader_step(st, lines[0]);
        assert(whole[0] == lines[0]);
        assert(whole.drop_first() =~= lines.drop_first() + seq![l]);
        lemma_run_append_one(next, lines.drop_first(), l);
        let (mid, acts) = reader_run(next, lines.drop_first());
        let (last, a) = reader_step(mid, l);
        assert(reader_run(next, whole.drop_first()) == (last, acts + seq![a]));
        assert(reader_run(st, lines) == (mid, seq![a0] + acts));
        assert(reader_run(st, whole).1 =~= (seq![a0] + acts) + seq![a]);
        assert(reader_run(st, whole).0 == last);
    }
}

proof fn lemma_block_with_closer(
    st: ReaderView,
    begin: Seq<char>,
    body: Seq<Seq<char>>,
    closer: Seq<char>,
    serial: u64,
    flags: u32,
)
    requires
        line_meaning(begin) matches LineView::Begin { serial: s, flags: f, .. } && s == serial && f
            == flags,
        forall|i: int| 0 <= i < body.len() ==> is_block_line(#[trigger] body[i], serial),
        (line_meaning(closer) matches LineView::End { serial: s, .. } && s == serial) || (
        line_meaning(closer) matches LineView::Error { serial: s, .. } && s == serial),
    ensures
        ({
            let opened = reader_step(st, begin).0;
            let (mid, body_actions) = reader_run(opened, body);
            let (last, closing) = reader_step(mid, closer);
            &&& reader_run(st, seq![begin] + body + seq![closer]) == (last, seq![
                ActionView::Continue,
            ] + body_actions + seq![closing])
            &&& mid == ReaderView { accumulator: block_output(body), ..opened }
            &&& opened == ReaderView {
                current_serial: Some(serial),
                current_flags: flags,
                accumulator: seq![],
                handshake_done: st.handshake_done,
            }
            &&& body_actions.len() == body.len()
            &&& forall|i: int|
                0 <= i < body.len() ==> !(#[trigger] body_actions[i] is Deliver) && !(
                body_actions[i] is HandshakeReady)
        }),
        ({
            let (last, actions) = reader_run(st, seq![begin] + body + seq![closer]);
            &&& actions.len() == body.len() + 2
            &&& forall|i: int|
                0 <= i < actions.len() - 1 ==> !(#[trigger] actions[i] is Deliver) && !(
                actions[i] is HandshakeReady)
            &&& last.current_serial is None
            &&& (line_meaning(closer) is End ==> {
                &&& actions.last() == if st.handshake_done {
                    ActionView::Deliver(
                        ResponseView { serial, flags, output: block_output(body), is_error: false },
                    )
                } else {
                    ActionView::HandshakeReady
                }
                &&& last.handshake_done
                &&& st.handshake_done ==> last.accumulator.len() == 0
            })
            &&& (line_meaning(closer) is Error ==> {
                &&& actions.last() == ActionView::Deliver(
                    ResponseView { serial, flags, output: block_output(body), is_error: true },
                )
                &&& last.handshake_done == st.handshake_done
                &&& last.accumulator.len() == 0
            })
        }),
{
    let opened = reader_step(st, begin).0;
    assert(reader_step(st, begin).1 == ActionView::Continue);
    lemma_block_body(opened, serial, body);
    assert(opened.accumulator + block_output(body) =~= block_output(body));
    let lines = seq![begin] + body;
    assert(lines[0] == begin);
    assert(lines.drop_first() =~= body);
    lemma_run_append_one(st, lines, closer);
    let (mid, body_actions) = reader_run(opened, body);
    let (last, closing) = reader_step(mid, closer);
    let actions = seq![ActionView::Continue] + body_actions + seq![closing];
    assert(reader_run(st, lines).1 =~= seq![ActionView::Continue] + body_actions);
    assert forall|i: int| 0 <= i < actions.len() - 1 implies !(#[trigger] actions[i] is Deliver)
        && !(actions[i] is HandshakeReady) by {
        if i > 0 {
            assert(actions[i] == body_actions[i - 1]);
        }
    }
}

/// Outside a block, an output line changes nothing.
pub proof fn lemma_stray_output_dropped(st: ReaderView, l: Seq<char>)
    requires
        st.current_serial is None,
        line_meaning(l) is Output,
    ensures
        reader_step(st, l) == (st, ActionView::Continue),
{
}

/// An `%end` or `%error` whose serial is not that of the open block (or that
/// comes with no block open) changes nothing.
pub proof fn lemma_unmatched_close_ignored(st: ReaderView, l: Seq<char>)
    requires
        match line_meaning(l) {
            LineView::End { serial, .. } => st.current_serial != Some(serial),
            LineView::Error { serial, .. } => st.current_serial != Some(serial),
            _ => false,
        },
    ensures
        reader_step(st, l) == (st, ActionView::Continue),
{
}

/// A notification never changes the reader's state; `%exit` stops the reader
/// and any other kind is broadcast.
pub proof fn lemma_notification_keeps_state(st: ReaderView, l: Seq<char>)
    requires
        line_meaning(l) is Notification,
    ensures
        reader_step(st, l).0 == st,
        reader_step(st, l).1 is Stop <==> line_meaning(l)->kind == "exit"@,
        reader_step(st, l).1 is Broadcast <==> line_meaning(l)->kind != "exit"@,
{
}

} // verus!

verus! {

/// The senders of `s` whose entry in `reached` is `true`, in their order.
pub open spec fn kept_senders<S>(s: Seq<S>, reached: Seq<bool>) -> Seq<S>
    decreases s.len(),
{
    if s.len() == 0 || reached.len() == 0 {
        seq![]
    } else {
        let rest = kept_senders(s.drop_last(), reached.drop_last());
        if reached.last() {
            rest.push(s.last())
        } else {
            rest
        }
    }
}

/// Keeps, in order, exactly the subscribers whose entry in `reached` is
/// `true`: those whose copy of the notification could be handed over.
pub fn retain_reached<S>(senders: &mut Vec<S>, reached: &Vec<bool>)
    requires
        old(senders)@.len() == reached@.len(),
    ensures
        final(senders)@ == kept_senders(old(senders)@, reached@),
{
    let mut all: Vec<S> = Vec::new();
    std::mem::swap(&mut all, senders);
    let ghost full = all@;
    let n = all.len();
    // Reverse the senders, so that popping gives them back in their order.
    let mut rev: Vec<S> = Vec::new();
    while all.len() > 0
        invariant
            n == full.len(),
            all@.len() + rev@.len() == n,
            forall|k: int| 0 <= k < all@.len() ==> #[trigger] all@[k] == full[k],
            forall|k: int| 0 <= k < rev@.len() ==> #[trigger] rev@[k] == full[n - 1 - k],
        decreases all.len(),
    {
        let tx = all.pop().unwrap();
        rev.push(tx);
    }
    let mut kept: Vec<S> = Vec::new();
    let mut i: usize = 0;
    assert(full.take(0) =~= Seq::<S>::empty());
    while rev.len() > 0
        invariant
            n == full.len(),
            n == reached@.len(),
            rev@.len() + i == n,
            forall|k: int| 0 <= k < rev@.len() ==> #[trigger] rev@[k] == full[n - 1 - k],
            kept@ == kept_senders(full.take(i as int), reached@.take(i as int)),
        decreases rev.len(),
    {
        let tx = rev.pop().unwrap();
        assert(tx == full[i as int]);
        proof {
            assert(full.take(i + 1).drop_last() =~= full.take(i as int));
            assert(reached@.take(i + 1).drop_last() =~= reached@.take(i as int));
            assert(full.take(i + 1).last() == tx);
            assert(reached@.take(i + 1).last() == reached@[i as int]);
        }
        if reached[i] {
            kept.push(tx);
        }
        i += 1;
    }
    assert(full.take(n as int) =~= full);
    assert(reached@.take(n as int) =~= reached@);
    *senders = kept;
}

/// One copy of `notif` for each of `count` subscribers, in order: what a
/// broadcast hands to each subscriber.
pub fn broadcast_copies(notif: &Notification, count: usize) -> (r: Vec<Notification>)
    ensures
        r@.len() == count,
        forall|i: int| 0 <= i < count ==> (#[trigger] r@[i])@ == notif@,
{
    let mut copies: Vec<Notification> = Vec::new();
    let mut i: usize = 0;
    while i < count
        invariant
            i <= count,
            copies@.len() == i,
            forall|k: int| 0 <= k < i ==> (#[trigger] copies@[k])@ == notif@,
        decreases count - i,
    {
        copies.push(copy_notification(notif));
        i += 1;
    }
    copies
}

} // verus!

verus! {

/// Inside an open block, an output line (one that starts with neither `%` nor
/// ESC) is collected character for character: reading removes only the
/// carriage return a pty leaves at the end, and nothing else.
pub proof fn lemma_block_line_collected_verbatim(st: ReaderView, l: Seq<char>)
    requires
        st.current_serial is Some,
        l.len() == 0 || (l[0] != '%' && l[0] != '\x1b'),
        l.len() == 0 || l.last() != '\r',
    ensures
        reader_step(st, l) == (ReaderView { accumulator: st.accumulator.push(l), ..st }, ActionView::Continue),
        reader_step(st, l + seq!['\r']) == (ReaderView { accumulator: st.accumulator.push(l), ..st }, ActionView::Continue),
{
    crate::protocol::lemma_output_line_kept(l);
    let lr = l + seq!['\r'];
    assert(lr.drop_last() =~= l);
    assert(lr.last() == '\r');
    assert(strip_cr(lr) == l);
    assert(strip_cr(l) == l);
}

/// How many entries of `r` are `true`.
pub open spec fn count_true(r: Seq<bool>) -> nat
    decreases r.len(),
{
    if r.len() == 0 {
        0
    } else {
        count_true(r.drop_last()) + if r.last() {
            1nat
        } else {
            0nat
        }
    }
}

/// The kept subscribers are exactly those whose own entry in `reached` is
/// `true`, in their order: there are as many as there are `true` entries, and
/// the subscriber at position `i` with a `true` entry is the one kept after
/// the `true` entries before it.
pub proof fn lemma_kept_senders_are_the_reached<S>(s: Seq<S>, r: Seq<bool>)
    requires
        s.len() == r.len(),
    ensures
        kept_senders(s, r).len() == count_true(r),
        forall|i: int|
            0 <= i < s.len() && r[i] ==> kept_senders(s, r)[count_true(r.take(i)) as int] == s[i],
    decreases s.len(),
{
    if s.len() > 0 {
        let s0 = s.drop_last();
        let r0 = r.drop_last();
        lemma_kept_senders_are_the_reached(s0, r0);
        let n = s.len() - 1;
        assert forall|i: int| 0 <= i < s.len() && r[i] implies kept_senders(s, r)[count_true(
            r.take(i),
        ) as int] == s[i] by {
            if i < n {
                assert(r.take(i) =~= r0.take(i));
                assert(r0[i] == r[i]);
                assert(s0[i] == s[i]);
                lemma_count_true_prefix(r0, i);
            } else {
                assert(r.take(i) =~= r0);
            }
        }
    }
}

proof fn lemma_count_true_prefix(r: Seq<bool>, i: int)
    requires
        0 <= i < r.len(),
        r[i],
    ensures
        count_true(r.take(i)) < count_true(r),
    decreases r.len(),
{
    if i < r.len() - 1 {
        lemma_count_true_prefix(r.drop_last(), i);
        assert(r.take(i) =~= r.drop_last().take(i));
    } else {
        assert(r.take(i) =~= r.drop_last());
    }
}

} // verus!
