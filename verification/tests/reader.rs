use std::collections::HashMap;
use tmux_cmc::queue::PendingQueue;
use tmux_cmc::Response;
use tmux_cmc::reader::retain_reached;
use std::sync::mpsc;

use tmux_cmc::reader::{broadcast_copies, ReaderAction, ReaderState};
use tmux_cmc::Notification;

/// Sends each subscriber its copy and keeps the reachable ones, as the reader
/// thread does.
fn broadcast(senders: &mut Vec<mpsc::Sender<Notification>>, notif: &Notification) {
    let copies = broadcast_copies(notif, senders.len());
    let reached: Vec<bool> =
        senders.iter().zip(copies).map(|(tx, c)| tx.send(c).is_ok()).collect();
    retain_reached(senders, &reached);
}

fn feed(st: &mut ReaderState, lines: &[&str]) -> Vec<ReaderAction> {
    lines.iter().map(|l| st.step(l)).collect()
}

#[test]
fn handshake_then_response() {
    let mut st = ReaderState::new();
    assert!(!st.handshake_done());
    let acts = feed(&mut st, &["\x1bP1000p%begin 1775252542 271 0", "%end 1775252542 271 0"]);
    assert!(matches!(acts[0], ReaderAction::Continue));
    assert!(matches!(acts[1], ReaderAction::HandshakeReady));
    assert!(st.handshake_done());

    let acts = feed(&mut st, &["%begin 1 5 1", "$3", "second", "%end 1 5 1"]);
    match &acts[3] {
        ReaderAction::Deliver(r) => {
            assert_eq!(r.serial, 5);
            assert_eq!(r.flags, 1);
            assert_eq!(r.output, vec!["$3".to_string(), "second".to_string()]);
            assert!(!r.is_error);
            assert_eq!(r.first_line(), Some("$3"));
            assert_eq!(r.text(), "$3\nsecond");
        }
        _ => panic!("expected a delivery"),
    }
}

#[test]
fn error_block_is_delivered_as_error() {
    let mut st = ReaderState::new();
    feed(&mut st, &["%begin 0 0 0", "%end 0 0 0"]);
    let acts = feed(&mut st, &["%begin 1 9 0", "unknown command: foo", "%error 1 9 0"]);
    match &acts[2] {
        ReaderAction::Deliver(r) => {
            assert!(r.is_error);
            assert_eq!(r.serial, 9);
            assert_eq!(r.output, vec!["unknown command: foo".to_string()]);
        }
        _ => panic!("expected a delivery"),
    }
}

#[test]
fn trailing_carriage_returns_are_stripped() {
    let mut st = ReaderState::new();
    feed(&mut st, &["%begin 0 0 0\r", "%end 0 0 0\r"]);
    assert!(st.handshake_done());
    let acts = feed(&mut st, &["%begin 1 2 0\r", "$1\r", "%end 1 2 0\r"]);
    match &acts[2] {
        ReaderAction::Deliver(r) => assert_eq!(r.output, vec!["$1".to_string()]),
        _ => panic!("expected a delivery"),
    }
}

#[test]
fn notifications_inside_a_block_are_broadcast_not_collected() {
    let mut st = ReaderState::new();
    feed(&mut st, &["%begin 0 0 0", "%end 0 0 0"]);
    let acts = feed(&mut st, &["%begin 1 3 0", "a", "%window-add @4", "b", "%end 1 3 0"]);
    assert!(matches!(acts[2], ReaderAction::Broadcast(Notification::WindowAdded { .. })));
    match &acts[4] {
        ReaderAction::Deliver(r) => assert_eq!(r.output, vec!["a".to_string(), "b".to_string()]),
        _ => panic!("expected a delivery"),
    }
}

#[test]
fn stray_output_and_mismatched_end_are_ignored() {
    let mut st = ReaderState::new();
    feed(&mut st, &["%begin 0 0 0", "%end 0 0 0"]);
    let acts = feed(&mut st, &["stray", "%begin 1 4 0", "x", "%end 1 99 0", "y", "%end 1 4 0"]);
    assert!(matches!(acts[3], ReaderAction::Continue));
    match &acts[5] {
        ReaderAction::Deliver(r) => assert_eq!(r.output, vec!["x".to_string(), "y".to_string()]),
        _ => panic!("expected a delivery"),
    }
}

#[test]
fn exit_stops_the_reader() {
    let mut st = ReaderState::new();
    let acts = feed(&mut st, &["%exit"]);
    assert!(matches!(acts[0], ReaderAction::Stop(Notification::Exit)));
    assert!(!st.handshake_done());
}

#[test]
fn broadcast_drops_closed_subscribers() {
    let (tx1, rx1) = mpsc::channel();
    let (tx2, rx2) = mpsc::channel();
    let (tx3, rx3) = mpsc::channel();
    drop(rx2);
    let mut senders = vec![tx1, tx2, tx3];
    broadcast(&mut senders, &Notification::SessionsChanged);
    assert_eq!(senders.len(), 2);
    assert!(matches!(rx1.try_recv(), Ok(Notification::SessionsChanged)));
    assert!(matches!(rx3.try_recv(), Ok(Notification::SessionsChanged)));
    drop(rx1);
    broadcast(&mut senders, &Notification::Exit);
    assert_eq!(senders.len(), 1);
    assert!(matches!(rx3.try_recv(), Ok(Notification::Exit)));
}

#[test]
fn broadcast_keeps_live_subscribers_in_order() {
    let (tx_a, rx_a) = mpsc::channel();
    let (tx_b, rx_b) = mpsc::channel::<Notification>();
    let (tx_c, rx_c) = mpsc::channel();
    drop(rx_b);
    let mut senders = vec![tx_a, tx_b, tx_c];
    broadcast(&mut senders, &Notification::WindowAdded { window: tmux_cmc::WindowId::new("@1").unwrap() });
    assert_eq!(senders.len(), 2);
    match rx_a.try_recv() {
        Ok(Notification::WindowAdded { window }) => assert_eq!(window.as_str(), "@1"),
        other => panic!("{other:?}"),
    }
    assert!(rx_a.try_recv().is_err());
    assert!(matches!(rx_c.try_recv(), Ok(Notification::WindowAdded { .. })));
    assert!(rx_c.try_recv().is_err());
    // The kept senders are tx_a then tx_c.
    senders[0].send(Notification::Exit).unwrap();
    senders[1].send(Notification::SessionsChanged).unwrap();
    assert!(matches!(rx_a.try_recv(), Ok(Notification::Exit)));
    assert!(matches!(rx_c.try_recv(), Ok(Notification::SessionsChanged)));
}

#[test]
fn retain_reached_keeps_exactly_the_reached() {
    let (tx1, rx1) = mpsc::channel();
    let (tx2, _rx2) = mpsc::channel();
    let (tx3, rx3) = mpsc::channel();
    let mut senders = vec![tx1, tx2, tx3];
    retain_reached(&mut senders, &vec![true, false, true]);
    assert_eq!(senders.len(), 2);
    senders[0].send(Notification::Exit).unwrap();
    senders[1].send(Notification::Exit).unwrap();
    assert!(rx1.try_recv().is_ok());
    assert!(rx3.try_recv().is_ok());
}

/// The reader thread's loop over `input`, with one registered waiter and one
/// subscriber: what the waiter receives, what the subscriber receives, and
/// whether the handshake completed.
fn run_reader(input: &str) -> (Option<Response>, Vec<Notification>, bool) {
    let mut queue = PendingQueue::new();
    let mut channels = HashMap::new();
    let id = queue.register().unwrap();
    let (tx, rx) = oneshot::channel::<Response>();
    channels.insert(id, tx);
    let (ntx, nrx) = mpsc::channel();
    let mut senders = vec![ntx];
    let mut st = ReaderState::new();
    let mut ready = false;
    for line in input.split('\n').filter(|l| !l.is_empty()) {
        match st.step(line) {
            ReaderAction::Continue => {}
            ReaderAction::HandshakeReady => ready = true,
            ReaderAction::Deliver(r) => {
                if let Some((to, r)) = queue.deliver(r) {
                    if let Some(tx) = channels.remove(&to) {
                        let _ = tx.send(r);
                    }
                }
            }
            ReaderAction::Broadcast(n) => broadcast(&mut senders, &n),
            ReaderAction::Stop(n) => {
                broadcast(&mut senders, &n);
                break;
            }
        }
    }
    for to in queue.drain() {
        channels.remove(&to);
    }
    senders.clear();
    (rx.recv().ok(), nrx.iter().collect(), ready)
}

#[test]
fn exit_run_delivers_notifications_and_stops() {
    let (resp, notes, ready) =
        run_reader("%begin 0 0 0\n%end 0 0 0\n%sessions-changed\n%exit\n%begin 1 1 0\n%end 1 1 0\n");
    assert!(ready);
    assert_eq!(notes.len(), 2);
    assert!(matches!(notes[0], Notification::SessionsChanged));
    assert!(matches!(notes[1], Notification::Exit));
    assert!(resp.is_none());
}

#[test]
fn run_handshake_then_response_reaches_waiter() {
    let (resp, _, ready) = run_reader(
        "\x1bP1000p%begin 1775252542 271 0\n%end 1775252542 271 0\n%begin 1775252543 272 0\n$3\n%end 1775252543 272 0\n",
    );
    assert!(ready);
    let r = resp.unwrap();
    assert_eq!((r.serial, r.flags, r.is_error), (272, 0, false));
    assert_eq!(r.output, vec!["$3".to_string()]);
}

#[test]
fn run_with_pty_line_endings() {
    let (resp, _, _) =
        run_reader("%begin 0 0 0\r\n%end 0 0 0\r\n%begin 1 1 0\r\nhello\r\n%end 1 1 0\r\n");
    let r = resp.unwrap();
    assert_eq!((r.serial, r.flags, r.is_error), (1, 0, false));
    assert_eq!(r.output, vec!["hello".to_string()]);
}

#[test]
fn run_error_block_reaches_waiter() {
    let (resp, _, _) =
        run_reader("%begin 0 0 0\n%end 0 0 0\n%begin 5 7 1\nunknown command: foo\n%error 5 7 1\n");
    let r = resp.unwrap();
    assert_eq!((r.serial, r.flags, r.is_error), (7, 1, true));
    assert_eq!(r.output, vec!["unknown command: foo".to_string()]);
}

#[test]
fn run_block_with_stray_lines() {
    let (resp, notes, _) = run_reader(
        "%begin 0 0 0\n%end 0 0 0\nstray\n%begin 1 3 0\nx\n%output %1 hi\n%end 1 4 0\ny\n%end 1 3 0\n",
    );
    let r = resp.unwrap();
    assert_eq!((r.serial, r.flags, r.is_error), (3, 0, false));
    assert_eq!(r.output, vec!["x".to_string(), "y".to_string()]);
    assert!(matches!(notes[0], Notification::Output { .. }));
}
