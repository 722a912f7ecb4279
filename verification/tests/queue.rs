use tmux_cmc::queue::PendingQueue;
use tmux_cmc::Response;

fn response(serial: u64) -> Response {
    Response { serial, flags: 0, output: vec![format!("line {serial}")], is_error: false }
}

#[test]
fn first_waiter_gets_first_response() {
    let mut q = PendingQueue::new();
    let a = q.register().unwrap();
    let b = q.register().unwrap();
    assert_eq!((a, b), (0, 1));
    let (to, r) = q.deliver(response(40)).unwrap();
    assert_eq!((to, r.serial), (a, 40));
    let (to, r) = q.deliver(response(41)).unwrap();
    assert_eq!((to, r.serial), (b, 41));
}

#[test]
fn delivery_without_waiter_is_dropped() {
    let mut q = PendingQueue::default();
    assert!(q.deliver(response(1)).is_none());
    let a = q.register().unwrap();
    assert_eq!(q.deliver(response(2)).map(|(id, r)| (id, r.serial)), Some((a, 2)));
}

#[test]
fn drain_returns_the_waiters() {
    let mut q = PendingQueue::new();
    let a = q.register().unwrap();
    let b = q.register().unwrap();
    assert_eq!(q.drain(), vec![a, b]);
    assert!(q.deliver(response(3)).is_none());
    // Numbers keep increasing after a drain.
    assert_eq!(q.register(), Some(2));
}

#[test]
fn fifo_whatever_the_serial() {
    let mut q = PendingQueue::new();
    let a = q.register().unwrap();
    let b = q.register().unwrap();
    assert_eq!(q.deliver(response(9)).map(|(id, r)| (id, r.serial)), Some((a, 9)));
    assert_eq!(q.deliver(response(4)).map(|(id, r)| (id, r.serial)), Some((b, 4)));
    assert!(q.deliver(response(5)).is_none());
}
