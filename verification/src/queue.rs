//! The FIFO of callers waiting for responses.
//!
//! tmux assigns its own serial numbers to responses — they do not match the
//! client's own numbering. Commands are processed in order, so the first
//! pending waiter receives the first response regardless of the serial tmux
//! assigns.
use vstd::prelude::*;
use std::collections::VecDeque;

use crate::response::Response;

verus! {

/// A pending command awaiting a response from the reader.
pub struct PendingCommand {
    pub text: String,
}

/// FIFO queue of the callers waiting for responses. Each caller is known by
/// the number it got when it registered; numbers are handed out in increasing
/// order, and the caller side keeps each number's response channel.
pub struct PendingQueue {
    pending: VecDeque<u64>,
    next_id: u64,
}

/// The waiting callers' numbers, oldest first, and the number the next caller
/// will get.
pub struct QueueView {
    pub waiting: Seq<u64>,
    pub next_id: u64,
}

impl View for PendingQueue {
    type V = QueueView;

    closed spec fn view(&self) -> QueueView {
        QueueView { waiting: self.pending@, next_id: self.next_id }
    }
}

/// The waiting numbers are all below the next number and strictly increase
/// from the oldest waiter to the newest.
pub open spec fn in_registration_order(v: QueueView) -> bool {
    &&& forall|i: int| 0 <= i < v.waiting.len() ==> #[trigger] v.waiting[i] < v.next_id
    &&& forall|i: int, j: int|
        0 <= i < j < v.waiting.len() ==> #[trigger] v.waiting[i] < #[trigger] v.waiting[j]
}

impl PendingQueue {
    #[verifier::type_invariant]
    spec fn well_ordered(self) -> bool {
        in_registration_order(self@)
    }

    /// An empty queue.
    pub fn new() -> (r: Self)
        ensures
            r@.waiting == Seq::<u64>::empty(),
            r@.next_id == 0,
    {
        PendingQueue { pending: VecDeque::new(), next_id: 0 }
    }

    /// Register the caller of the next command: it gets the next number and
    /// joins the back of the queue, behind every waiter already there. When
    /// every number has been handed out, nothing changes and `None` comes back.
    pub fn register(&mut self) -> (r: Option<u64>)
        ensures
            old(self)@.next_id == u64::MAX ==> r is None && final(self)@ == old(self)@,
            old(self)@.next_id < u64::MAX ==> {
                &&& r == Some(old(self)@.next_id)
                &&& final(self)@.waiting == queue_step(
                    old(self)@.waiting,
                    QueueOp::Register(old(self)@.next_id),
                )
                &&& final(self)@.next_id == old(self)@.next_id + 1
            },
            in_registration_order(final(self)@),
    {
        proof {
            use_type_invariant(&*self);
        }
        if self.next_id == u64::MAX {
            return None;
        }
        let id = self.next_id;
        let ghost before = self@.waiting;
        let mut pending: VecDeque<u64> = VecDeque::new();
        std::mem::swap(&mut pending, &mut self.pending);
        pending.push_back(id);
        proof {
            assert(pending@ == before.push(id));
            let v = QueueView { waiting: pending@, next_id: (id + 1) as u64 };
            assert forall|i: int| 0 <= i < v.waiting.len() implies #[trigger] v.waiting[i]
                < v.next_id by {
                if i < before.len() {
                    assert(v.waiting[i] == before[i]);
                    assert(before[i] < id);
                }
            }
            assert forall|i: int, j: int| 0 <= i < j < v.waiting.len() implies #[trigger] v.waiting[i]
                < #[trigger] v.waiting[j] by {
                assert(v.waiting[i] == before[i]);
                assert(before[i] < id);
                if j < before.len() {
                    assert(v.waiting[j] == before[j]);
                }
            }
        }
        *self = PendingQueue { pending, next_id: id + 1 };
        proof {
            use_type_invariant(&*self);
        }
        Some(id)
    }

    /// Deliver a completed response to the next waiting caller (FIFO): the
    /// oldest waiter leaves the queue, and its number comes back with the
    /// response to hand it. With no waiter the response is dropped.
    pub fn deliver(&mut self, response: Response) -> (r: Option<(u64, Response)>)
        ensures
            old(self)@.waiting.len() > 0 ==> r == Some((old(self)@.waiting[0], response)),
            old(self)@.waiting.len() == 0 ==> r is None,
            r matches Some((id, _)) ==> forall|i: int|
                0 <= i < old(self)@.waiting.len() ==> id <= #[trigger] old(self)@.waiting[i],
            final(self)@.waiting == queue_step(old(self)@.waiting, QueueOp::Deliver),
            final(self)@.next_id == old(self)@.next_id,
            in_registration_order(final(self)@),
    {
        proof {
            use_type_invariant(&*self);
        }
        let mut pending: VecDeque<u64> = VecDeque::new();
        std::mem::swap(&mut pending, &mut self.pending);
        let front = pending.pop_front();
        self.pending = pending;
        let r = match front {
            Some(id) => Some((id, response)),
            None => None,
        };
        proof {
            use_type_invariant(&*self);
            if old(self)@.waiting.len() > 0 {
                assert forall|i: int| 0 <= i < old(self)@.waiting.len() implies old(
                    self,
                )@.waiting[0] <= #[trigger] old(self)@.waiting[i] by {
                    if i > 0 {
                        assert(old(self)@.waiting[0] < old(self)@.waiting[i]);
                    }
                }
            }
        }
        r
    }

    /// Empty the queue; the numbers of the callers that were waiting come
    /// back, oldest first, so that their channels can be closed.
    pub fn drain(&mut self) -> (r: Vec<u64>)
        ensures
            r@ == old(self)@.waiting,
            final(self)@.waiting == Seq::<u64>::empty(),
            final(self)@.next_id == old(self)@.next_id,
            in_registration_order(final(self)@),
    {
        proof {
            use_type_invariant(&*self);
        }
        let mut dropped: Vec<u64> = Vec::new();
        let mut i: usize = 0;
        let n = self.pending.len();
        while i < n
            invariant
                n == self@.waiting.len(),
                i <= n,
                dropped@ == self@.waiting.take(i as int),
            decreases n - i,
        {
            dropped.push(self.pending[i]);
            assert(self@.waiting.take(i + 1) =~= self@.waiting.take(i as int).push(
                self@.waiting[i as int],
            ));
            i += 1;
        }
        assert(self@.waiting.take(n as int) =~= self@.waiting);
        self.pending = VecDeque::new();
        dropped
    }
}

impl Default for PendingQueue {
    fn default() -> (r: Self)
        ensures
            r@.waiting == Seq::<u64>::empty(),
            r@.next_id == 0,
    {
        Self::new()
    }
}

/// One operation on a queue of waiters: a waiter registers, or a response is
/// delivered.
pub enum QueueOp<S> {
    Register(S),
    Deliver,
}

/// The queue after one operation, as `register` (push at the back) and
/// `deliver` (take from the front, when there is a waiter) change it.
pub open spec fn queue_step<S>(q: Seq<S>, op: QueueOp<S>) -> Seq<S> {
    match op {
        QueueOp::Register(s) => q.push(s),
        QueueOp::Deliver => if q.len() > 0 {
            q.drop_first()
        } else {
            q
        },
    }
}

/// Starting from an empty queue: the waiters still queued after `ops`, and the
/// waiters that deliveries were handed to, in order of delivery.
pub open spec fn queue_run<S>(ops: Seq<QueueOp<S>>) -> (Seq<S>, Seq<S>)
    decreases ops.len(),
{
    if ops.len() == 0 {
        (seq![], seq![])
    } else {
        let (waiting, served) = queue_run(ops.drop_last());
        let op = ops.last();
        let served = match op {
            QueueOp::Deliver => if waiting.len() > 0 {
                served.push(waiting[0])
            } else {
                served
            },
            QueueOp::Register(_) => served,
        };
        (queue_step(waiting, op), served)
    }
}

/// The waiters registered by `ops`, in order of registration.
pub open spec fn registered<S>(ops: Seq<QueueOp<S>>) -> Seq<S>
    decreases ops.len(),
{
    if ops.len() == 0 {
        seq![]
    } else {
        match ops.last() {
            QueueOp::Register(s) => registered(ops.drop_last()).push(s),
            QueueOp::Deliver => registered(ops.drop_last()),
        }
    }
}

/// Responses go to waiters in the order in which they registered, none
/// skipped: the waiters served so far, followed by those still waiting, are
/// exactly the waiters registered, in order. So the k-th response that finds a
/// waiter goes to the k-th waiter that registered.
pub proof fn lemma_fifo_service<S>(ops: Seq<QueueOp<S>>)
    ensures
        queue_run(ops).1 + queue_run(ops).0 == registered(ops),
    decreases ops.len(),
{
    if ops.len() > 0 {
        lemma_fifo_service(ops.drop_last());
        let (waiting, served) = queue_run(ops.drop_last());
        match ops.last() {
            QueueOp::Register(s) => {
                assert(served + waiting.push(s) =~= (served + waiting).push(s));
            },
            QueueOp::Deliver => {
                if waiting.len() > 0 {
                    assert(served.push(waiting[0]) + waiting.drop_first() =~= served + waiting);
                }
            },
        }
    }
}

} // verus!
