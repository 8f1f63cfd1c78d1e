//! A model of the rules that the worker's channel keeps: a bounded
//! first-in, first-out queue that hands a message back rather than drop it,
//! and a reply slot that takes one answer. The running host uses tokio's
//! bounded `mpsc` channel and its `oneshot` channel, which keep these rules;
//! this model states them and proves what follows from them.

use std::collections::VecDeque;
use vstd::prelude::*;

verus! {

/// A bounded queue of pending messages, as the channel keeps them.
pub struct Mailbox<T> {
    queue: VecDeque<T>,
    capacity: usize,
}

impl<T> View for Mailbox<T> {
    type V = Seq<T>;

    closed spec fn view(&self) -> Seq<T> {
        self.queue@
    }
}

impl<T> Mailbox<T> {
    /// How many messages the mailbox holds at most.
    pub closed spec fn bound(&self) -> nat {
        self.capacity as nat
    }

    pub closed spec fn wf(&self) -> bool {
        &&& self.capacity > 0
        &&& self.queue@.len() <= self.capacity
    }

    /// An empty mailbox that holds at most `capacity` messages.
    pub fn new(capacity: usize) -> (r: Self)
        requires
            capacity > 0,
        ensures
            r.wf(),
            r@ == Seq::<T>::empty(),
            r.bound() == capacity,
    {
        Mailbox { queue: VecDeque::new(), capacity }
    }

    /// How many messages are pending.
    pub fn len(&self) -> (r: usize)
        requires
            self.wf(),
        ensures
            r == self@.len(),
    {
        self.queue.len()
    }

    /// Whether a submission would have to wait.
    pub fn is_full(&self) -> (r: bool)
        requires
            self.wf(),
        ensures
            r == (self@.len() >= self.bound()),
    {
        self.queue.len() >= self.capacity
    }

    /// Queues a message behind those pending, or hands it back when the
    /// mailbox is full: nothing is dropped.
    pub fn try_send(&mut self, message: T) -> (r: Result<(), T>)
        requires
            old(self).wf(),
        ensures
            final(self).wf(),
            final(self).bound() == old(self).bound(),
            old(self)@.len() < old(self).bound() ==> r is Ok && final(self)@ == old(self)@.push(message),
            old(self)@.len() >= old(self).bound() ==> r == Err::<(), T>(message) && final(self)@ == old(self)@,
    {
        if self.queue.len() >= self.capacity {
            Err(message)
        } else {
            self.queue.push_back(message);
            Ok(())
        }
    }

    /// Takes the oldest pending message.
    pub fn recv(&mut self) -> (r: Option<T>)
        requires
            old(self).wf(),
        ensures
            final(self).wf(),
            final(self).bound() == old(self).bound(),
            old(self)@.len() == 0 ==> r is None && final(self)@ == old(self)@,
            old(self)@.len() > 0 ==> r == Some(old(self)@[0]) && final(self)@ == old(self)@.drop_first(),
    {
        self.queue.pop_front()
    }
}

/// The queue after each of `msgs` was sent, in order.
pub open spec fn sent_all<T>(q: Seq<T>, msgs: Seq<T>) -> Seq<T>
    decreases msgs.len(),
{
    if msgs.len() == 0 {
        q
    } else {
        sent_all(q, msgs.drop_last()).push(msgs.last())
    }
}

/// The messages that `n` receives take from `q`, in the order they come.
pub open spec fn received<T>(q: Seq<T>, n: nat) -> Seq<T>
    decreases n,
{
    if n == 0 || q.len() == 0 {
        seq![]
    } else {
        seq![q[0]] + received(q.drop_first(), (n - 1) as nat)
    }
}

proof fn lemma_sent_all<T>(q: Seq<T>, msgs: Seq<T>)
    ensures
        sent_all(q, msgs) == q + msgs,
    decreases msgs.len(),
{
    if msgs.len() > 0 {
        lemma_sent_all(q, msgs.drop_last());
        assert(q + msgs =~= (q + msgs.drop_last()).push(msgs.last()));
    } else {
        assert(q + msgs =~= q);
    }
}

proof fn lemma_received_all<T>(q: Seq<T>)
    ensures
        received(q, q.len()) == q,
    decreases q.len(),
{
    if q.len() > 0 {
        lemma_received_all(q.drop_first());
        assert(q =~= seq![q[0]] + q.drop_first());
    } else {
        assert(q =~= seq![]);
    }
}

/// The mailbox is first in, first out: messages sent one after another,
/// behind whatever was pending, are received after the pending ones and in
/// the order in which they were sent.
pub proof fn law_mailbox_fifo<T>(pending: Seq<T>, msgs: Seq<T>)
    ensures
        received(sent_all(pending, msgs), pending.len() + msgs.len()) == pending + msgs,
{
    lemma_sent_all(pending, msgs);
    lemma_received_all(pending + msgs);
}

/// A single-use slot for one request's answer, as a one-shot channel keeps it.
pub struct ResponseSlot<T> {
    value: Option<T>,
    resolved: bool,
}

impl<T> ResponseSlot<T> {
    /// Whether an answer was put in.
    pub closed spec fn is_resolved(&self) -> bool {
        self.resolved
    }

    /// The answer waiting to be taken.
    pub closed spec fn pending(&self) -> Option<T> {
        self.value
    }

    pub closed spec fn wf(&self) -> bool {
        self.value is Some ==> self.resolved
    }

    /// A slot that no answer has reached.
    pub fn new() -> (r: Self)
        ensures
            r.wf(),
            !r.is_resolved(),
            r.pending() is None,
    {
        ResponseSlot { value: None, resolved: false }
    }

    /// Puts the answer in; a second answer is refused and handed back.
    pub fn resolve(&mut self, answer: T) -> (r: Result<(), T>)
        requires
            old(self).wf(),
        ensures
            final(self).wf(),
            final(self).is_resolved(),
            !old(self).is_resolved() ==> r is Ok && final(self).pending() == Some(answer),
            old(self).is_resolved() ==> r == Err::<(), T>(answer) && final(self).pending() == old(self).pending(),
    {
        if self.resolved {
            Err(answer)
        } else {
            self.value = Some(answer);
            self.resolved = true;
            Ok(())
        }
    }

    /// Takes the answer, once.
    pub fn take(&mut self) -> (r: Option<T>)
        requires
            old(self).wf(),
        ensures
            final(self).wf(),
            r == old(self).pending(),
            final(self).pending() is None,
            final(self).is_resolved() == old(self).is_resolved(),
    {
        self.value.take()
    }
}

} // verus!
