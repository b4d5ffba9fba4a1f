//! A fixed-capacity FIFO channel for handing typed messages from
//! producers to consumers.
//!
//! The channel itself offers the non-suspending operations: `try_send`
//! reports "would block" by returning the message when the queue is
//! full, and `try_recv` returns nothing when it is empty. Suspension on
//! a full or empty queue is the kernel's job (see `kernel`), which
//! retries these operations on behalf of blocked tasks.
//!
//! Two ghost histories record every message that ever entered the
//! queue (`sent`, in completion order) and every message handed out
//! (`taken`). The well-formedness invariant ties them to the live
//! queue, which is what makes the FIFO law provable: what has been
//! received is exactly the oldest prefix of what was sent.

use vstd::prelude::*;

verus! {

pub struct Channel<T> {
    pub queue: Vec<T>,
    pub cap: usize,
    /// Every message that entered the queue, oldest first.
    pub sent: Ghost<Seq<T>>,
    /// Every message dequeued so far, in the order they were handed out.
    pub taken: Ghost<Seq<T>>,
}

impl<T> Channel<T> {
    /// The queue never exceeds its capacity, the capacity is at least
    /// one slot, and the messages handed out followed by the messages
    /// still buffered are exactly the messages sent.
    pub open spec fn wf(&self) -> bool {
        &&& self.queue@.len() <= self.cap
        &&& self.cap >= 1
        &&& self.taken@ + self.queue@ == self.sent@
    }

    pub open spec fn spec_len(&self) -> nat {
        self.queue@.len()
    }

    /// An empty channel with `cap` slots.
    pub fn new(cap: usize) -> (c: Self)
        requires
            cap >= 1,
        ensures
            c.wf(),
            c.cap == cap,
            c.queue@ == Seq::<T>::empty(),
            c.sent@ == Seq::<T>::empty(),
            c.taken@ == Seq::<T>::empty(),
    {
        Channel {
            queue: Vec::new(),
            cap,
            sent: Ghost(Seq::empty()),
            taken: Ghost(Seq::empty()),
        }
    }

    pub fn len(&self) -> (n: usize)
        ensures
            n == self.spec_len(),
    {
        self.queue.len()
    }

    pub fn capacity(&self) -> (n: usize)
        ensures
            n == self.cap,
    {
        self.cap
    }

    pub fn is_empty(&self) -> (r: bool)
        ensures
            r == (self.spec_len() == 0),
    {
        self.queue.len() == 0
    }

    pub fn is_full(&self) -> (r: bool)
        ensures
            r == (self.spec_len() == self.cap),
    {
        self.queue.len() == self.cap
    }

    /// Enqueue `v` if a slot is free; otherwise hand `v` back as the
    /// "would block" outcome. Succeeds exactly when the queue is not
    /// full.
    pub fn try_send(&mut self, v: T) -> (r: Result<(), T>)
        requires
            old(self).wf(),
        ensures
            final(self).wf(),
            final(self).cap == old(self).cap,
            old(self).spec_len() < old(self).cap ==> {
                &&& r is Ok
                &&& final(self).queue@ == old(self).queue@.push(v)
                &&& final(self).sent@ == old(self).sent@.push(v)
                &&& final(self).taken@ == old(self).taken@
            },
            old(self).spec_len() == old(self).cap ==> {
                &&& r == Result::<(), T>::Err(v)
                &&& *final(self) == *old(self)
            },
    {
        if self.queue.len() < self.cap {
            self.queue.push(v);
            self.sent = Ghost(self.sent@.push(v));
            Ok(())
        } else {
            Err(v)
        }
    }

    /// Dequeue the oldest message if there is one. Succeeds exactly
    /// when the queue is not empty, and returns the message that has
    /// waited longest.
    pub fn try_recv(&mut self) -> (r: Option<T>)
        requires
            old(self).wf(),
        ensures
            final(self).wf(),
            final(self).cap == old(self).cap,
            old(self).spec_len() > 0 ==> {
                &&& r == Some(old(self).queue@[0])
                &&& r == Some(old(self).sent@[old(self).taken@.len() as int])
                &&& final(self).queue@ == old(self).queue@.subrange(1, old(self).queue@.len() as int)
                &&& final(self).sent@ == old(self).sent@
                &&& final(self).taken@ == old(self).taken@.push(old(self).queue@[0])
            },
            old(self).spec_len() == 0 ==> {
                &&& r is None
                &&& *final(self) == *old(self)
            },
    {
        if self.queue.len() > 0 {
            let v = self.queue.remove(0);
            proof {
                assert(old(self).queue@.remove(0) =~= old(self).queue@.subrange(
                    1,
                    old(self).queue@.len() as int,
                ));
                assert(old(self).sent@[old(self).taken@.len() as int] == old(self).queue@[0]);
            }
            self.taken = Ghost(self.taken@.push(v));
            proof {
                assert(self.taken@ + self.queue@ =~= old(self).sent@);
            }
            Some(v)
        } else {
            None
        }
    }
}

/// The FIFO law: for every sequence of sends and receives, the
/// messages received so far are exactly the sends that completed
/// first, in their completion order; and the queue length stays
/// between zero and the capacity.
pub proof fn lemma_fifo<T>(c: Channel<T>)
    requires
        c.wf(),
    ensures
        c.taken@ == c.sent@.subrange(0, c.taken@.len() as int),
        c.queue@ == c.sent@.subrange(c.taken@.len() as int, c.sent@.len() as int),
        0 <= c.spec_len() <= c.cap,
{
    assert(c.taken@ =~= c.sent@.subrange(0, c.taken@.len() as int));
    assert(c.queue@ =~= c.sent@.subrange(c.taken@.len() as int, c.sent@.len() as int));
}

} // verus!
