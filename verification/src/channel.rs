//! The decision core of a blocking single-producer/single-consumer channel.
//!
//! One sender and one receiver share a ring buffer and a count of live
//! sender handles. Every decision — whether an item goes in or comes out,
//! whether a caller must wait, and whether the channel is disconnected — is
//! made here, with a contract. Waiting and waking themselves (a mutex and a
//! condition variable around this state) live with the caller, which runs
//! each blocking operation as a loop: attempt a step, and when the step says
//! to wait, sleep until the opposite side signals, then retry; that loop
//! shape absorbs missed and spurious wakeups.

use vstd::prelude::*;

verus! {

use crate::ring_buffer::RingBuffer;
use vstd::arithmetic::power2::is_pow2;

/// What one round of a blocking receive decides: an item came out, the
/// channel is permanently disconnected, or the caller must wait for a
/// producer signal.
pub enum RecvStep<T> {
    Item(T),
    Disconnected,
    WouldBlock,
}

/// What one round of a blocking send decides: the item went in, or the
/// caller keeps the item and must wait for a consumer signal.
pub enum SendStep<T> {
    Sent,
    WouldBlock(T),
}

/// The state one sender and one receiver share: the buffer, and the count of
/// live sender handles, from which the receiver infers disconnection once it
/// finds the buffer empty.
pub struct Channel<T> {
    buffer: RingBuffer<T>,
    senders: usize,
}

impl<T> View for Channel<T> {
    type V = Seq<T>;

    /// The queued items, oldest first.
    closed spec fn view(&self) -> Seq<T> {
        self.buffer@
    }
}

impl<T> Channel<T> {
    /// Structural invariant: the buffer is well formed, and at most one
    /// sender handle is alive.
    pub closed spec fn wf(&self) -> bool {
        &&& self.buffer.wf()
        &&& self.senders <= 1
    }

    /// The buffer's capacity.
    pub closed spec fn spec_capacity(&self) -> int {
        self.buffer.spec_capacity()
    }

    /// Count of live sender handles: `1` until the sender is dropped, then
    /// `0`, forever.
    pub closed spec fn sender_count(&self) -> int {
        self.senders as int
    }

    /// Creates the shared state of a channel with at least the given
    /// capacity, rounded up to the next power of two, empty, with one sender
    /// handle alive.
    pub fn new(capacity: usize) -> (ch: Self)
        requires
            capacity <= usize::MAX / 2 + 1,
        ensures
            ch.wf(),
            ch@ == Seq::<T>::empty(),
            ch.sender_count() == 1,
            ch.spec_capacity() >= capacity as int,
            ch.spec_capacity() >= 1,
            is_pow2(ch.spec_capacity()),
            forall|p: int| is_pow2(p) && p >= capacity as int ==> ch.spec_capacity() <= p,
    {
        Channel { buffer: RingBuffer::new(capacity), senders: 1 }
    }

    /// One immediate send attempt; never requires waiting. Fails and hands
    /// the item back unchanged exactly when the buffer is full. On success
    /// the caller wakes one waiter, in case the receiver sleeps on empty.
    /// Only a live sender handle may send: once the sender is dropped the
    /// channel never leaves its disconnected course.
    pub fn try_send(&mut self, item: T) -> (r: Result<(), T>)
        requires
            old(self).wf(),
            old(self).sender_count() > 0,
        ensures
            final(self).wf(),
            final(self).spec_capacity() == old(self).spec_capacity(),
            final(self).sender_count() == old(self).sender_count(),
            old(self)@.len() < old(self).spec_capacity() ==> r is Ok && final(self)@ == old(
                self,
            )@.push(item),
            old(self)@.len() == old(self).spec_capacity() ==> r == Err::<(), T>(item)
                && final(self)@ == old(self)@,
    {
        self.buffer.send(item)
    }

    /// One immediate receive attempt; never requires waiting. Yields nothing
    /// exactly when the buffer is empty. On success the caller wakes one
    /// waiter, in case the sender sleeps on full.
    pub fn try_recv(&mut self) -> (r: Option<T>)
        requires
            old(self).wf(),
        ensures
            final(self).wf(),
            final(self).spec_capacity() == old(self).spec_capacity(),
            final(self).sender_count() == old(self).sender_count(),
            old(self)@.len() > 0 ==> r == Some(old(self)@[0]) && final(self)@ == old(
                self,
            )@.subrange(1, old(self)@.len() as int),
            old(self)@.len() == 0 ==> r is None && final(self)@ == old(self)@,
    {
        self.buffer.recv()
    }

    /// One round of the blocking send loop: the item goes in unless the
    /// buffer is full, in which case the caller gets it back and must wait
    /// for a consumer signal before retrying. Only a live sender handle may
    /// send.
    pub fn send_step(&mut self, item: T) -> (r: SendStep<T>)
        requires
            old(self).wf(),
            old(self).sender_count() > 0,
        ensures
            final(self).wf(),
            final(self).spec_capacity() == old(self).spec_capacity(),
            final(self).sender_count() == old(self).sender_count(),
            old(self)@.len() < old(self).spec_capacity() ==> r == SendStep::<T>::Sent
                && final(self)@ == old(self)@.push(item),
            old(self)@.len() == old(self).spec_capacity() ==> r == SendStep::WouldBlock(item)
                && *final(self) == *old(self),
    {
        match self.buffer.send(item) {
            Ok(()) => SendStep::Sent,
            Err(returned) => SendStep::WouldBlock(returned),
        }
    }

    /// One round of the blocking receive loop: an item comes out if there is
    /// one — queued items win over disconnection, so a dropped sender's
    /// backlog is still drained. On an empty buffer, when no sender handle
    /// remains the channel is disconnected — permanently, since only a
    /// sender could add items and the state never changes again; otherwise
    /// the caller must wait for a producer signal before retrying.
    pub fn recv_step(&mut self) -> (r: RecvStep<T>)
        requires
            old(self).wf(),
        ensures
            final(self).wf(),
            final(self).spec_capacity() == old(self).spec_capacity(),
            final(self).sender_count() == old(self).sender_count(),
            old(self)@.len() > 0 ==> r == RecvStep::Item(old(self)@[0]) && final(self)@ == old(
                self,
            )@.subrange(1, old(self)@.len() as int),
            old(self)@.len() == 0 && old(self).sender_count() == 0 ==> r
                == RecvStep::<T>::Disconnected && *final(self) == *old(self),
            old(self)@.len() == 0 && old(self).sender_count() > 0 ==> r
                == RecvStep::<T>::WouldBlock && *final(self) == *old(self),
    {
        match self.buffer.recv() {
            Some(item) => RecvStep::Item(item),
            None => {
                if self.senders == 0 {
                    RecvStep::Disconnected
                } else {
                    RecvStep::WouldBlock
                }
            },
        }
    }

    /// Returns the count of live sender handles.
    pub fn senders_alive(&self) -> (n: usize)
        ensures
            n as int == self.sender_count(),
    {
        self.senders
    }

    /// Records the drop of the sole sender handle. The caller then wakes one
    /// waiter unconditionally, so a receiver blocked on an empty buffer
    /// re-checks and observes disconnection instead of waiting forever.
    pub fn drop_sender(&mut self)
        requires
            old(self).wf(),
            old(self).sender_count() > 0,
        ensures
            final(self).wf(),
            final(self).spec_capacity() == old(self).spec_capacity(),
            final(self).sender_count() == old(self).sender_count() - 1,
            final(self)@ == old(self)@,
    {
        self.senders = self.senders - 1;
    }
}

} // verus!
