//! A bounded single-producer/single-consumer ring buffer.
//!
//! The buffer is a fixed array of slots, each holding either nothing or one
//! owned item, together with two monotonically increasing position counters:
//! `head`, where the producer writes next, and `tail`, where the consumer
//! reads next. The counters wrap around the `u64` range; full/empty detection
//! uses wraparound-safe subtraction, and slot indices are taken modulo the
//! capacity with a bit mask, which is valid because the capacity is always a
//! power of two. The counters sit in separate cache-line-padded cells so that
//! producer and consumer writes do not share a cache line.

use vstd::prelude::*;

verus! {

use vstd::arithmetic::div_mod::{
    lemma_add_mod_noop_right,
    lemma_mod_bound,
    lemma_mod_multiples_vanish,
    lemma_small_mod,
    lemma_sub_mod_noop,
    lemma_sub_mod_noop_right,
};
use vstd::arithmetic::power::pow;
use vstd::arithmetic::power2::{
    is_pow2,
    is_pow2_equiv,
    is_pow2_exists,
    lemma2_to64,
    lemma2_to64_rest,
    lemma_pow2_adds,
    lemma_pow2_pos,
    lemma_pow2_strictly_increases,
    lemma_pow2_unfold,
    pow2,
};
use vstd::bits::{lemma_u64_low_bits_mask_is_mod, low_bits_mask};

#[verifier::external_type_specification]
#[verifier::external_body]
#[verifier::reject_recursive_types(T)]
pub struct ExCachePadded<T>(crossbeam_utils::CachePadded<T>);

/// The counter value held inside a cache-line-padded cell.
pub uninterp spec fn padded_value(c: crossbeam_utils::CachePadded<u64>) -> u64;

/// Relies on `crossbeam_utils::CachePadded::new`: pads and aligns the given
/// value to the length of a cache line; the cell holds exactly that value.
#[verifier::external_body]
fn padded_new(v: u64) -> (c: crossbeam_utils::CachePadded<u64>)
    ensures
        padded_value(c) == v,
{
    crossbeam_utils::CachePadded::new(v)
}

/// Relies on `crossbeam_utils::CachePadded`'s `Deref`: returns the held value.
#[verifier::external_body]
fn padded_get(c: &crossbeam_utils::CachePadded<u64>) -> (v: u64)
    ensures
        v == padded_value(*c),
{
    **c
}

/// Pending-item count indicated by producer counter `h` and consumer counter
/// `t`: their difference under wraparound-safe subtraction.
pub open spec fn wrap_distance(h: u64, t: u64) -> int {
    h.wrapping_sub(t) as int
}

/// Position of the slot `k` steps after consumer counter `t`, in a buffer of
/// capacity `c`.
spec fn slot_position(t: u64, k: int, c: int) -> int {
    (t + k) % c
}

/// How many steps after consumer counter `t` slot `j` lies, modulo the
/// capacity `c`.
spec fn slot_offset(t: u64, j: int, c: int) -> int {
    (j - t) % c
}

/// A bounded single-producer/single-consumer queue over a power-of-two-sized
/// circular slot array.
pub struct RingBuffer<T> {
    /// The slot array; slots outside the pending window hold `None`.
    slots: Vec<Option<T>>,
    /// The capacity; always a power of two.
    cap: usize,
    /// Counter of the next slot the producer writes, padded to its own
    /// cache line.
    head: crossbeam_utils::CachePadded<u64>,
    /// Counter of the next slot the consumer reads, padded to its own
    /// cache line.
    tail: crossbeam_utils::CachePadded<u64>,
    /// The capacity's exponent: `cap == pow2(exp)`.
    exp: Ghost<nat>,
}

impl<T> View for RingBuffer<T> {
    type V = Seq<T>;

    /// The queued items, oldest first.
    closed spec fn view(&self) -> Seq<T> {
        Seq::new(
            self.spec_len() as nat,
            |k: int| self.slots@[slot_position(self.tail_count(), k, self.cap as int)].unwrap(),
        )
    }
}

impl<T> RingBuffer<T> {
    /// The producer's position counter.
    pub closed spec fn head_count(&self) -> u64 {
        padded_value(self.head)
    }

    /// The consumer's position counter.
    pub closed spec fn tail_count(&self) -> u64 {
        padded_value(self.tail)
    }

    /// The capacity of the buffer.
    pub closed spec fn spec_capacity(&self) -> int {
        self.cap as int
    }

    /// Number of queued items, as the counters indicate it.
    pub closed spec fn spec_len(&self) -> int {
        wrap_distance(self.head_count(), self.tail_count())
    }

    /// Structural invariant: the capacity is a power of two, the counters are
    /// at most a capacity apart, and exactly the slots of the pending window
    /// `[tail, head)` (taken modulo the capacity) hold items.
    pub closed spec fn wf(&self) -> bool {
        &&& self.slots@.len() == self.cap
        &&& self.cap == pow2(self.exp@)
        &&& self.exp@ < 64
        &&& 1 <= self.cap
        &&& 0 <= self.spec_len() <= self.cap as int
        &&& forall|j: int|
            0 <= j < self.cap as int ==> (#[trigger] self.slots@[j] is Some <==> slot_offset(
                self.tail_count(),
                j,
                self.cap as int,
            ) < self.spec_len())
    }

    /// Creates a buffer with at least the given capacity: the realized
    /// capacity is the smallest power of two that is `>=` the request, and a
    /// request of `0` realizes capacity `1`. The buffer starts empty, with
    /// both counters at `0`.
    pub fn new(capacity: usize) -> (rb: Self)
        requires
            capacity <= usize::MAX / 2 + 1,
        ensures
            rb.wf(),
            rb@ == Seq::<T>::empty(),
            rb.head_count() == 0,
            rb.tail_count() == 0,
            rb.spec_capacity() >= capacity as int,
            rb.spec_capacity() >= 1,
            is_pow2(rb.spec_capacity()),
            forall|p: int| is_pow2(p) && p >= capacity as int ==> rb.spec_capacity() <= p,
    {
        let (cap, exp) = round_up_pow2(capacity);
        let mut slots: Vec<Option<T>> = Vec::new();
        let mut i: usize = 0;
        while i < cap
            invariant
                i <= cap,
                slots@.len() == i,
                forall|j: int| 0 <= j < i ==> (#[trigger] slots@[j]) is None,
            decreases cap - i,
        {
            slots.push(None);
            i = i + 1;
        }
        let rb = RingBuffer { slots, cap, head: padded_new(0), tail: padded_new(0), exp };
        proof {
            assert(rb.spec_len() == 0);
            assert forall|j: int| 0 <= j < rb.cap as int implies !(#[trigger] rb.slots@[j]
                is Some) && !(slot_offset(rb.tail_count(), j, rb.cap as int) < rb.spec_len()) by {
                lemma_mod_bound(j - rb.tail_count() as int, rb.cap as int);
            }
            assert(rb@ =~= Seq::<T>::empty());
            vstd::arithmetic::power2::lemma_pow2(rb.exp@);
            assert(pow(2, rb.exp@) == rb.spec_capacity());
            assert(is_pow2_exists(rb.spec_capacity()));
            is_pow2_equiv(rb.spec_capacity());
            assert forall|p: int| is_pow2(p) && p >= capacity as int implies rb.spec_capacity()
                <= p by {
                is_pow2_equiv(p);
                let j = choose|j: nat| pow(2, j) == p;
                vstd::arithmetic::power2::lemma_pow2(j);
                assert(pow2(j) == p);
            }
        }
        rb
    }

    /// Returns the capacity of the ring buffer.
    pub fn capacity(&self) -> (c: usize)
        ensures
            c as int == self.spec_capacity(),
    {
        self.cap
    }

    /// Returns the number of items currently queued; always within
    /// `[0, capacity]`.
    pub fn len(&self) -> (n: usize)
        requires
            self.wf(),
        ensures
            n == self@.len(),
            n as int <= self.spec_capacity(),
    {
        let head = padded_get(&self.head);
        let tail = padded_get(&self.tail);
        head.wrapping_sub(tail) as usize
    }

    /// Returns true if the buffer holds no items.
    pub fn is_empty(&self) -> (e: bool)
        requires
            self.wf(),
        ensures
            e == (self@.len() == 0),
    {
        self.len() == 0
    }
}

impl<T> RingBuffer<T> {
    /// Tries to queue `item`. Fails and hands the item back unchanged when
    /// the buffer is full; the full test is wraparound-safe.
    pub fn send(&mut self, item: T) -> (r: Result<(), T>)
        requires
            old(self).wf(),
        ensures
            final(self).wf(),
            final(self).spec_capacity() == old(self).spec_capacity(),
            final(self).tail_count() == old(self).tail_count(),
            old(self)@.len() < old(self).spec_capacity() ==> r is Ok && final(self)@ == old(
                self,
            )@.push(item),
            old(self)@.len() == old(self).spec_capacity() ==> r == Err::<(), T>(item)
                && *final(self) == *old(self),
    {
        let ghost k = self.exp@;
        let ghost c = self.cap as int;
        let head = padded_get(&self.head);
        let tail = padded_get(&self.tail);
        if head.wrapping_sub(tail) == self.cap as u64 {
            return Err(item);
        }
        let ghost d = wrap_distance(head, tail);
        let mask = (self.cap - 1) as u64;
        let idx64 = head & mask;
        proof {
            lemma_pow2_pos(k);
            lemma_pow2_fits_u64(k);
            assert(mask == low_bits_mask(k) as u64);
            lemma_u64_low_bits_mask_is_mod(head, k);
            assert(idx64 == head % (pow2(k) as u64));
            lemma_mod_bound(head as int, c);
        }
        let slot_idx = idx64 as usize;
        self.slots[slot_idx] = Some(item);
        self.head = padded_new(head.wrapping_add(1));
        proof {
            let t = old(self).tail_count();
            let idx = idx64 as int;
            lemma_head_slot(head, tail, k);
            assert(idx == slot_position(t, d, c));
            lemma_position_offset(t, d, c);
            assert(slot_offset(t, idx, c) == d);
            lemma_wrap_inc(head, tail);
            assert(self.spec_len() == d + 1);
            assert forall|j: int|
                0 <= j < c implies (#[trigger] self.slots@[j] is Some <==> slot_offset(t, j, c)
                < d + 1) by {
                if j != idx {
                    lemma_mod_bound(j - t as int, c);
                    if slot_offset(t, j, c) == d {
                        lemma_offset_position(t, j, c);
                        assert(false);
                    }
                }
            }
            assert(self.wf());
            assert forall|m: int| 0 <= m < d + 1 implies self@[m] == old(self)@.push(item)[m] by {
                lemma_mod_bound(t as int + m, c);
                if m < d {
                    lemma_position_offset(t, m, c);
                    if slot_position(t, m, c) == idx {
                        assert(false);
                    }
                }
            }
            assert(self@ =~= old(self)@.push(item));
        }
        Ok(())
    }

    /// Takes the oldest queued item out, or reports that the buffer is
    /// empty; the empty test is wraparound-safe.
    pub fn recv(&mut self) -> (r: Option<T>)
        requires
            old(self).wf(),
        ensures
            final(self).wf(),
            final(self).spec_capacity() == old(self).spec_capacity(),
            final(self).head_count() == old(self).head_count(),
            old(self)@.len() > 0 ==> r == Some(old(self)@[0]) && final(self)@ == old(
                self,
            )@.subrange(1, old(self)@.len() as int),
            old(self)@.len() == 0 ==> r is None && *final(self) == *old(self),
    {
        let ghost k = self.exp@;
        let ghost c = self.cap as int;
        let tail = padded_get(&self.tail);
        let head = padded_get(&self.head);
        if tail == head {
            return None;
        }
        let ghost d = wrap_distance(head, tail);
        let mask = (self.cap - 1) as u64;
        let idx64 = tail & mask;
        proof {
            lemma_pow2_pos(k);
            lemma_pow2_fits_u64(k);
            assert(mask == low_bits_mask(k) as u64);
            lemma_u64_low_bits_mask_is_mod(tail, k);
            assert(idx64 == tail % (pow2(k) as u64));
            lemma_mod_bound(tail as int, c);
            let t = self.tail_count();
            lemma_small_mod(0, c as nat);
            assert(slot_position(t, 0, c) == idx64 as int) by {
                lemma_head_slot(tail, tail, k);
                assert(wrap_distance(tail, tail) == 0);
            }
            lemma_position_offset(t, 0, c);
            assert(slot_offset(t, idx64 as int, c) == 0);
            assert(self.slots@[idx64 as int] is Some);
        }
        let slot_idx = idx64 as usize;
        let item_opt = self.slots[slot_idx].take();
        let item = item_opt.unwrap();
        self.tail = padded_new(tail.wrapping_add(1));
        proof {
            let t = tail;
            let t2 = self.tail_count();
            let idx = idx64 as int;
            assert(item == old(self)@[0]);
            lemma_wrap_dec(head, tail);
            assert(self.spec_len() == d - 1);
            lemma_wrap_inc_mod(t, k);
            assert forall|j: int|
                0 <= j < c implies (#[trigger] self.slots@[j] is Some <==> slot_offset(t2, j, c)
                < d - 1) by {
                lemma_mod_bound(j - t as int, c);
                lemma_mod_bound(j - t2 as int, c);
                lemma_congruent_offset(t2, t as int + 1, j, c);
                assert(slot_offset(t2, j, c) == (j - t as int - 1) % c);
                let o = slot_offset(t, j, c);
                if j == idx {
                    assert(o == 0);
                    if c > 1 {
                        lemma_small_mod(1, c as nat);
                        lemma_sub_mod_noop(j - t as int, 1, c);
                        assert((0 - 1) % c == (j - t as int - 1) % c);
                        lemma_mod_multiples_vanish(1, -1, c);
                        lemma_small_mod((c - 1) as nat, c as nat);
                        assert(slot_offset(t2, j, c) == c - 1);
                    }
                } else {
                    if o == 0 {
                        lemma_offset_position(t, j, c);
                        lemma_head_slot(t, t, k);
                        assert(wrap_distance(t, t) == 0);
                        assert(j == idx);
                        assert(false);
                    }
                    lemma_small_mod(1, c as nat);
                    lemma_sub_mod_noop(j - t as int, 1, c);
                    assert((o - 1) % c == (j - t as int - 1) % c);
                    lemma_small_mod((o - 1) as nat, c as nat);
                    assert(slot_offset(t2, j, c) == o - 1);
                }
            }
            assert(self.wf());
            assert forall|m: int| 0 <= m < d - 1 implies self@[m] == old(self)@.subrange(
                1,
                d,
            )[m] by {
                lemma_mod_bound(t2 as int + m, c);
                lemma_mod_bound(t as int + m + 1, c);
                lemma_congruent_position(t2, t as int + 1, m, c);
                lemma_position_offset(t, m + 1, c);
                if slot_position(t, m + 1, c) == idx {
                    lemma_position_offset(t, 0, c);
                    assert(false);
                }
            }
            assert(self@ =~= old(self)@.subrange(1, d));
        }
        Some(item)
    }
}

/// Wraparound correctness: for every pair of counter values the invariant
/// admits — including values about to wrap the `u64` range — the wrapped
/// counter difference equals the number of queued items and stays within
/// `[0, capacity]`, so the full test (`difference == capacity`) and the
/// empty test (`head == tail`) that `send` and `recv` perform stay exact
/// after the counters wrap.
pub proof fn lemma_wraparound_detection<T>(rb: &RingBuffer<T>)
    requires
        rb.wf(),
    ensures
        rb@.len() == wrap_distance(rb.head_count(), rb.tail_count()),
        0 <= rb@.len() <= rb.spec_capacity(),
        1 <= rb.spec_capacity(),
        is_pow2(rb.spec_capacity()),
        (wrap_distance(rb.head_count(), rb.tail_count()) == rb.spec_capacity()) <==> rb@.len()
            == rb.spec_capacity(),
        (rb.head_count() == rb.tail_count()) <==> rb@.len() == 0,
{
    vstd::arithmetic::power2::lemma_pow2(rb.exp@);
    assert(pow(2, rb.exp@) == rb.spec_capacity());
    assert(is_pow2_exists(rb.spec_capacity()));
    is_pow2_equiv(rb.spec_capacity());
}

/// One action against the abstract queue: the producer offering an item, or
/// the consumer taking one.
pub enum QueueOp<T> {
    Send(T),
    Recv,
}

/// The state of an abstract replay of queue actions: the queue contents, the
/// items accepted by sends, and the items received, each in order.
pub struct QueueRun<T> {
    pub queue: Seq<T>,
    pub sent: Seq<T>,
    pub received: Seq<T>,
}

/// The replay state before any action: everything empty.
pub open spec fn queue_run_empty<T>() -> QueueRun<T> {
    QueueRun { queue: Seq::empty(), sent: Seq::empty(), received: Seq::empty() }
}

/// How one action changes the replay state, exactly as the contracts of
/// `send` and `recv` describe it: an accepted send appends to the back, a
/// receive takes the front; a send against a full queue and a receive
/// against an empty queue change nothing.
pub open spec fn queue_run_step<T>(st: QueueRun<T>, op: QueueOp<T>, cap: int) -> QueueRun<T> {
    match op {
        QueueOp::Send(x) => if st.queue.len() < cap {
            QueueRun { queue: st.queue.push(x), sent: st.sent.push(x), received: st.received }
        } else {
            st
        },
        QueueOp::Recv => if st.queue.len() > 0 {
            QueueRun {
                queue: st.queue.subrange(1, st.queue.len() as int),
                sent: st.sent,
                received: st.received.push(st.queue[0]),
            }
        } else {
            st
        },
    }
}

/// The replay state after an interleaving of actions, from an empty queue of
/// capacity `cap`.
pub open spec fn queue_run<T>(ops: Seq<QueueOp<T>>, cap: int) -> QueueRun<T>
    decreases ops.len(),
{
    if ops.len() == 0 {
        queue_run_empty()
    } else {
        queue_run_step(queue_run(ops.drop_last(), cap), ops.last(), cap)
    }
}

/// The payloads of all send actions in `ops`, in order.
pub open spec fn queue_sends<T>(ops: Seq<QueueOp<T>>) -> Seq<T>
    decreases ops.len(),
{
    if ops.len() == 0 {
        Seq::empty()
    } else {
        queue_sends(ops.drop_last()) + match ops.last() {
            QueueOp::Send(x) => seq![x],
            QueueOp::Recv => Seq::empty(),
        }
    }
}

/// FIFO: over any interleaving of sends and receives from one producer and
/// one consumer, the items received, followed by the items still queued, are
/// exactly the accepted sends in order — nothing is lost, duplicated or
/// reordered — and so the received items are a prefix of the accepted sends.
pub proof fn lemma_fifo_order<T>(ops: Seq<QueueOp<T>>, cap: int)
    ensures
        queue_run(ops, cap).sent == queue_run(ops, cap).received + queue_run(ops, cap).queue,
        queue_run(ops, cap).received == queue_run(ops, cap).sent.take(
            queue_run(ops, cap).received.len() as int,
        ),
    decreases ops.len(),
{
    let st = queue_run(ops, cap);
    if ops.len() == 0 {
        assert(st.sent =~= st.received + st.queue);
    } else {
        lemma_fifo_order(ops.drop_last(), cap);
        let prev = queue_run(ops.drop_last(), cap);
        match ops.last() {
            QueueOp::Send(x) => {
                if prev.queue.len() < cap {
                    assert(st.sent =~= st.received + st.queue);
                }
            },
            QueueOp::Recv => {
                if prev.queue.len() > 0 {
                    assert(st.sent =~= st.received + st.queue);
                }
            },
        }
    }
    assert(st.received =~= st.sent.take(st.received.len() as int));
}

/// No loss: when no send ever meets a full queue, every send is accepted, so
/// by `lemma_fifo_order` the received items are a prefix of all items sent.
pub proof fn lemma_fifo_no_loss<T>(ops: Seq<QueueOp<T>>, cap: int)
    requires
        forall|i: int|
            0 <= i < ops.len() && ops[i] is Send ==> queue_run(
                #[trigger] ops.take(i),
                cap,
            ).queue.len() < cap,
    ensures
        queue_run(ops, cap).sent == queue_sends(ops),
    decreases ops.len(),
{
    if ops.len() > 0 {
        let n = ops.len() as int;
        assert(ops.take(n - 1) =~= ops.drop_last());
        assert forall|i: int|
            0 <= i < ops.drop_last().len() && ops.drop_last()[i] is Send implies queue_run(
            #[trigger] ops.drop_last().take(i),
            cap,
        ).queue.len() < cap by {
            assert(ops.drop_last().take(i) =~= ops.take(i));
            assert(ops[i] is Send);
        }
        lemma_fifo_no_loss(ops.drop_last(), cap);
        match ops.last() {
            QueueOp::Send(x) => {
                assert(ops[n - 1] is Send);
                assert(queue_run(ops.take(n - 1), cap).queue.len() < cap);
                assert(queue_run(ops, cap).sent =~= queue_sends(ops));
            },
            QueueOp::Recv => {
                assert(queue_run(ops, cap).sent =~= queue_sends(ops));
            },
        }
    } else {
        assert(queue_run(ops, cap).sent =~= queue_sends(ops));
    }
}

/// The counter modulus `pow2(64)` is a multiple of every capacity `pow2(k)`,
/// so a wrapped difference is congruent to the true difference modulo the
/// capacity.
proof fn lemma_wrap_sub_mod(h: u64, t: u64, k: nat)
    requires
        k < 64,
    ensures
        wrap_distance(h, t) % (pow2(k) as int) == (h - t) % (pow2(k) as int),
{
    let c = pow2(k) as int;
    lemma_pow2_pos(k);
    if h < t {
        lemma_pow2_adds(k, (64 - k) as nat);
        lemma2_to64_rest();
        assert(c * pow2((64 - k) as nat) == 0x1_0000_0000_0000_0000);
        lemma_mod_multiples_vanish(pow2((64 - k) as nat) as int, h - t, c);
    }
}

/// A wrapped increment is congruent to the true increment modulo the
/// capacity.
proof fn lemma_wrap_inc_mod(t: u64, k: nat)
    requires
        k < 64,
    ensures
        (t.wrapping_add(1) as int) % (pow2(k) as int) == (t + 1) % (pow2(k) as int),
{
    let c = pow2(k) as int;
    lemma_pow2_pos(k);
    if t == u64::MAX {
        lemma_pow2_adds(k, (64 - k) as nat);
        lemma2_to64_rest();
        assert(c * pow2((64 - k) as nat) == 0x1_0000_0000_0000_0000);
        lemma_mod_multiples_vanish(pow2((64 - k) as nat) as int, t + 1 - 0x1_0000_0000_0000_0000, c);
    }
}

/// Counters congruent modulo the capacity give the same slot offsets.
proof fn lemma_congruent_offset(t2: u64, t1: int, j: int, c: int)
    requires
        0 < c,
        (t2 as int) % c == t1 % c,
    ensures
        slot_offset(t2, j, c) == (j - t1) % c,
{
    lemma_sub_mod_noop_right(j, t2 as int, c);
    lemma_sub_mod_noop_right(j, t1, c);
}

/// Counters congruent modulo the capacity give the same slot positions.
proof fn lemma_congruent_position(t2: u64, t1: int, m: int, c: int)
    requires
        0 < c,
        (t2 as int) % c == t1 % c,
    ensures
        slot_position(t2, m, c) == (t1 + m) % c,
{
    lemma_add_mod_noop_right(m, t2 as int, c);
    lemma_add_mod_noop_right(m, t1, c);
    assert(m + t2 as int == t2 as int + m);
    assert(m + t1 == t1 + m);
}

/// The slot written by the producer, `head` taken modulo the capacity, is
/// exactly the position `spec_len` steps after `tail`.
proof fn lemma_head_slot(h: u64, t: u64, k: nat)
    requires
        k < 64,
    ensures
        slot_position(t, wrap_distance(h, t), pow2(k) as int) == (h as int) % (pow2(k) as int),
{
    let c = pow2(k) as int;
    lemma_pow2_pos(k);
    let d = wrap_distance(h, t);
    lemma_wrap_sub_mod(h, t, k);
    lemma_add_mod_noop_right(t as int, d, c);
    lemma_add_mod_noop_right(t as int, h - t, c);
}

/// A position `k` steps after the consumer counter has slot offset exactly
/// `k`.
proof fn lemma_position_offset(t: u64, k: int, c: int)
    requires
        0 < c,
        0 <= k < c,
    ensures
        slot_offset(t, slot_position(t, k, c), c) == k,
{
    lemma_sub_mod_noop_right(slot_position(t, k, c), t as int, c);
    lemma_sub_mod_noop(t + k, t as int, c);
    lemma_small_mod(k as nat, c as nat);
}

/// A slot is reached from the consumer counter by stepping its own offset:
/// offsets determine positions.
proof fn lemma_offset_position(t: u64, j: int, c: int)
    requires
        0 < c,
        0 <= j < c,
    ensures
        slot_position(t, slot_offset(t, j, c), c) == j,
{
    lemma_add_mod_noop_right(t as int, j - t, c);
    lemma_small_mod(j as nat, c as nat);
}

/// Incrementing the producer counter raises the wrapped distance by one, as
/// long as it has room to grow.
proof fn lemma_wrap_inc(h: u64, t: u64)
    requires
        wrap_distance(h, t) < u64::MAX as int,
    ensures
        wrap_distance(h.wrapping_add(1), t) == wrap_distance(h, t) + 1,
{
}

/// Incrementing the consumer counter lowers a positive wrapped distance by
/// one.
proof fn lemma_wrap_dec(h: u64, t: u64)
    requires
        wrap_distance(h, t) > 0,
    ensures
        wrap_distance(h, t.wrapping_add(1)) == wrap_distance(h, t) - 1,
{
}

/// Every capacity exponent below 64 keeps the capacity within `u64` range.
proof fn lemma_pow2_fits_u64(k: nat)
    requires
        k < 64,
    ensures
        pow2(k) <= 0x8000000000000000,
{
    if k < 63 {
        lemma_pow2_strictly_increases(k, 63);
    }
    lemma2_to64_rest();
}

/// Computes the smallest power of two `>=` the request (`1` for a request of
/// `0`), together with its exponent.
fn round_up_pow2(req: usize) -> (r: (usize, Ghost<nat>))
    requires
        req <= usize::MAX / 2 + 1,
    ensures
        r.0 == pow2(r.1@),
        r.1@ < 64,
        r.0 >= req,
        r.0 >= 1,
        forall|j: nat| pow2(j) >= req ==> r.0 <= #[trigger] pow2(j),
{
    let mut c: usize = 1;
    let ghost mut k: nat = 0;
    proof {
        lemma2_to64();
        lemma2_to64_rest();
        assert(usize::MAX == u32::MAX || usize::MAX == u64::MAX);
    }
    while c < req
        invariant
            1 <= c,
            c == pow2(k),
            k < 64,
            req <= usize::MAX / 2 + 1,
            c == 1 || c / 2 < req,
        decreases 2 * req - c,
    {
        proof {
            lemma2_to64();
            lemma2_to64_rest();
            assert(usize::MAX == u32::MAX || usize::MAX == u64::MAX);
            lemma_pow2_unfold(k + 1);
            if k + 1 >= 64 {
                assert(k == 63);
                assert(pow2(63) == 0x8000000000000000) by {
                    lemma2_to64_rest();
                }
                assert(c < req <= usize::MAX / 2 + 1);
                assert(false);
            }
        }
        c = c * 2;
        proof {
            k = k + 1;
        }
    }
    proof {
        assert forall|j: nat| pow2(j) >= req implies c <= #[trigger] pow2(j) by {
            if c > 1 {
                assert(c / 2 < req);
                lemma_pow2_unfold(k);
                assert(pow2((k - 1) as nat) == c / 2);
                if j < k {
                    if j < k - 1 {
                        lemma_pow2_strictly_increases(j, (k - 1) as nat);
                    }
                    assert(pow2(j) <= pow2((k - 1) as nat));
                    assert(false);
                }
                if j > k {
                    lemma_pow2_strictly_increases(k, j);
                }
            } else {
                lemma_pow2_pos(j);
            }
        }
    }
    (c, Ghost(k))
}

} // verus!
