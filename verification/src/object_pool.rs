//! A fixed set of pre-created objects handed out and taken back in LIFO
//! order: a returned object — with whatever state its last user left in it —
//! is the next one handed out. Pre-creating the objects keeps allocation off
//! the hot path.

use vstd::prelude::*;

verus! {

/// An object on loan from an `ObjectPool`; hand it back with
/// `ObjectPool::put` when done with it.
pub struct Pooled<T> {
    pub item: T,
}

/// A pre-allocating object pool over a free list.
pub struct ObjectPool<T> {
    items: Vec<T>,
}

impl<T> View for ObjectPool<T> {
    type V = Seq<T>;

    /// The objects currently available, in the order they would be handed
    /// out, last first.
    closed spec fn view(&self) -> Seq<T> {
        self.items@
    }
}

impl<T> ObjectPool<T> {
    /// Creates a pool holding `capacity` objects, each produced by a call of
    /// `init`.
    pub fn new<F: Fn() -> T>(capacity: usize, init: F) -> (p: Self)
        requires
            call_requires(init, ()),
        ensures
            p@.len() == capacity,
            forall|i: int| 0 <= i < capacity ==> call_ensures(init, (), #[trigger] p@[i]),
    {
        let mut items: Vec<T> = Vec::new();
        let mut i: usize = 0;
        while i < capacity
            invariant
                i <= capacity,
                items@.len() == i,
                call_requires(init, ()),
                forall|j: int| 0 <= j < i ==> call_ensures(init, (), #[trigger] items@[j]),
            decreases capacity - i,
        {
            items.push(init());
            i = i + 1;
        }
        ObjectPool { items }
    }

    /// Takes an object out of the pool — the most recently returned or
    /// created one. Yields nothing exactly when every object is out on loan.
    pub fn try_get(&mut self) -> (r: Option<Pooled<T>>)
        ensures
            old(self)@.len() == 0 ==> r is None && final(self)@ == old(self)@,
            old(self)@.len() > 0 ==> r == Some((Pooled { item: old(self)@.last() }))
                && final(self)@ == old(self)@.drop_last(),
    {
        match self.items.pop() {
            Some(item) => Some(Pooled { item }),
            None => None,
        }
    }

    /// Returns an object to the pool; it becomes the next one handed out.
    pub fn put(&mut self, item: T)
        ensures
            final(self)@ == old(self)@.push(item),
    {
        self.items.push(item);
    }

    /// Returns the number of objects available in the pool.
    pub fn available(&self) -> (n: usize)
        ensures
            n == self@.len(),
    {
        self.items.len()
    }
}

} // verus!
