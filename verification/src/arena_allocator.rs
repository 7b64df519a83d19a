//! The accounting core of a linear bump allocator.
//!
//! An arena hands out consecutive, alignment-padded byte ranges of a
//! fixed-capacity region by advancing a single offset; freeing is wholesale,
//! by resetting the offset to zero. This module decides and proves the
//! placement arithmetic — padding, bounds, and alignment; the raw memory the
//! ranges address lives with the caller.

use vstd::prelude::*;

verus! {

use vstd::arithmetic::div_mod::{
    lemma_fundamental_div_mod,
    lemma_mod_bound,
    lemma_mod_multiples_basic,
    lemma_small_mod,
};

/// Padding that brings `offset` up to the next multiple of `align`.
pub open spec fn align_padding(offset: int, align: int) -> int {
    (align - offset % align) % align
}

/// A fast, linear bump allocator over a fixed byte capacity.
pub struct Arena {
    /// Total capacity in bytes.
    capacity: usize,
    /// The bump pointer: bytes below it are allocated.
    offset: usize,
}

impl Arena {
    /// The total capacity in bytes.
    pub closed spec fn spec_capacity(&self) -> int {
        self.capacity as int
    }

    /// The bytes currently used.
    pub closed spec fn spec_used(&self) -> int {
        self.offset as int
    }

    /// Structural invariant: the bump pointer stays within the capacity.
    pub closed spec fn wf(&self) -> bool {
        self.offset <= self.capacity
    }

    /// Creates an arena with the given capacity in bytes, fully free.
    pub fn new(capacity_bytes: usize) -> (a: Self)
        ensures
            a.wf(),
            a.spec_capacity() == capacity_bytes as int,
            a.spec_used() == 0,
    {
        Arena { capacity: capacity_bytes, offset: 0 }
    }

    /// Reserves `size` bytes aligned to `align` and returns the start of the
    /// reservation: the current offset advanced by exactly the padding that
    /// aligns it. Fails, leaving the arena unchanged, exactly when the
    /// padded range would not fit in the capacity.
    pub fn alloc_bytes(&mut self, size: usize, align: usize) -> (r: Option<usize>)
        requires
            old(self).wf(),
            align > 0,
        ensures
            final(self).wf(),
            final(self).spec_capacity() == old(self).spec_capacity(),
            ({
                let start = old(self).spec_used() + align_padding(old(self).spec_used(), align as int);
                let end = start + size;
                &&& end <= old(self).spec_capacity() ==> r == Some(start as usize)
                    && final(self).spec_used() == end && start % (align as int) == 0
                &&& end > old(self).spec_capacity() ==> r is None && *final(self) == *old(self)
            }),
    {
        let rem = self.offset % align;
        let pad = (align - rem) % align;
        proof {
            lemma_mod_bound(self.offset as int, align as int);
            lemma_mod_bound(align - rem, align as int);
        }
        if pad > self.capacity - self.offset {
            return None;
        }
        let start = self.offset + pad;
        proof {
            let off = self.offset as int;
            let al = align as int;
            lemma_fundamental_div_mod(off, al);
            if rem == 0 {
                lemma_mod_multiples_basic(1, al);
                assert(pad == 0);
                assert(al * (off / al) == (off / al) * al) by (nonlinear_arith);
                lemma_mod_multiples_basic(off / al, al);
            } else {
                lemma_small_mod((al - rem) as nat, al as nat);
                assert(pad == al - rem);
                assert(start as int == al * (off / al) + al);
                assert(al * (off / al + 1) == al * (off / al) + al) by (nonlinear_arith);
                assert(start as int == al * (off / al + 1));
                assert(al * (off / al + 1) == (off / al + 1) * al) by (nonlinear_arith);
                lemma_mod_multiples_basic(off / al + 1, al);
            }
            assert(start as int % al == 0);
        }
        if size > self.capacity - start {
            return None;
        }
        self.offset = start + size;
        Some(start)
    }

    /// Frees everything at once by resetting the bump pointer. Ranges handed
    /// out earlier must no longer be in use; nothing is destroyed beyond the
    /// accounting.
    pub fn reset(&mut self)
        requires
            old(self).wf(),
        ensures
            final(self).wf(),
            final(self).spec_capacity() == old(self).spec_capacity(),
            final(self).spec_used() == 0,
    {
        self.offset = 0;
    }

    /// Returns the number of bytes currently used.
    pub fn used_bytes(&self) -> (n: usize)
        ensures
            n as int == self.spec_used(),
    {
        self.offset
    }

    /// Returns the total capacity in bytes.
    pub fn capacity(&self) -> (n: usize)
        ensures
            n as int == self.spec_capacity(),
    {
        self.capacity
    }
}

} // verus!
