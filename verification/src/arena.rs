//! The arena allocator's bookkeeping: a bump allocator over one reserved
//! region, reset in bulk once per processed event.
//!
//! The arena hands out offsets into its region; successive allocations get
//! disjoint, properly aligned ranges, and a reset reclaims everything at
//! once. Freeing individual allocations only lowers the in-use count; when
//! it reaches zero the bump pointer rewinds.

use vstd::prelude::*;

verus! {

/// The bump allocator's state: how far the region has been consumed
/// (`end`), how many bytes of that are still in use (`used`), and the
/// region's size.
pub struct Arena {
    end: usize,
    used: usize,
    capacity: usize,
}

/// The padding a bump position needs to reach alignment `align`.
pub open spec fn align_pad(end: int, align: int) -> int
    recommends
        align >= 1,
{
    (align - end % align) % align
}

impl Arena {
    /// The bump position: everything before it has been handed out.
    pub closed spec fn spec_end(&self) -> int {
        self.end as int
    }

    /// Bytes currently in use.
    pub closed spec fn spec_used(&self) -> int {
        self.used as int
    }

    /// The region's size.
    pub closed spec fn spec_capacity(&self) -> int {
        self.capacity as int
    }

    /// The arena invariant: in-use bytes never exceed the bump position,
    /// which never exceeds the region.
    pub open spec fn wf(&self) -> bool {
        self.spec_used() <= self.spec_end() <= self.spec_capacity()
    }

    /// A fresh arena over a region of `capacity` bytes.
    pub fn new(capacity: usize) -> (a: Arena)
        ensures
            a.wf(),
            a.spec_end() == 0,
            a.spec_used() == 0,
            a.spec_capacity() == capacity,
    {
        Arena { end: 0, used: 0, capacity }
    }

    /// Reclaim the whole region at once, as done before each event.
    pub fn reset(&mut self)
        ensures
            final(self).wf(),
            final(self).spec_end() == 0,
            final(self).spec_used() == 0,
            final(self).spec_capacity() == old(self).spec_capacity(),
    {
        self.end = 0;
        self.used = 0;
    }

    /// Bump-allocate `size` bytes at alignment `align`: the returned offset
    /// is aligned, starts at or after the current bump position, and the
    /// new bump position ends exactly `size` bytes later, still inside the
    /// region. `None` when the region cannot hold the request, leaving the
    /// arena unchanged.
    pub fn allocate(&mut self, size: usize, align: usize) -> (r: Option<usize>)
        requires
            old(self).wf(),
            align >= 1,
        ensures
            final(self).wf(),
            final(self).spec_capacity() == old(self).spec_capacity(),
            r is Some <==> old(self).spec_end() + align_pad(old(self).spec_end(), align as int)
                + size <= old(self).spec_capacity(),
            r is None ==> final(self).spec_end() == old(self).spec_end() && final(self).spec_used()
                == old(self).spec_used(),
            r matches Some(offset) ==> ({
                &&& offset as int == old(self).spec_end() + align_pad(
                    old(self).spec_end(),
                    align as int,
                )
                &&& offset as int % align as int == 0
                &&& final(self).spec_end() == offset as int + size as int
                &&& final(self).spec_end() <= final(self).spec_capacity()
                &&& final(self).spec_used() == old(self).spec_used() + size
            }),
    {
        let pad: usize = (align - self.end % align) % align;
        proof {
            vstd::arithmetic::div_mod::lemma_mod_bound(self.end as int, align as int);
            vstd::arithmetic::div_mod::lemma_mod_bound(
                (align - self.end % align) as int,
                align as int,
            );
        }
        let end128: u128 = self.end as u128 + pad as u128 + size as u128;
        if end128 > self.capacity as u128 {
            return None;
        }
        let offset = self.end + pad;
        proof {
            let e = self.end as int;
            let a = align as int;
            let r = e % a;
            if r == 0 {
                assert(pad as int == a % a);
                vstd::arithmetic::div_mod::lemma_mod_self_0(a);
                assert((e + 0) % a == 0) by {
                    vstd::arithmetic::div_mod::lemma_mod_twice(e, a);
                }
            } else {
                assert((a - r) % a == a - r) by {
                    vstd::arithmetic::div_mod::lemma_small_mod((a - r) as nat, a as nat);
                }
                assert((e + (a - r)) % a == 0) by {
                    vstd::arithmetic::div_mod::lemma_mod_add_multiples_vanish(e - r, a);
                    vstd::arithmetic::div_mod::lemma_mod_twice(e, a);
                    assert((e - r) % a == 0) by {
                        vstd::arithmetic::div_mod::lemma_fundamental_div_mod(e, a);
                        vstd::arithmetic::div_mod::lemma_mod_multiples_basic(e / a, a);
                    }
                }
            }
        }
        self.end = offset + size;
        self.used = self.used + size;
        Some(offset)
    }

    /// Note that `size` bytes were released. The bump position only moves
    /// once nothing at all remains in use; until then the space is merely
    /// accounted for.
    pub fn deallocate(&mut self, size: usize)
        requires
            old(self).wf(),
            size <= old(self).spec_used(),
        ensures
            final(self).wf(),
            final(self).spec_capacity() == old(self).spec_capacity(),
            final(self).spec_used() == old(self).spec_used() - size,
            final(self).spec_end() == if old(self).spec_used() - size == 0 {
                0int
            } else {
                old(self).spec_end()
            },
    {
        self.used = self.used - size;
        if self.used == 0 {
            self.end = 0;
        }
    }
}

} // verus!
