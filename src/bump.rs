//! The baseline allocators: one that never gives memory, and a bump allocator
//! that only reclaims its region once every allocation has been returned.
use vstd::prelude::*;
use crate::block::{AllocError, align_up, disjoint, lemma_align_up, checked_align_up};

verus! {

/// An allocator that turns every request down.
pub struct Dummy;

impl Dummy {
    pub fn allocate(&self, _size: usize, _align: usize) -> (r: Result<usize, AllocError>)
        ensures
            r == Err::<usize, AllocError>(AllocError::OutOfMemory),
    {
        Err(AllocError::OutOfMemory)
    }
}

/// Hands out ascending addresses from `next`; the region becomes reusable only
/// when the count of live allocations falls back to zero. Until `init` it
/// rejects every request.
pub struct BumpAllocator {
    initialized: bool,
    heap_start: usize,
    heap_end: usize,
    next: usize,
    allocations: usize,
    /// The live allocations as `(start, size, align)`, oldest first.
    live: Ghost<Seq<(usize, usize, usize)>>,
}

impl BumpAllocator {
    pub closed spec fn is_initialized(&self) -> bool {
        self.initialized
    }

    pub closed spec fn region_start(&self) -> int {
        self.heap_start as int
    }

    pub closed spec fn region_end(&self) -> int {
        self.heap_end as int
    }

    /// The lowest address the next allocation may take.
    pub closed spec fn next_free(&self) -> int {
        self.next as int
    }

    /// How many allocations have not been returned.
    pub closed spec fn live_count(&self) -> int {
        self.allocations as int
    }

    /// The allocations handed out and not yet returned, as
    /// `(start, size, align)`, oldest first.
    pub closed spec fn live(&self) -> Seq<(usize, usize, usize)> {
        self.live@
    }

    /// Every live allocation lies between the region's start and `next`, at a
    /// multiple of its alignment, and no two share a byte.
    pub closed spec fn wf(&self) -> bool {
        let live = self.live@;
        &&& self.heap_start <= self.next <= self.heap_end
        &&& !self.initialized ==> self.allocations == 0
        &&& self.allocations == live.len()
        &&& forall|i: int|
            0 <= i < live.len() ==> {
                &&& self.heap_start <= (#[trigger] live[i]).0
                &&& live[i].0 + live[i].1 <= self.next
                &&& live[i].2 > 0
                &&& live[i].0 % live[i].2 == 0
            }
        &&& forall|i: int, j: int|
            0 <= i < live.len() && 0 <= j < live.len() && i != j ==> disjoint(
                (#[trigger] live[i]).0 as int,
                live[i].1 as int,
                (#[trigger] live[j]).0 as int,
                live[j].1 as int,
            )
    }

    /// The next allocation starts no lower than the region's start, and
    /// `next` never passes the region's end.
    pub proof fn lemma_next_in_region(h: Self)
        requires
            h.wf(),
        ensures
            h.region_start() <= h.next_free() <= h.region_end(),
    {
    }

    /// Every live allocation lies inside the region and starts at a multiple
    /// of the alignment it was requested with.
    pub proof fn lemma_live_in_region(h: Self)
        requires
            h.wf(),
        ensures
            forall|i: int|
                0 <= i < h.live().len() ==> {
                    &&& h.region_start() <= (#[trigger] h.live()[i]).0
                    &&& h.live()[i].0 + h.live()[i].1 <= h.region_end()
                    &&& h.live()[i].0 % h.live()[i].2 == 0
                },
    {
    }

    /// No two live allocations share a byte.
    pub proof fn lemma_live_disjoint(h: Self)
        requires
            h.wf(),
        ensures
            forall|i: int, j: int|
                0 <= i < h.live().len() && 0 <= j < h.live().len() && i != j ==> disjoint(
                    (#[trigger] h.live()[i]).0 as int,
                    h.live()[i].1 as int,
                    (#[trigger] h.live()[j]).0 as int,
                    h.live()[j].1 as int,
                ),
    {
    }

    /// Creates a new empty bump allocator.
    pub fn new() -> (r: Self)
        ensures
            r.wf(),
            !r.is_initialized(),
            r.region_start() == 0,
            r.region_end() == 0,
            r.next_free() == 0,
            r.live_count() == 0,
            r.live().len() == 0,
    {
        BumpAllocator { initialized: false, heap_start: 0, heap_end: 0, next: 0, allocations: 0, live: Ghost(Seq::empty()) }
    }

    /// Initializes the bump allocator with the given heap bounds.
    pub fn init(&mut self, heap_start: usize, heap_size: usize)
        requires
            old(self).wf(),
            !old(self).is_initialized(),
            heap_start + heap_size <= usize::MAX,
        ensures
            final(self).wf(),
            final(self).is_initialized(),
            final(self).region_start() == heap_start,
            final(self).region_end() == heap_start + heap_size,
            final(self).next_free() == heap_start,
            final(self).live_count() == 0,
            final(self).live().len() == 0,
    {
        self.initialized = true;
        self.heap_start = heap_start;
        self.heap_end = heap_start + heap_size;
        self.next = heap_start;
    }

    pub fn initialized(&self) -> (r: bool)
        ensures
            r == self.is_initialized(),
    {
        self.initialized
    }

    /// What `allocate(size, align)` does, from `pre` to `post` with result `r`.
    pub open spec fn allocate_post(pre: Self, post: Self, size: usize, align: usize, r: Result<usize, AllocError>) -> bool {
        &&& post.wf()
        &&& post.is_initialized() == pre.is_initialized()
        &&& post.region_start() == pre.region_start()
        &&& post.region_end() == pre.region_end()
        &&& match r {
            Ok(addr) => {
                &&& pre.is_initialized()
                &&& addr == align_up(pre.next_free(), align as int)
                &&& addr % align == 0
                &&& pre.next_free() <= addr
                &&& addr + size <= pre.region_end()
                &&& post.next_free() == addr + size
                &&& post.live_count() == pre.live_count() + 1
                &&& post.live() == pre.live().push((addr, size, align))
            },
            Err(e) => {
                &&& post == pre
                &&& if !pre.is_initialized() {
                    e == AllocError::Uninitialized
                } else {
                    &&& e == AllocError::OutOfMemory
                    &&& align_up(pre.next_free(), align as int) + size > pre.region_end()
                        || pre.live_count() == usize::MAX
                }
            },
        }
    }

    /// Before `init` rejects the request. Afterwards serves `size` bytes at the
    /// lowest address from `next` on that is a multiple of `align`, or fails
    /// where they would pass the region's end or the count of live
    /// allocations is at its limit.
    pub fn allocate(&mut self, size: usize, align: usize) -> (r: Result<usize, AllocError>)
        requires
            old(self).wf(),
            align > 0,
        ensures
            Self::allocate_post(*old(self), *final(self), size, align, r),
    {
        if !self.initialized {
            return Err(AllocError::Uninitialized);
        }
        if self.allocations == usize::MAX {
            return Err(AllocError::OutOfMemory);
        }
        proof {
            lemma_align_up(self.next as int, align as int);
        }
        let alloc_start = match checked_align_up(self.next, align) {
            Some(a) => a,
            None => {
                return Err(AllocError::OutOfMemory);
            },
        };
        let alloc_end = match alloc_start.checked_add(size) {
            Some(e) => e,
            None => {
                return Err(AllocError::OutOfMemory);
            },
        };
        if alloc_end > self.heap_end {
            return Err(AllocError::OutOfMemory);
        }
        let ghost pre = self.live@;
        self.next = alloc_end;
        self.allocations = self.allocations + 1;
        self.live = Ghost(self.live@.push((alloc_start, size, align)));
        proof {
            assert forall|i: int| 0 <= i < pre.len() implies #[trigger] self.live@[i] == pre[i] by {}
        }
        Ok(alloc_start)
    }

    /// A request for more bytes than the whole region holds fails and changes
    /// nothing.
    pub proof fn lemma_oversized_request_fails(
        pre: Self,
        post: Self,
        size: usize,
        align: usize,
        r: Result<usize, AllocError>,
    )
        requires
            pre.wf(),
            size > pre.region_end() - pre.region_start(),
            Self::allocate_post(pre, post, size, align, r),
        ensures
            r is Err,
            pre.is_initialized() ==> r == Err::<usize, AllocError>(AllocError::OutOfMemory),
            post == pre,
    {
    }

    /// Counts one allocation as returned; the last one to come back makes the
    /// whole region free again.
    pub fn deallocate(&mut self, ptr: usize, size: usize, align: usize)
        requires
            old(self).wf(),
            old(self).live().contains((ptr, size, align)),
        ensures
            final(self).wf(),
            final(self).is_initialized() == old(self).is_initialized(),
            final(self).region_start() == old(self).region_start(),
            final(self).region_end() == old(self).region_end(),
            final(self).live_count() == old(self).live_count() - 1,
            final(self).next_free() == (if final(self).live_count() == 0 {
                old(self).region_start()
            } else {
                old(self).next_free()
            }),
            exists|i: int|
                0 <= i < old(self).live().len() && old(self).live()[i] == (ptr, size, align)
                    && final(self).live() == old(self).live().remove(i),
    {
        let ghost pre = self.live@;
        let ghost i = choose|i: int| 0 <= i < pre.len() && pre[i] == (ptr, size, align);
        self.allocations = self.allocations - 1;
        self.live = Ghost(pre.remove(i));
        if self.allocations == 0 {
            self.next = self.heap_start;
        }
        proof {
            assert forall|k: int| 0 <= k < self.live@.len() implies #[trigger] self.live@[k] == pre[if k < i {
                k
            } else {
                k + 1
            }] by {}
        }
    }
}

} // verus!
