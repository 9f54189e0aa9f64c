//! The kernel's one heap: an explicit uninitialized phase that rejects every
//! request, then the segregated allocator over the region it was given.
//! Callers share it behind a single mutual-exclusion lock.
use vstd::prelude::*;
use vstd::arithmetic::div_mod::{lemma_fundamental_div_mod, lemma_mod_multiples_basic};
use crate::block::{AllocError, disjoint};
use crate::free_list::FreeListAllocator;
use crate::segregated::SegregatedFreeListAllocator;

verus! {

/// The size of a page that backs the heap.
pub const PAGE_SIZE: usize = 4096;

/// The start of the page that holds `addr`.
pub open spec fn page_of(addr: int) -> int {
    addr - addr % PAGE_SIZE as int
}

/// The start addresses of the first and the last page that a non-empty region
/// `[heap_start, heap_start + heap_size)` touches: the pages to map before
/// `init`.
pub fn heap_page_range(heap_start: usize, heap_size: usize) -> (r: (usize, usize))
    requires
        heap_size > 0,
        heap_start + heap_size <= usize::MAX,
    ensures
        r.0 == page_of(heap_start as int),
        r.1 == page_of(heap_start + heap_size - 1),
        r.0 <= heap_start,
        r.1 <= heap_start + heap_size - 1 < r.1 + PAGE_SIZE,
        r.0 % PAGE_SIZE == 0,
        r.1 % PAGE_SIZE == 0,
{
    let last = heap_start + (heap_size - 1);
    let first_page = heap_start - heap_start % PAGE_SIZE;
    let last_page = last - last % PAGE_SIZE;
    proof {
        lemma_align_down(heap_start as int);
        lemma_align_down(last as int);
    }
    (first_page, last_page)
}

proof fn lemma_align_down(addr: int)
    requires
        addr >= 0,
    ensures
        page_of(addr) % PAGE_SIZE as int == 0,
        page_of(addr) <= addr < page_of(addr) + PAGE_SIZE,
{
    lemma_fundamental_div_mod(addr, PAGE_SIZE as int);
    lemma_mod_multiples_basic(addr / PAGE_SIZE as int, PAGE_SIZE as int);
    assert(page_of(addr) == (addr / PAGE_SIZE as int) * PAGE_SIZE as int) by (nonlinear_arith)
        requires
            addr == PAGE_SIZE as int * (addr / PAGE_SIZE as int) + addr % PAGE_SIZE as int,
            page_of(addr) == addr - addr % PAGE_SIZE as int,
    ;
}

/// The process-wide heap and the phase it is in.
pub struct KernelHeap {
    initialized: bool,
    allocator: SegregatedFreeListAllocator,
}

impl KernelHeap {
    pub closed spec fn is_initialized(&self) -> bool {
        self.initialized
    }

    /// The allocator that serves requests once the heap is initialized.
    pub closed spec fn allocator(&self) -> SegregatedFreeListAllocator {
        self.allocator
    }

    pub closed spec fn wf(&self) -> bool {
        &&& self.allocator.wf()
        &&& self.allocator.is_initialized() == self.initialized
    }

    /// Every live allocation of the heap lies inside its region and starts at
    /// a multiple of the alignment it was requested with.
    pub proof fn lemma_live_in_region(h: Self)
        requires
            h.wf(),
        ensures
            forall|a: usize| #[trigger] h.allocator().live().contains_key(a) ==> {
                &&& h.allocator().region_start() <= a
                &&& a + h.allocator().live()[a].0 <= h.allocator().region_end()
                &&& a % h.allocator().live()[a].1 == 0
            },
    {
        SegregatedFreeListAllocator::lemma_live_in_region(h.allocator);
    }

    /// No two live allocations of the heap share a byte.
    pub proof fn lemma_live_disjoint(h: Self)
        requires
            h.wf(),
        ensures
            forall|a: usize, b: usize|
                #[trigger] h.allocator().live().contains_key(a) && #[trigger] h.allocator().live().contains_key(b)
                    && a != b ==> disjoint(
                    a as int,
                    h.allocator().live()[a].0 as int,
                    b as int,
                    h.allocator().live()[b].0 as int,
                ),
    {
        SegregatedFreeListAllocator::lemma_live_disjoint(h.allocator);
    }

    /// A heap in its uninitialized phase.
    pub fn new() -> (r: Self)
        ensures
            r.wf(),
            !r.is_initialized(),
    {
        KernelHeap { initialized: false, allocator: SegregatedFreeListAllocator::new() }
    }

    pub fn initialized(&self) -> (r: bool)
        ensures
            r == self.is_initialized(),
    {
        self.initialized
    }

    /// Makes the heap operative over `[heap_start, heap_start + heap_size)`,
    /// a range that is already mapped.
    pub fn init(&mut self, heap_start: usize, heap_size: usize)
        requires
            old(self).wf(),
            !old(self).is_initialized(),
            heap_start + heap_size <= usize::MAX,
        ensures
            final(self).wf(),
            final(self).is_initialized(),
            FreeListAllocator::init_post(final(self).allocator().fallback(), heap_start, heap_size),
            final(self).allocator().class_lists() == old(self).allocator().class_lists(),
            final(self).allocator().live().is_empty(),
    {
        proof {
            SegregatedFreeListAllocator::lemma_uninitialized_is_empty(self.allocator);
        }
        self.allocator.init(heap_start, heap_size);
        self.initialized = true;
    }

    /// Rejects the request before `init`; afterwards serves it from the
    /// segregated allocator.
    pub fn allocate(&mut self, size: usize, align: usize) -> (r: Result<usize, AllocError>)
        requires
            old(self).wf(),
            align > 0,
        ensures
            final(self).wf(),
            final(self).is_initialized() == old(self).is_initialized(),
            !old(self).is_initialized() ==> r == Err::<usize, AllocError>(AllocError::Uninitialized)
                && *final(self) == *old(self),
            old(self).is_initialized() ==> SegregatedFreeListAllocator::allocate_post(
                old(self).allocator(),
                final(self).allocator(),
                size,
                align,
                r,
            ),
    {
        if !self.initialized {
            return Err(AllocError::Uninitialized);
        }
        self.allocator.allocate(size, align)
    }

    /// Takes back the block that `allocate(size, align)` gave at `ptr`.
    pub fn deallocate(&mut self, ptr: usize, size: usize, align: usize)
        requires
            old(self).wf(),
            old(self).allocator().live().contains_key(ptr),
            old(self).allocator().live()[ptr] == (size, align),
        ensures
            final(self).wf(),
            final(self).is_initialized() == old(self).is_initialized(),
            SegregatedFreeListAllocator::deallocate_post(
                old(self).allocator(),
                final(self).allocator(),
                ptr,
                size,
                align,
            ),
    {
        self.allocator.deallocate(ptr, size, align);
    }
}

} // verus!
