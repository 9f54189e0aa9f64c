//! A general-purpose first-fit allocator over an explicit, unordered free list.
//!
//! Each free node is a `(start, size)` record; the list's head is its first
//! element. Allocation walks the list from the head and takes the first node
//! that can hold the request at the requested alignment; freed blocks are
//! pushed back at the head without coalescing.
use vstd::prelude::*;
use crate::block::{AllocError, Block, align_up, disjoint, within, lemma_align_up, checked_align_up};

verus! {

/// The smallest free node: room for its own size and the next node's address.
pub const MIN_NODE_SIZE: usize = 16;

/// Every block that leaves or enters the list is a multiple of this width.
pub const WORD_SIZE: usize = 8;

/// The number of bytes a request of `size` takes from the free list.
pub open spec fn adjusted_size(size: int) -> int {
    align_up(if size < MIN_NODE_SIZE { MIN_NODE_SIZE as int } else { size }, WORD_SIZE as int)
}

/// A node can hold `adj` bytes at the lowest address in it aligned to `align`.
pub open spec fn fits(b: Block, adj: int, align: int) -> bool {
    align_up(b.start as int, align) + adj <= b.end()
}

/// Index `i` is the first node from the head that can hold the request.
pub open spec fn is_first_fit(free: Seq<Block>, i: int, adj: int, align: int) -> bool {
    &&& 0 <= i < free.len()
    &&& fits(free[i], adj, align)
    &&& forall|j: int| 0 <= j < i ==> !fits(#[trigger] free[j], adj, align)
}

/// The free list after node `i` gave `[addr, addr + adj)`: the node leaves the
/// list, and what trails the allocation comes back at the head when it is large
/// enough to be a node of its own.
pub open spec fn split_node(free: Seq<Block>, i: int, addr: int, adj: int) -> Seq<Block> {
    let rest = free.remove(i);
    let tail = free[i].end() - (addr + adj);
    if tail >= MIN_NODE_SIZE {
        rest.insert(0, Block { start: (addr + adj) as usize, size: tail as usize })
    } else {
        rest
    }
}

/// `adjusted_size`, or `None` where it exceeds the address space.
pub fn checked_adjusted_size(size: usize) -> (r: Option<usize>)
    ensures
        match r {
            Some(n) => n == adjusted_size(size as int),
            None => adjusted_size(size as int) > usize::MAX,
        },
{
    let at_least = if size < MIN_NODE_SIZE { MIN_NODE_SIZE } else { size };
    checked_align_up(at_least, WORD_SIZE)
}

/// A first-fit free-list allocator over one heap region.
pub struct FreeListAllocator {
    initialized: bool,
    heap_start: usize,
    heap_end: usize,
    free: Vec<Block>,
    /// The live allocations: start address to the `(size, align)` they were made with.
    live: Ghost<Map<usize, (usize, usize)>>,
}

impl FreeListAllocator {
    pub closed spec fn is_initialized(&self) -> bool {
        self.initialized
    }

    pub closed spec fn region_start(&self) -> int {
        self.heap_start as int
    }

    pub closed spec fn region_end(&self) -> int {
        self.heap_end as int
    }

    /// The free list, head first.
    pub closed spec fn free_blocks(&self) -> Seq<Block> {
        self.free@
    }

    /// The allocations handed out and not yet returned, by start address.
    pub closed spec fn live(&self) -> Map<usize, (usize, usize)> {
        self.live@
    }

    /// The range a block takes inside the region.
    pub open spec fn block_in_region(&self, start: int, size: int) -> bool {
        within(start, size, self.region_start(), self.region_end() - self.region_start())
    }

    /// The region holds every free node and every live allocation's footprint,
    /// and no two of them share a byte.
    pub closed spec fn wf(&self) -> bool {
        let free = self.free@;
        let live = self.live@;
        &&& self.heap_start <= self.heap_end
        &&& !self.initialized ==> free.len() == 0 && live.is_empty()
        &&& forall|i: int|
            0 <= i < free.len() ==> {
                &&& self.block_in_region(#[trigger] free[i].start as int, free[i].size as int)
                &&& free[i].size >= MIN_NODE_SIZE
            }
        &&& forall|i: int, j: int|
            0 <= i < free.len() && 0 <= j < free.len() && i != j ==> disjoint(
                #[trigger] free[i].start as int,
                free[i].size as int,
                #[trigger] free[j].start as int,
                free[j].size as int,
            )
        &&& forall|a: usize|
            #[trigger] live.contains_key(a) ==> {
                &&& live[a].1 > 0
                &&& a % live[a].1 == 0
                &&& self.block_in_region(a as int, adjusted_size(live[a].0 as int))
            }
        &&& forall|a: usize, b: usize|
            #[trigger] live.contains_key(a) && #[trigger] live.contains_key(b) && a != b
                ==> disjoint(
                a as int,
                adjusted_size(live[a].0 as int),
                b as int,
                adjusted_size(live[b].0 as int),
            )
        &&& forall|a: usize, i: int|
            #[trigger] live.contains_key(a) && 0 <= i < free.len() ==> disjoint(
                a as int,
                adjusted_size(live[a].0 as int),
                #[trigger] free[i].start as int,
                free[i].size as int,
            )
    }

    /// The allocator `post` that `init(heap_start, heap_size)` leaves.
    pub open spec fn init_post(post: Self, heap_start: usize, heap_size: usize) -> bool {
        &&& post.wf()
        &&& post.is_initialized()
        &&& post.region_start() == heap_start
        &&& post.region_end() == heap_start + heap_size
        &&& post.free_blocks() == (if heap_size >= MIN_NODE_SIZE {
            seq![Block { start: heap_start, size: heap_size }]
        } else {
            Seq::empty()
        })
        &&& post.live().is_empty()
    }

    /// What `allocate(size, align)` does, from `pre` to `post` with result `r`.
    pub open spec fn allocate_post(pre: Self, post: Self, size: usize, align: usize, r: Result<usize, AllocError>) -> bool {
        &&& post.wf()
        &&& post.is_initialized() == pre.is_initialized()
        &&& post.region_start() == pre.region_start()
        &&& post.region_end() == pre.region_end()
        &&& match r {
            Ok(addr) => {
                &&& exists|i: int| {
                    &&& is_first_fit(pre.free_blocks(), i, adjusted_size(size as int), align as int)
                    &&& addr == align_up(pre.free_blocks()[i].start as int, align as int)
                    &&& post.free_blocks() == split_node(
                        pre.free_blocks(),
                        i,
                        addr as int,
                        adjusted_size(size as int),
                    )
                }
                &&& !pre.live().contains_key(addr)
                &&& post.live() == pre.live().insert(addr, (size, align))
                &&& addr % align == 0
                &&& pre.region_start() <= addr
                &&& addr + size <= pre.region_end()
            },
            Err(e) => {
                &&& e == AllocError::OutOfMemory
                &&& forall|j: int|
                    0 <= j < pre.free_blocks().len() ==> !fits(
                        #[trigger] pre.free_blocks()[j],
                        adjusted_size(size as int),
                        align as int,
                    )
                &&& post == pre
            },
        }
    }

    /// What `deallocate(ptr, size, _)` does, from `pre` to `post`.
    pub open spec fn deallocate_post(pre: Self, post: Self, ptr: usize, size: usize) -> bool {
        &&& post.wf()
        &&& post.is_initialized() == pre.is_initialized()
        &&& post.region_start() == pre.region_start()
        &&& post.region_end() == pre.region_end()
        &&& post.free_blocks() == pre.free_blocks().insert(
            0,
            Block { start: ptr, size: adjusted_size(size as int) as usize },
        )
        &&& post.live() == pre.live().remove(ptr)
    }

    /// An allocator with no region: every request fails until `init`.
    pub fn new() -> (r: Self)
        ensures
            r.wf(),
            !r.is_initialized(),
            r.free_blocks().len() == 0,
            r.live().is_empty(),
    {
        FreeListAllocator {
            initialized: false,
            heap_start: 0,
            heap_end: 0,
            free: Vec::new(),
            live: Ghost(Map::empty()),
        }
    }

    /// Hands the allocator the region `[heap_start, heap_start + heap_size)` as its
    /// sole free node (a region too small to hold a node stays unused).
    pub fn init(&mut self, heap_start: usize, heap_size: usize)
        requires
            !old(self).is_initialized(),
            heap_start + heap_size <= usize::MAX,
        ensures
            Self::init_post(*final(self), heap_start, heap_size),
    {
        self.initialized = true;
        self.heap_start = heap_start;
        self.heap_end = heap_start + heap_size;
        self.free = Vec::new();
        if heap_size >= MIN_NODE_SIZE {
            self.free.push(Block { start: heap_start, size: heap_size });
        }
        self.live = Ghost(Map::empty());
        proof {
            if heap_size >= MIN_NODE_SIZE {
                assert(self.free@ =~= seq![Block { start: heap_start, size: heap_size }]);
            } else {
                assert(self.free@ =~= Seq::<Block>::empty());
            }
        }
    }

    /// Serves `size` bytes at `align` from the first node that can hold them.
    ///
    /// The node leaves the list; the gap before the aligned address is lost, and
    /// what trails the allocation returns to the head if it can be a node.
    pub fn allocate(&mut self, size: usize, align: usize) -> (r: Result<usize, AllocError>)
        requires
            old(self).wf(),
            align > 0,
        ensures
            Self::allocate_post(*old(self), *final(self), size, align, r),
    {
        let adj = match checked_adjusted_size(size) {
            Some(n) => n,
            None => {
                proof {
                    assert forall|j: int| 0 <= j < self.free@.len() implies !fits(
                        #[trigger] self.free@[j],
                        adjusted_size(size as int),
                        align as int,
                    ) by {
                        lemma_align_up(self.free@[j].start as int, align as int);
                    }
                }
                return Err(AllocError::OutOfMemory);
            },
        };
        let i = match self.find_first_fit(adj, align) {
            Some(i) => i,
            None => {
                return Err(AllocError::OutOfMemory);
            },
        };
        let ghost pre = *self;
        let node = self.free.remove(i);
        proof {
            assert(pre.free@[i as int] == node);
            assert(self.block_in_region(node.start as int, node.size as int));
            lemma_align_up(node.start as int, align as int);
        }
        let addr = match checked_align_up(node.start, align) {
            Some(a) => a,
            None => {
                return Err(AllocError::OutOfMemory);
            },
        };
        let node_end = node.start + node.size;
        let alloc_end = addr + adj;
        let tail = node_end - alloc_end;
        if tail >= MIN_NODE_SIZE {
            self.free.insert(0, Block { start: alloc_end, size: tail });
        }
        self.live = Ghost(self.live@.insert(addr, (size, align)));
        proof {
            assert(self.free@ == split_node(pre.free@, i as int, addr as int, adj as int));
            Self::lemma_split_keeps_wf(pre, *self, i as int, addr as int, size, align);
        }
        Ok(addr)
    }

    /// Returns the block that `allocate(size, align)` gave at `ptr`: a node of
    /// its footprint goes to the head of the list. Neighbours are not merged.
    pub fn deallocate(&mut self, ptr: usize, size: usize, align: usize)
        requires
            old(self).wf(),
            old(self).live().contains_key(ptr),
            old(self).live()[ptr] == (size, align),
        ensures
            Self::deallocate_post(*old(self), *final(self), ptr, size),
    {
        let ghost pre = *self;
        proof {
            Self::lemma_adjusted_size(size as int);
        }
        let adj = match checked_adjusted_size(size) {
            Some(n) => n,
            None => {
                proof {
                    assert(false);
                }
                return;
            },
        };
        let b = Block { start: ptr, size: adj };
        self.free.insert(0, b);
        self.live = Ghost(self.live@.remove(ptr));
        proof {
            assert forall|k: int| 0 <= k < self.free@.len() implies (k == 0 && self.free@[k] == b) || (k > 0
                && self.free@[k] == pre.free@[k - 1]) by {}
            assert forall|a: usize| #[trigger] self.live@.contains_key(a) implies self.live@[a].1 > 0 && a % self.live@[a].1 == 0
                && self.block_in_region(a as int, adjusted_size(self.live@[a].0 as int)) by {
                assert(pre.live@.contains_key(a));
            }
            assert(pre.initialized);
            assert(self.wf());
        }
    }

    /// Every live allocation lies inside the region and starts at a multiple of
    /// the alignment it was requested with.
    pub proof fn lemma_live_in_region(h: Self)
        requires
            h.wf(),
        ensures
            forall|a: usize| #[trigger] h.live().contains_key(a) ==> {
                &&& h.region_start() <= a
                &&& a + h.live()[a].0 <= h.region_end()
                &&& a % h.live()[a].1 == 0
            },
    {
        assert forall|a: usize| #[trigger] h.live().contains_key(a) implies {
            &&& h.region_start() <= a
            &&& a + h.live()[a].0 <= h.region_end()
            &&& a % h.live()[a].1 == 0
        } by {
            Self::lemma_adjusted_size(h.live@[a].0 as int);
        }
    }

    /// No two live allocations share a byte.
    pub proof fn lemma_live_disjoint(h: Self)
        requires
            h.wf(),
        ensures
            forall|a: usize, b: usize|
                #[trigger] h.live().contains_key(a) && #[trigger] h.live().contains_key(b) && a != b
                    ==> disjoint(a as int, h.live()[a].0 as int, b as int, h.live()[b].0 as int),
    {
        assert forall|a: usize, b: usize|
            #[trigger] h.live().contains_key(a) && #[trigger] h.live().contains_key(b) && a != b
                implies disjoint(a as int, h.live()[a].0 as int, b as int, h.live()[b].0 as int) by {
            Self::lemma_adjusted_size(h.live@[a].0 as int);
            Self::lemma_adjusted_size(h.live@[b].0 as int);
        }
    }

    /// An allocator that was never given a region has no free node and no live
    /// allocation.
    pub proof fn lemma_uninitialized_is_empty(h: Self)
        requires
            h.wf(),
            !h.is_initialized(),
        ensures
            h.free_blocks().len() == 0,
            h.live().is_empty(),
    {
    }

    /// A request for more bytes than the whole region holds fails with
    /// `OutOfMemory` and changes nothing.
    pub proof fn lemma_oversized_request_fails(
        pre: Self,
        post: Self,
        size: usize,
        align: usize,
        r: Result<usize, AllocError>,
    )
        requires
            pre.wf(),
            align > 0,
            size > pre.region_end() - pre.region_start(),
            Self::allocate_post(pre, post, size, align, r),
        ensures
            r == Err::<usize, AllocError>(AllocError::OutOfMemory),
            post == pre,
    {
        Self::lemma_adjusted_size(size as int);
        if let Ok(addr) = r {
            let i = choose|i: int| {
                &&& is_first_fit(pre.free_blocks(), i, adjusted_size(size as int), align as int)
                &&& addr == align_up(pre.free_blocks()[i].start as int, align as int)
                &&& post.free_blocks() == split_node(pre.free_blocks(), i, addr as int, adjusted_size(size as int))
            };
            let n = pre.free@[i];
            assert(pre.block_in_region(n.start as int, n.size as int));
            lemma_align_up(n.start as int, align as int);
            assert(false);
        }
    }

    proof fn lemma_adjusted_size(size: int)
        requires
            size >= 0,
        ensures
            adjusted_size(size) >= MIN_NODE_SIZE,
            adjusted_size(size) >= size,
    {
        lemma_align_up(if size < MIN_NODE_SIZE { MIN_NODE_SIZE as int } else { size }, WORD_SIZE as int);
    }

    /// Taking an allocation out of a first-fitting node keeps the free list, the
    /// live allocations and the region consistent.
    proof fn lemma_split_keeps_wf(pre: Self, post: Self, i: int, addr: int, size: usize, align: usize)
        requires
            pre.wf(),
            align > 0,
            is_first_fit(pre.free@, i, adjusted_size(size as int), align as int),
            addr == align_up(pre.free@[i].start as int, align as int),
            post.initialized == pre.initialized,
            post.heap_start == pre.heap_start,
            post.heap_end == pre.heap_end,
            post.free@ == split_node(pre.free@, i, addr, adjusted_size(size as int)),
            post.live@ == pre.live@.insert(addr as usize, (size, align)),
        ensures
            post.wf(),
            !pre.live@.contains_key(addr as usize),
    {
        let n = pre.free@[i];
        assert(pre.initialized);
        let adj = adjusted_size(size as int);
        let rest = pre.free@.remove(i);
        lemma_align_up(n.start as int, align as int);
        Self::lemma_adjusted_size(size as int);
        assert(pre.block_in_region(n.start as int, n.size as int));
        assert forall|k: int| 0 <= k < rest.len() implies disjoint(
            n.start as int,
            n.size as int,
            #[trigger] rest[k].start as int,
            rest[k].size as int,
        ) && pre.block_in_region(rest[k].start as int, rest[k].size as int)
            && rest[k].size >= MIN_NODE_SIZE by {
            let kk = if k < i { k } else { k + 1 };
            assert(rest[k] == pre.free@[kk]);
        }
        assert forall|k: int, l: int| 0 <= k < rest.len() && 0 <= l < rest.len() && k != l implies disjoint(
            #[trigger] rest[k].start as int,
            rest[k].size as int,
            #[trigger] rest[l].start as int,
            rest[l].size as int,
        ) by {
            let kk = if k < i { k } else { k + 1 };
            let ll = if l < i { l } else { l + 1 };
            assert(rest[k] == pre.free@[kk]);
            assert(rest[l] == pre.free@[ll]);
        }
        assert forall|a: usize, k: int| #[trigger] pre.live@.contains_key(a) && 0 <= k < rest.len() implies disjoint(
            a as int,
            adjusted_size(pre.live@[a].0 as int),
            #[trigger] rest[k].start as int,
            rest[k].size as int,
        ) by {
            let kk = if k < i { k } else { k + 1 };
            assert(rest[k] == pre.free@[kk]);
        }
        assert forall|a: usize| #[trigger] pre.live@.contains_key(a) implies disjoint(
            a as int,
            adjusted_size(pre.live@[a].0 as int),
            n.start as int,
            n.size as int,
        ) by {
            assert(0 <= i < pre.free@.len());
        }
        if pre.live@.contains_key(addr as usize) {
            Self::lemma_adjusted_size(pre.live@[addr as usize].0 as int);
            assert(false);
        }
        assert(addr % align as int == 0);
        assert forall|a: usize| #[trigger] post.live@.contains_key(a) implies post.live@[a].1 > 0 && a % post.live@[a].1 == 0
            && post.block_in_region(a as int, adjusted_size(post.live@[a].0 as int)) by {
            if a != addr as usize {
                assert(pre.live@.contains_key(a));
            }
        }
        let tail = n.end() - (addr + adj);
        if tail >= MIN_NODE_SIZE {
            let t = Block { start: (addr + adj) as usize, size: tail as usize };
            assert(post.free@ == rest.insert(0, t));
            assert forall|k: int| 0 <= k < post.free@.len() implies (post.free@[k] == t || exists|m: int|
                0 <= m < rest.len() && post.free@[k] == #[trigger] rest[m]) by {
                if k > 0 {
                    assert(post.free@[k] == rest[k - 1]);
                }
            }
        } else {
            assert(post.free@ == rest);
        }
    }

    /// The first node from the head that can hold `adj` bytes at `align`.
    fn find_first_fit(&self, adj: usize, align: usize) -> (r: Option<usize>)
        requires
            self.wf(),
            align > 0,
        ensures
            match r {
                Some(i) => is_first_fit(self.free@, i as int, adj as int, align as int),
                None => forall|j: int|
                    0 <= j < self.free@.len() ==> !fits(#[trigger] self.free@[j], adj as int, align as int),
            },
    {
        let mut i: usize = 0;
        while i < self.free.len()
            invariant
                self.wf(),
                align > 0,
                i <= self.free@.len(),
                forall|j: int| 0 <= j < i ==> !fits(#[trigger] self.free@[j], adj as int, align as int),
            decreases self.free@.len() - i,
        {
            let node = self.free[i];
            assert(self.block_in_region(self.free@[i as int].start as int, self.free@[i as int].size as int));
            let node_end = node.start + node.size;
            match checked_align_up(node.start, align) {
                Some(aligned) => {
                    if let Some(alloc_end) = aligned.checked_add(adj) {
                        if alloc_end <= node_end {
                            return Some(i);
                        }
                    }
                },
                None => {},
            }
            i = i + 1;
        }
        None
    }
}

} // verus!
