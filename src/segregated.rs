//! A segregated allocator: one free list per power-of-two size class, with the
//! first-fit free-list allocator behind it for requests no class can take.
//!
//! A class list's head is its last element. Blocks enter a class list only when
//! they are freed, and never go back to the fallback allocator.
use vstd::prelude::*;
use vstd::arithmetic::power2::{pow2, lemma2_to64};
use crate::block::{AllocError, disjoint, lemma_mod_transitive};
use crate::free_list::{FreeListAllocator, adjusted_size};

verus! {

/// The number of size classes: 8, 16, 32, ..., 2048 bytes.
pub const NUM_CLASSES: usize = 9;

/// The block size of class `k`.
pub open spec fn class_size(k: int) -> int {
    pow2((k + 3) as nat) as int
}

/// Class `k` can serve `size` bytes at `align`.
pub open spec fn class_fits(k: int, size: int, align: int) -> bool {
    class_size(k) >= size && class_size(k) % align == 0
}

/// The first class from `k` on that can serve the request, or `NUM_CLASSES`.
pub open spec fn first_class_from(k: int, size: int, align: int) -> int
    decreases NUM_CLASSES - k,
{
    if k >= NUM_CLASSES {
        NUM_CLASSES as int
    } else if class_fits(k, size, align) {
        k
    } else {
        first_class_from(k + 1, size, align)
    }
}

/// The smallest class that can serve `size` bytes at `align`, or
/// `NUM_CLASSES` where none can.
pub open spec fn class_index(size: int, align: int) -> int {
    first_class_from(0, size, align)
}

/// What the fallback allocator is asked for on behalf of a request: one block
/// of its class, or the request itself where no class can take it.
pub open spec fn fallback_request(size: usize, align: usize) -> (usize, usize) {
    let k = class_index(size as int, align as int);
    if k < NUM_CLASSES {
        (class_size(k) as usize, class_size(k) as usize)
    } else {
        (size, align)
    }
}

pub proof fn lemma_class_sizes()
    ensures
        class_size(0) == 8,
        class_size(1) == 16,
        class_size(2) == 32,
        class_size(3) == 64,
        class_size(4) == 128,
        class_size(5) == 256,
        class_size(6) == 512,
        class_size(7) == 1024,
        class_size(8) == 2048,
{
    lemma2_to64();
}

/// The class found from `k` on is one that fits, and none before it from `k` on does.
pub proof fn lemma_first_class(k: int, size: int, align: int)
    requires
        0 <= k <= NUM_CLASSES,
    ensures
        k <= first_class_from(k, size, align) <= NUM_CLASSES,
        first_class_from(k, size, align) < NUM_CLASSES ==> class_fits(first_class_from(k, size, align), size, align),
        forall|j: int| k <= j < first_class_from(k, size, align) ==> !class_fits(j, size, align),
    decreases NUM_CLASSES - k,
{
    if k < NUM_CLASSES && !class_fits(k, size, align) {
        lemma_first_class(k + 1, size, align);
    }
}

/// The block size of class `k`.
pub fn class_block_size(k: usize) -> (r: usize)
    requires
        k < NUM_CLASSES,
    ensures
        r == class_size(k as int),
        8 <= r <= 2048,
{
    proof {
        lemma_class_sizes();
    }
    match k {
        0 => 8,
        1 => 16,
        2 => 32,
        3 => 64,
        4 => 128,
        5 => 256,
        6 => 512,
        7 => 1024,
        _ => 2048,
    }
}

/// The smallest class that can serve `size` bytes at `align`, or
/// `NUM_CLASSES` where none can.
pub fn class_for(size: usize, align: usize) -> (r: usize)
    requires
        align > 0,
    ensures
        r == class_index(size as int, align as int),
{
    let mut k: usize = 0;
    while k < NUM_CLASSES
        invariant
            k <= NUM_CLASSES,
            align > 0,
            first_class_from(k as int, size as int, align as int) == class_index(size as int, align as int),
        decreases NUM_CLASSES - k,
    {
        let c = class_block_size(k);
        if c >= size && c % align == 0 {
            return k;
        }
        k = k + 1;
    }
    NUM_CLASSES
}

/// A size-class allocator with a first-fit fallback.
pub struct SegregatedFreeListAllocator {
    lists: Vec<Vec<usize>>,
    fallback: FreeListAllocator,
    /// The live allocations: start address to the `(size, align)` they were made with.
    live: Ghost<Map<usize, (usize, usize)>>,
}

impl SegregatedFreeListAllocator {
    /// The free blocks of each class; each list's head is its last element.
    pub closed spec fn class_lists(&self) -> Seq<Seq<usize>> {
        self.lists@.map_values(|v: Vec<usize>| v@)
    }

    pub closed spec fn fallback(&self) -> FreeListAllocator {
        self.fallback
    }

    /// The allocations handed out and not yet returned, by start address.
    pub closed spec fn live(&self) -> Map<usize, (usize, usize)> {
        self.live@
    }

    pub open spec fn is_initialized(&self) -> bool {
        self.fallback().is_initialized()
    }

    pub open spec fn region_start(&self) -> int {
        self.fallback().region_start()
    }

    pub open spec fn region_end(&self) -> int {
        self.fallback().region_end()
    }

    /// Every class block and every live allocation is a distinct block that
    /// the fallback handed out: a class block is exactly one block of its
    /// class, a live allocation is what `fallback_request` asked for.
    pub closed spec fn wf(&self) -> bool {
        let lists = self.class_lists();
        let fb = self.fallback.live();
        &&& self.lists@.len() == NUM_CLASSES
        &&& self.fallback.wf()
        &&& forall|k: int, x: int|
            0 <= k < NUM_CLASSES && 0 <= x < lists[k].len() ==> {
                &&& fb.contains_key(#[trigger] lists[k][x])
                &&& fb[lists[k][x]] == (class_size(k) as usize, class_size(k) as usize)
                &&& !self.live@.contains_key(lists[k][x])
            }
        &&& forall|k: int, x: int, k2: int, x2: int|
            0 <= k < NUM_CLASSES && 0 <= x < lists[k].len() && 0 <= k2 < NUM_CLASSES && 0 <= x2
                < lists[k2].len() && (k != k2 || x != x2) ==> #[trigger] lists[k][x] != #[trigger] lists[k2][x2]
        &&& forall|a: usize|
            #[trigger] self.live@.contains_key(a) ==> {
                &&& self.live@[a].1 > 0
                &&& fb.contains_key(a)
                &&& fb[a] == fallback_request(self.live@[a].0, self.live@[a].1)
            }
    }

    /// What `allocate(size, align)` does, from `pre` to `post` with result `r`.
    pub open spec fn allocate_post(pre: Self, post: Self, size: usize, align: usize, r: Result<usize, AllocError>) -> bool {
        let k = class_index(size as int, align as int);
        &&& post.wf()
        &&& if k < NUM_CLASSES && pre.class_lists()[k].len() > 0 {
            &&& r == Ok::<usize, AllocError>(pre.class_lists()[k].last())
            &&& post.class_lists() == pre.class_lists().update(k, pre.class_lists()[k].drop_last())
            &&& post.fallback() == pre.fallback()
        } else {
            &&& FreeListAllocator::allocate_post(
                pre.fallback(),
                post.fallback(),
                fallback_request(size, align).0,
                fallback_request(size, align).1,
                r,
            )
            &&& post.class_lists() == pre.class_lists()
        }
        &&& match r {
            Ok(addr) => {
                &&& !pre.live().contains_key(addr)
                &&& post.live() == pre.live().insert(addr, (size, align))
                &&& addr % align == 0
                &&& pre.region_start() <= addr
                &&& addr + size <= pre.region_end()
            },
            Err(e) => e == AllocError::OutOfMemory && post.live() == pre.live(),
        }
    }

    /// What `deallocate(ptr, size, align)` does, from `pre` to `post`.
    pub open spec fn deallocate_post(pre: Self, post: Self, ptr: usize, size: usize, align: usize) -> bool {
        let k = class_index(size as int, align as int);
        &&& post.wf()
        &&& if k < NUM_CLASSES {
            &&& post.class_lists() == pre.class_lists().update(k, pre.class_lists()[k].push(ptr))
            &&& post.fallback() == pre.fallback()
        } else {
            &&& FreeListAllocator::deallocate_post(pre.fallback(), post.fallback(), ptr, size)
            &&& post.class_lists() == pre.class_lists()
        }
        &&& post.live() == pre.live().remove(ptr)
    }

    /// Serves a request from its class list's head when the list has a block,
    /// else from the fallback: one block of the class, or the request itself
    /// where no class can take it.
    pub fn allocate(&mut self, size: usize, align: usize) -> (r: Result<usize, AllocError>)
        requires
            old(self).wf(),
            align > 0,
        ensures
            Self::allocate_post(*old(self), *final(self), size, align, r),
    {
        let ghost pre = *self;
        let k = class_for(size, align);
        proof {
            lemma_first_class(0, size as int, align as int);
        }
        let (fallback_size, fallback_align) = if k < NUM_CLASSES {
            let c = class_block_size(k);
            match self.lists[k].pop() {
                Some(p) => {
                    self.live = Ghost(self.live@.insert(p, (size, align)));
                    proof {
                        assert forall|j: int| 0 <= j < NUM_CLASSES && j != k implies #[trigger] self.lists@[j]
                            == pre.lists@[j] by {}
                        self.lemma_pop_keeps_wf(pre, k as int, p, size, align);
                    }
                    return Ok(p);
                },
                None => {
                    proof {
                        assert(self.lists@[k as int]@ =~= pre.lists@[k as int]@);
                        assert(self.class_lists() =~= pre.class_lists());
                        assert(self.fallback == pre.fallback);
                    }
                },
            }
            (c, c)
        } else {
            proof {
                assert(self.class_lists() == pre.class_lists());
            }
            (size, align)
        };
        let r = self.fallback.allocate(fallback_size, fallback_align);
        if let Ok(p) = r {
            self.live = Ghost(self.live@.insert(p, (size, align)));
        }
        proof {
            self.lemma_fallback_allocation_keeps_wf(pre, size, align, r);
        }
        r
    }

    /// Takes back the block that `allocate(size, align)` gave at `ptr`: onto its
    /// class list's head, or to the fallback where no class could take it.
    pub fn deallocate(&mut self, ptr: usize, size: usize, align: usize)
        requires
            old(self).wf(),
            old(self).live().contains_key(ptr),
            old(self).live()[ptr] == (size, align),
        ensures
            Self::deallocate_post(*old(self), *final(self), ptr, size, align),
    {
        let ghost pre = *self;
        proof {
            assert(self.live@[ptr].1 > 0);
        }
        let k = class_for(size, align);
        if k < NUM_CLASSES {
            self.lists[k].push(ptr);
        } else {
            self.fallback.deallocate(ptr, size, align);
        }
        self.live = Ghost(self.live@.remove(ptr));
        proof {
            self.lemma_deallocation_keeps_wf(pre, ptr, size, align);
        }
    }

    /// An allocator that was never given a region has empty class lists and no
    /// live allocation.
    pub proof fn lemma_uninitialized_is_empty(h: Self)
        requires
            h.wf(),
            !h.is_initialized(),
        ensures
            forall|k: int| 0 <= k < NUM_CLASSES ==> (#[trigger] h.class_lists()[k]).len() == 0,
            h.class_lists().len() == NUM_CLASSES,
            h.live().is_empty(),
    {
        FreeListAllocator::lemma_uninitialized_is_empty(h.fallback);
        assert forall|k: int| 0 <= k < NUM_CLASSES implies (#[trigger] h.class_lists()[k]).len() == 0 by {
            if h.class_lists()[k].len() > 0 {
                assert(h.fallback.live().contains_key(h.class_lists()[k][0]));
            }
        }
        if !h.live@.is_empty() {
            let a = h.live@.dom().choose();
            assert(h.fallback.live().contains_key(a));
        }
    }

    /// A valid allocator has one list for each size class.
    pub proof fn lemma_class_count(h: Self)
        requires
            h.wf(),
        ensures
            h.class_lists().len() == NUM_CLASSES,
    {
    }

    /// Every live allocation lies inside the heap region and starts at a
    /// multiple of the alignment it was requested with.
    pub proof fn lemma_live_in_region(h: Self)
        requires
            h.wf(),
        ensures
            forall|a: usize| #[trigger] h.live().contains_key(a) ==> {
                &&& h.region_start() <= a
                &&& a + h.live()[a].0 <= h.region_end()
                &&& a % h.live()[a].1 == 0
            },
    {
        FreeListAllocator::lemma_live_in_region(h.fallback);
        lemma_class_sizes();
        assert forall|a: usize| #[trigger] h.live().contains_key(a) implies {
            &&& h.region_start() <= a
            &&& a + h.live()[a].0 <= h.region_end()
            &&& a % h.live()[a].1 == 0
        } by {
            let (size, align) = h.live@[a];
            let k = class_index(size as int, align as int);
            lemma_first_class(0, size as int, align as int);
            assert(h.fallback.live().contains_key(a));
            if k < NUM_CLASSES {
                lemma_mod_transitive(a as int, class_size(k), align as int);
            }
        }
    }

    /// No two live allocations share a byte.
    pub proof fn lemma_live_disjoint(h: Self)
        requires
            h.wf(),
        ensures
            forall|a: usize, b: usize|
                #[trigger] h.live().contains_key(a) && #[trigger] h.live().contains_key(b) && a != b
                    ==> disjoint(a as int, h.live()[a].0 as int, b as int, h.live()[b].0 as int),
    {
        FreeListAllocator::lemma_live_disjoint(h.fallback);
        lemma_class_sizes();
        assert forall|a: usize, b: usize|
            #[trigger] h.live().contains_key(a) && #[trigger] h.live().contains_key(b) && a != b
                implies disjoint(a as int, h.live()[a].0 as int, b as int, h.live()[b].0 as int) by {
            lemma_first_class(0, h.live@[a].0 as int, h.live@[a].1 as int);
            lemma_first_class(0, h.live@[b].0 as int, h.live@[b].1 as int);
            assert(h.fallback.live().contains_key(a));
            assert(h.fallback.live().contains_key(b));
        }
    }

    /// Freeing a block of a size class and asking again for the same size and
    /// alignment gives the same address back from the class list, and leaves
    /// the fallback allocator as it was.
    pub proof fn lemma_free_then_allocate_reuses(
        s0: Self,
        s1: Self,
        s2: Self,
        ptr: usize,
        size: usize,
        align: usize,
        r: Result<usize, AllocError>,
    )
        requires
            s0.wf(),
            s0.live().contains_key(ptr),
            s0.live()[ptr] == (size, align),
            class_index(size as int, align as int) < NUM_CLASSES,
            Self::deallocate_post(s0, s1, ptr, size, align),
            Self::allocate_post(s1, s2, size, align, r),
        ensures
            r == Ok::<usize, AllocError>(ptr),
            s2.fallback() == s0.fallback(),
            s2.class_lists() == s0.class_lists(),
            s2.live() == s0.live(),
    {
        let k = class_index(size as int, align as int);
        lemma_first_class(0, size as int, align as int);
        assert(s0.class_lists().len() == NUM_CLASSES);
        assert(s1.class_lists()[k] == s0.class_lists()[k].push(ptr));
        assert(s0.class_lists()[k].push(ptr).drop_last() =~= s0.class_lists()[k]);
        assert(s2.class_lists() =~= s0.class_lists());
        assert(s2.live() =~= s0.live());
    }

    /// A request for more bytes than the whole heap region holds fails with
    /// `OutOfMemory` and changes nothing.
    pub proof fn lemma_oversized_request_fails(
        pre: Self,
        post: Self,
        size: usize,
        align: usize,
        r: Result<usize, AllocError>,
    )
        requires
            pre.wf(),
            align > 0,
            size > pre.region_end() - pre.region_start(),
            Self::allocate_post(pre, post, size, align, r),
        ensures
            r == Err::<usize, AllocError>(AllocError::OutOfMemory),
            post.fallback() == pre.fallback(),
            post.class_lists() == pre.class_lists(),
            post.live() == pre.live(),
    {
        let k = class_index(size as int, align as int);
        lemma_first_class(0, size as int, align as int);
        lemma_class_sizes();
        if k < NUM_CLASSES && pre.class_lists()[k].len() > 0 {
            let last = pre.class_lists()[k].len() - 1;
            let p = pre.class_lists()[k][last];
            assert(pre.fallback.live().contains_key(p));
            FreeListAllocator::lemma_live_in_region(pre.fallback);
            assert(false);
        } else {
            FreeListAllocator::lemma_oversized_request_fails(
                pre.fallback,
                post.fallback,
                fallback_request(size, align).0,
                fallback_request(size, align).1,
                r,
            );
        }
    }

    proof fn lemma_pop_keeps_wf(&self, pre: Self, k: int, p: usize, size: usize, align: usize)
        requires
            pre.wf(),
            align > 0,
            k == class_index(size as int, align as int),
            0 <= k < NUM_CLASSES,
            class_fits(k, size as int, align as int),
            pre.lists@[k]@.len() > 0,
            p == pre.lists@[k]@.last(),
            self.lists@.len() == pre.lists@.len(),
            forall|j: int| 0 <= j < NUM_CLASSES && j != k ==> #[trigger] self.lists@[j] == pre.lists@[j],
            self.lists@[k]@ == pre.lists@[k]@.drop_last(),
            self.fallback == pre.fallback,
            self.live@ == pre.live@.insert(p, (size, align)),
        ensures
            Self::allocate_post(pre, *self, size, align, Ok::<usize, AllocError>(p)),
    {
        let lists = pre.class_lists();
        let post_lists = self.class_lists();
        let fb = pre.fallback.live();
        let last = lists[k].len() - 1;
        assert(lists[k][last] == p);
        assert(fb.contains_key(p) && fb[p] == (class_size(k) as usize, class_size(k) as usize));
        assert(post_lists =~= lists.update(k, lists[k].drop_last()));
        lemma_class_sizes();
        FreeListAllocator::lemma_live_in_region(pre.fallback);
        lemma_mod_transitive(p as int, class_size(k), align as int);
        assert forall|j: int, x: int| 0 <= j < NUM_CLASSES && 0 <= x < post_lists[j].len() implies
            #[trigger] post_lists[j][x] == lists[j][x] && (j != k || x < last) by {}
        assert forall|j: int, x: int|
            0 <= j < NUM_CLASSES && 0 <= x < post_lists[j].len() implies {
                &&& fb.contains_key(#[trigger] post_lists[j][x])
                &&& fb[post_lists[j][x]] == (class_size(j) as usize, class_size(j) as usize)
                &&& !self.live@.contains_key(post_lists[j][x])
            } by {
            assert(post_lists[j][x] == lists[j][x]);
            assert(lists[j][x] != lists[k][last]);
        }
        assert forall|j: int, x: int, j2: int, x2: int|
            0 <= j < NUM_CLASSES && 0 <= x < post_lists[j].len() && 0 <= j2 < NUM_CLASSES && 0 <= x2
                < post_lists[j2].len() && (j != j2 || x != x2) implies #[trigger] post_lists[j][x]
            != #[trigger] post_lists[j2][x2] by {
            assert(post_lists[j][x] == lists[j][x]);
            assert(post_lists[j2][x2] == lists[j2][x2]);
        }
        assert forall|a: usize| #[trigger] self.live@.contains_key(a) implies {
            &&& self.live@[a].1 > 0
            &&& fb.contains_key(a)
            &&& fb[a] == fallback_request(self.live@[a].0, self.live@[a].1)
        } by {
            if a != p {
                assert(pre.live@.contains_key(a));
            }
        }
        assert(self.wf());
    }

    proof fn lemma_fallback_allocation_keeps_wf(&self, pre: Self, size: usize, align: usize, r: Result<usize, AllocError>)
        requires
            pre.wf(),
            align > 0,
            !(class_index(size as int, align as int) < NUM_CLASSES
                && pre.class_lists()[class_index(size as int, align as int)].len() > 0),
            self.class_lists() == pre.class_lists(),
            self.lists@.len() == pre.lists@.len(),
            FreeListAllocator::allocate_post(
                pre.fallback,
                self.fallback,
                fallback_request(size, align).0,
                fallback_request(size, align).1,
                r,
            ),
            self.live@ == (match r {
                Ok(p) => pre.live@.insert(p, (size, align)),
                Err(_) => pre.live@,
            }),
        ensures
            Self::allocate_post(pre, *self, size, align, r),
    {
        let k = class_index(size as int, align as int);
        lemma_first_class(0, size as int, align as int);
        lemma_class_sizes();
        let lists = pre.class_lists();
        let fb = pre.fallback.live();
        let fb2 = self.fallback.live();
        if let Ok(p) = r {
            FreeListAllocator::lemma_live_in_region(self.fallback);
            assert(fb2.contains_key(p));
            if k < NUM_CLASSES {
                lemma_mod_transitive(p as int, class_size(k), align as int);
            }
            assert forall|j: int, x: int|
                0 <= j < NUM_CLASSES && 0 <= x < lists[j].len() implies {
                    &&& fb2.contains_key(#[trigger] lists[j][x])
                    &&& fb2[lists[j][x]] == (class_size(j) as usize, class_size(j) as usize)
                    &&& !self.live@.contains_key(lists[j][x])
                } by {
                assert(fb.contains_key(lists[j][x]));
            }
            assert forall|a: usize| #[trigger] self.live@.contains_key(a) implies {
                &&& self.live@[a].1 > 0
                &&& fb2.contains_key(a)
                &&& fb2[a] == fallback_request(self.live@[a].0, self.live@[a].1)
            } by {
                if a != p {
                    assert(pre.live@.contains_key(a));
                    assert(fb.contains_key(a));
                }
            }
            assert(self.wf());
        }
    }

    proof fn lemma_deallocation_keeps_wf(&self, pre: Self, ptr: usize, size: usize, align: usize)
        requires
            pre.wf(),
            pre.live@.contains_key(ptr),
            pre.live@[ptr] == (size, align),
            class_index(size as int, align as int) < NUM_CLASSES ==> {
                &&& self.lists@.len() == pre.lists@.len()
                &&& forall|j: int|
                    0 <= j < NUM_CLASSES && j != class_index(size as int, align as int) ==> #[trigger] self.lists@[j]
                        == pre.lists@[j]
                &&& self.lists@[class_index(size as int, align as int)]@
                    == pre.lists@[class_index(size as int, align as int)]@.push(ptr)
                &&& self.fallback == pre.fallback
            },
            class_index(size as int, align as int) >= NUM_CLASSES ==> {
                &&& self.lists@ == pre.lists@
                &&& FreeListAllocator::deallocate_post(pre.fallback, self.fallback, ptr, size)
            },
            self.live@ == pre.live@.remove(ptr),
        ensures
            Self::deallocate_post(pre, *self, ptr, size, align),
    {
        let k = class_index(size as int, align as int);
        lemma_first_class(0, size as int, align as int);
        let lists = pre.class_lists();
        let post_lists = self.class_lists();
        let fb = pre.fallback.live();
        let fb2 = self.fallback.live();
        assert(fb.contains_key(ptr));
        if k < NUM_CLASSES {
            assert(post_lists =~= lists.update(k, lists[k].push(ptr)));
            assert forall|j: int, x: int|
                0 <= j < NUM_CLASSES && 0 <= x < post_lists[j].len() implies #[trigger] post_lists[j][x] == (if j == k
                    && x == lists[k].len() {
                    ptr
                } else {
                    lists[j][x]
                }) by {}
            assert forall|j: int, x: int|
                0 <= j < NUM_CLASSES && 0 <= x < post_lists[j].len() implies {
                    &&& fb2.contains_key(#[trigger] post_lists[j][x])
                    &&& fb2[post_lists[j][x]] == (class_size(j) as usize, class_size(j) as usize)
                    &&& !self.live@.contains_key(post_lists[j][x])
                } by {
                if !(j == k && x == lists[k].len()) {
                    assert(post_lists[j][x] == lists[j][x]);
                }
            }
            assert forall|j: int, x: int, j2: int, x2: int|
                0 <= j < NUM_CLASSES && 0 <= x < post_lists[j].len() && 0 <= j2 < NUM_CLASSES && 0 <= x2
                    < post_lists[j2].len() && (j != j2 || x != x2) implies #[trigger] post_lists[j][x]
                != #[trigger] post_lists[j2][x2] by {
                if !(j == k && x == lists[k].len()) {
                    assert(post_lists[j][x] == lists[j][x]);
                }
                if !(j2 == k && x2 == lists[k].len()) {
                    assert(post_lists[j2][x2] == lists[j2][x2]);
                }
            }
            assert forall|a: usize| #[trigger] self.live@.contains_key(a) implies {
                &&& self.live@[a].1 > 0
                &&& fb2.contains_key(a)
                &&& fb2[a] == fallback_request(self.live@[a].0, self.live@[a].1)
            } by {
                assert(pre.live@.contains_key(a));
            }
            assert(self.wf());
        } else {
            assert(post_lists == lists);
            assert forall|j: int, x: int|
                0 <= j < NUM_CLASSES && 0 <= x < lists[j].len() implies {
                    &&& fb2.contains_key(#[trigger] lists[j][x])
                    &&& fb2[lists[j][x]] == (class_size(j) as usize, class_size(j) as usize)
                    &&& !self.live@.contains_key(lists[j][x])
                } by {
                assert(fb.contains_key(lists[j][x]));
            }
            assert forall|a: usize| #[trigger] self.live@.contains_key(a) implies {
                &&& self.live@[a].1 > 0
                &&& fb2.contains_key(a)
                &&& fb2[a] == fallback_request(self.live@[a].0, self.live@[a].1)
            } by {
                assert(pre.live@.contains_key(a));
            }
            assert(self.wf());
        }
    }

    /// An allocator with no region and empty class lists.
    pub fn new() -> (r: Self)
        ensures
            r.wf(),
            !r.is_initialized(),
            r.class_lists() == Seq::new(NUM_CLASSES as nat, |k: int| Seq::<usize>::empty()),
            r.live().is_empty(),
            r.fallback().free_blocks().len() == 0,
            r.fallback().live().is_empty(),
    {
        let mut lists: Vec<Vec<usize>> = Vec::new();
        let mut k: usize = 0;
        while k < NUM_CLASSES
            invariant
                k <= NUM_CLASSES,
                lists@.len() == k,
                forall|j: int| 0 <= j < k ==> (#[trigger] lists@[j])@.len() == 0,
            decreases NUM_CLASSES - k,
        {
            lists.push(Vec::new());
            k = k + 1;
        }
        let r = SegregatedFreeListAllocator {
            lists,
            fallback: FreeListAllocator::new(),
            live: Ghost(Map::empty()),
        };
        proof {
            assert forall|k: int| 0 <= k < NUM_CLASSES implies #[trigger] r.class_lists()[k] == Seq::<usize>::empty() by {
                assert(r.lists@[k]@ =~= Seq::<usize>::empty());
            }
            assert(r.class_lists() =~= Seq::new(NUM_CLASSES as nat, |k: int| Seq::<usize>::empty()));
        }
        r
    }

    /// Gives the fallback allocator the region `[heap_start, heap_start + heap_size)`.
    pub fn init(&mut self, heap_start: usize, heap_size: usize)
        requires
            old(self).wf(),
            !old(self).is_initialized(),
            heap_start + heap_size <= usize::MAX,
        ensures
            final(self).wf(),
            final(self).is_initialized(),
            FreeListAllocator::init_post(final(self).fallback(), heap_start, heap_size),
            final(self).class_lists() == old(self).class_lists(),
            final(self).live() == old(self).live(),
    {
        let ghost pre = *self;
        proof {
            FreeListAllocator::lemma_uninitialized_is_empty(self.fallback);
        }
        self.fallback.init(heap_start, heap_size);
        proof {
            assert forall|k: int| 0 <= k < NUM_CLASSES implies (#[trigger] pre.class_lists()[k]).len() == 0 by {
                if pre.class_lists()[k].len() > 0 {
                    assert(pre.fallback.live().contains_key(pre.class_lists()[k][0]));
                }
            }
            assert forall|a: usize| #[trigger] self.live@.contains_key(a) implies false by {
                assert(pre.fallback.live().contains_key(a));
            }
            assert(self.class_lists() =~= pre.class_lists());
        }
    }
}

} // verus!
