//! Byte ranges, alignment arithmetic and the error type shared by the allocators.
use vstd::prelude::*;
use vstd::arithmetic::div_mod::{lemma_fundamental_div_mod, lemma_mod_multiples_basic};

verus! {

/// Why an allocation request was turned down.
#[derive(Debug, Clone, Copy, PartialEq, Eq, Structural)]
pub enum AllocError {
    /// No free block, size class or fallback split can hold the request.
    OutOfMemory,
    /// The heap has not been given its region yet.
    Uninitialized,
}

/// A contiguous byte range `[start, start + size)`.
#[derive(Debug, Clone, Copy, PartialEq, Eq, Structural)]
pub struct Block {
    pub start: usize,
    pub size: usize,
}

impl Block {
    pub open spec fn end(self) -> int {
        self.start + self.size
    }
}

/// The lowest multiple of `align` that is at least `addr`.
pub open spec fn align_up(addr: int, align: int) -> int
    recommends
        align > 0,
{
    if addr % align == 0 {
        addr
    } else {
        addr - addr % align + align
    }
}

/// The ranges `[s1, s1 + n1)` and `[s2, s2 + n2)` share no byte.
pub open spec fn disjoint(s1: int, n1: int, s2: int, n2: int) -> bool {
    s1 + n1 <= s2 || s2 + n2 <= s1
}

/// `[s1, s1 + n1)` lies inside `[s2, s2 + n2)`.
pub open spec fn within(s1: int, n1: int, s2: int, n2: int) -> bool {
    s2 <= s1 && s1 + n1 <= s2 + n2
}

pub proof fn lemma_align_up(addr: int, align: int)
    requires
        addr >= 0,
        align > 0,
    ensures
        addr <= align_up(addr, align) < addr + align,
        align_up(addr, align) % align == 0,
{
    lemma_fundamental_div_mod(addr, align);
    if addr % align != 0 {
        let q = addr / align;
        assert(align_up(addr, align) == (q + 1) * align) by (nonlinear_arith)
            requires
                addr == align * q + addr % align,
                align_up(addr, align) == addr - addr % align + align,
        ;
        lemma_mod_multiples_basic(q + 1, align);
    }
}

/// A multiple of `m` is a multiple of every divisor of `m`.
pub proof fn lemma_mod_transitive(a: int, m: int, d: int)
    requires
        a >= 0,
        m > 0,
        d > 0,
        a % m == 0,
        m % d == 0,
    ensures
        a % d == 0,
{
    lemma_fundamental_div_mod(a, m);
    lemma_fundamental_div_mod(m, d);
    let k = (a / m) * (m / d);
    assert(a == k * d) by (nonlinear_arith)
        requires
            a == m * (a / m),
            m == d * (m / d),
            k == (a / m) * (m / d),
    ;
    lemma_mod_multiples_basic(k, d);
}

/// The lowest multiple of `align` at or above `addr`, or `None` where it
/// exceeds the address space.
pub fn checked_align_up(addr: usize, align: usize) -> (r: Option<usize>)
    requires
        align > 0,
    ensures
        match r {
            Some(a) => a == align_up(addr as int, align as int),
            None => align_up(addr as int, align as int) > usize::MAX,
        },
{
    let rem = addr % align;
    if rem == 0 {
        Some(addr)
    } else {
        addr.checked_add(align - rem)
    }
}

} // verus!
