//! Bump allocator: serves memory by advancing a cursor through the heap
//! region and reclaims the whole region once every allocation was freed.

use vstd::prelude::*;

use vstd::arithmetic::div_mod::{lemma_fundamental_div_mod, lemma_mod_multiples_basic};

use crate::allocator::{
    align_up, align_up_spec, byte_range, lemma_align_up, lemma_chain_disjoint, opt_int,
    ranges_disjoint, valid_align,
};

verus! {

/// The abstract state of a bump allocator.
pub struct BumpView {
    pub heap_start: int,
    pub heap_end: int,
    pub next: int,
    pub outstanding: int,
}

impl BumpView {
    /// The cursor lies in the heap region, and it stands at the start of the
    /// region whenever no allocation is outstanding.
    pub open spec fn wf(self) -> bool {
        &&& 0 <= self.heap_start <= self.next <= self.heap_end <= usize::MAX
        &&& 0 <= self.outstanding <= usize::MAX
        &&& self.outstanding == 0 ==> self.next == self.heap_start
    }

    /// The addresses that a later allocation may still hand out.
    pub open spec fn available(self) -> Set<int> {
        byte_range(self.next, self.heap_end - self.next)
    }

    /// Where an allocation of `size` bytes aligned to `align` would start.
    pub open spec fn alloc_start(self, align: int) -> int {
        align_up_spec(self.next, align)
    }

    /// An allocation succeeds when the aligned range fits below the heap end
    /// and the count of outstanding allocations can still grow.
    pub open spec fn alloc_fits(self, size: int, align: int) -> bool {
        &&& self.alloc_start(align) + size <= self.heap_end
        &&& self.outstanding < usize::MAX
    }

    /// The state and result of an allocation.
    pub open spec fn alloc_spec(self, size: int, align: int) -> (BumpView, Option<int>) {
        if self.alloc_fits(size, align) {
            (
                BumpView {
                    next: self.alloc_start(align) + size,
                    outstanding: self.outstanding + 1,
                    ..self
                },
                Some(self.alloc_start(align)),
            )
        } else {
            (self, None)
        }
    }

    /// The state after a deallocation.
    pub open spec fn dealloc_spec(self) -> BumpView {
        let count = if self.outstanding > 0 {
            self.outstanding - 1
        } else {
            0
        };
        BumpView {
            outstanding: count,
            next: if count == 0 {
                self.heap_start
            } else {
                self.next
            },
            ..self
        }
    }

    /// The state after `n` allocations of `size` bytes aligned to `align`.
    pub open spec fn alloc_n(self, n: nat, size: int, align: int) -> BumpView
        decreases n,
    {
        if n == 0 {
            self
        } else {
            self.alloc_n((n - 1) as nat, size, align).alloc_spec(size, align).0
        }
    }

    /// The state after `n` deallocations.
    pub open spec fn dealloc_n(self, n: nat) -> BumpView
        decreases n,
    {
        if n == 0 {
            self
        } else {
            self.dealloc_n((n - 1) as nat).dealloc_spec()
        }
    }
}

/// Hands out memory by advancing a cursor through one heap region; frees only
/// in aggregate, once no allocation is outstanding.
pub struct BumpAllocator {
    heap_start: usize,
    heap_end: usize,
    next: usize,
    allocator_counter: usize,
}

impl View for BumpAllocator {
    type V = BumpView;

    closed spec fn view(&self) -> BumpView {
        BumpView {
            heap_start: self.heap_start as int,
            heap_end: self.heap_end as int,
            next: self.next as int,
            outstanding: self.allocator_counter as int,
        }
    }
}

impl BumpAllocator {
    /// Creates a bump allocator over the empty region at address zero.
    pub fn new() -> (r: Self)
        ensures
            r@.wf(),
            r@ == (BumpView { heap_start: 0, heap_end: 0, next: 0, outstanding: 0 }),
    {
        BumpAllocator { heap_start: 0, heap_end: 0, next: 0, allocator_counter: 0 }
    }

    /// Sets the heap region to `[heap_start, heap_start + heap_size)`, the end
    /// saturating at the top of the address space, with the cursor at its
    /// start and no allocation outstanding. Meant to be called once, before
    /// the first allocation.
    pub fn init(&mut self, heap_start: usize, heap_size: usize)
        ensures
            final(self)@.wf(),
            final(self)@.heap_start == heap_start,
            final(self)@.heap_end == if heap_start + heap_size > usize::MAX {
                usize::MAX as int
            } else {
                heap_start + heap_size
            },
            final(self)@.next == heap_start,
            final(self)@.outstanding == 0,
    {
        self.heap_start = heap_start;
        self.heap_end = heap_start.saturating_add(heap_size);
        self.next = heap_start;
        self.allocator_counter = 0;
    }

    /// Allocates `size` bytes aligned to `align` at the cursor rounded up to
    /// `align`. Fails with `None`, leaving the state unchanged, when the range
    /// would pass the heap end or the address space.
    pub fn allocate(&mut self, size: usize, align: usize) -> (r: Option<usize>)
        requires
            old(self)@.wf(),
            valid_align(align),
        ensures
            final(self)@.wf(),
            (final(self)@, opt_int(r)) == old(self)@.alloc_spec(
                size as int,
                align as int,
            ),
            r matches Some(p) ==> p as int % align as int == 0,
    {
        proof {
            vstd::arithmetic::power2::lemma_pow2_pos(0);
            reveal(vstd::arithmetic::power2::is_pow2);
            lemma_align_up(self.next as int, align as int);
        }
        let alloc_start = match align_up(self.next, align) {
            Some(a) => a,
            None => return None,
        };
        let alloc_end = match alloc_start.checked_add(size) {
            Some(e) => e,
            None => return None,
        };
        if alloc_end > self.heap_end || self.allocator_counter == usize::MAX {
            return None;
        }
        self.next = alloc_end;
        self.allocator_counter = self.allocator_counter + 1;
        Some(alloc_start)
    }

    /// Counts one allocation as freed; once none is outstanding the whole
    /// region is available again. The address and layout are not used.
    pub fn deallocate(&mut self, _addr: usize, _size: usize, _align: usize)
        requires
            old(self)@.wf(),
        ensures
            final(self)@.wf(),
            final(self)@ == old(self)@.dealloc_spec(),
    {
        if self.allocator_counter > 0 {
            self.allocator_counter = self.allocator_counter - 1;
        }
        if self.allocator_counter == 0 {
            self.next = self.heap_start;
        }
    }
}

/// An allocation takes its range from the available addresses and leaves
/// available only what lies above that range.
pub proof fn lemma_bump_alloc_takes_range(v: BumpView, size: int, align: int)
    requires
        align > 0,
        size >= 0,
        v.alloc_spec(size, align).1 is Some,
    ensures
        ({
            let (w, r) = v.alloc_spec(size, align);
            &&& byte_range(r->0, size).subset_of(v.available())
            &&& w.available().subset_of(v.available())
            &&& w.available().disjoint(byte_range(r->0, size))
        }),
{
    lemma_align_up(v.next, align);
}

/// Successful bump allocations with no deallocation between them return
/// pairwise disjoint address ranges.
pub proof fn lemma_bump_allocations_disjoint(
    states: Seq<BumpView>,
    sizes: Seq<int>,
    aligns: Seq<int>,
    addrs: Seq<int>,
)
    requires
        states.len() == addrs.len() + 1,
        sizes.len() == addrs.len(),
        aligns.len() == addrs.len(),
        forall|k: int|
            0 <= k < addrs.len() ==> aligns[k] > 0 && sizes[k] >= 0 && #[trigger] states[k].alloc_spec(
                sizes[k],
                aligns[k],
            ) == (states[k + 1], Some(addrs[k])),
    ensures
        forall|j: int, k: int|
            0 <= j < k < addrs.len() ==> ranges_disjoint(addrs[j], sizes[j], addrs[k], sizes[k]),
{
    let available = states.map_values(|v: BumpView| v.available());
    let ranges = Seq::new(addrs.len(), |k: int| byte_range(addrs[k], sizes[k]));
    assert forall|k: int| 0 <= k < ranges.len() implies {
        &&& #[trigger] ranges[k].subset_of(available[k])
        &&& available[k + 1].subset_of(available[k])
        &&& available[k + 1].disjoint(ranges[k])
    } by {
        assert(states[k].alloc_spec(sizes[k], aligns[k]) == (states[k + 1], Some(addrs[k])));
        lemma_bump_alloc_takes_range(states[k], sizes[k], aligns[k]);
    }
    lemma_chain_disjoint(available, ranges);
    assert forall|j: int, k: int| 0 <= j < k < addrs.len() implies ranges_disjoint(
        addrs[j],
        sizes[j],
        addrs[k],
        sizes[k],
    ) by {
        assert(ranges[j].disjoint(ranges[k]));
    }
}

proof fn lemma_bump_alloc_n(v: BumpView, j: nat, size: int, align: int)
    requires
        v.wf(),
        v.outstanding == 0,
        align > 0,
        size > 0,
        v.heap_start % align == 0,
        size % align == 0,
        j * size <= v.heap_end - v.heap_start,
        j < usize::MAX,
    ensures
        v.alloc_n(j, size, align) == (BumpView {
            next: v.heap_start + j * size,
            outstanding: j as int,
            ..v
        }),
    decreases j,
{
    if j > 0 {
        let i = (j - 1) as nat;
        assert(i * size <= j * size) by (nonlinear_arith)
            requires
                i < j,
                size > 0,
        ;
        assert(i * size + size == j * size) by (nonlinear_arith)
            requires
                i + 1 == j,
        ;
        lemma_bump_alloc_n(v, i, size, align);
        lemma_aligned_step(v.heap_start, i, size, align);
        let u = v.alloc_n(i, size, align);
        assert(u.alloc_fits(size, align));
        assert(v.alloc_n(j, size, align) == u.alloc_spec(size, align).0);
        assert(u.alloc_start(align) == v.heap_start + i * size);
        assert(u.alloc_spec(size, align).0.next == v.heap_start + j * size);
        assert(u.alloc_spec(size, align).0.outstanding == j);
    } else {
        assert(j * size == 0) by (nonlinear_arith)
            requires
                j == 0,
        ;
    }
}

proof fn lemma_aligned_step(start: int, i: nat, size: int, align: int)
    requires
        align > 0,
        start % align == 0,
        size % align == 0,
    ensures
        align_up_spec(start + i * size, align) == start + i * size,
{
    lemma_fundamental_div_mod(start, align);
    lemma_fundamental_div_mod(size, align);
    let q = start / align + i * (size / align);
    assert(start + i * size == q * align) by (nonlinear_arith)
        requires
            start == align * (start / align),
            size == align * (size / align),
            q == start / align + i * (size / align),
    ;
    lemma_mod_multiples_basic(q, align);
}

proof fn lemma_bump_dealloc_n(v: BumpView, n: nat)
    requires
        v.wf(),
        n <= v.outstanding,
    ensures
        v.dealloc_n(n).outstanding == v.outstanding - n,
        v.dealloc_n(n).heap_start == v.heap_start,
        v.dealloc_n(n).heap_end == v.heap_end,
        v.dealloc_n(n).outstanding == 0 ==> v.dealloc_n(n).next == v.heap_start,
    decreases n,
{
    if n > 0 {
        lemma_bump_dealloc_n(v, (n - 1) as nat);
    }
}

/// On a fresh region with room for exactly `k` allocations of `size` bytes
/// (the start and the size being multiples of `align`), `k` allocations
/// succeed one after the other, the next one fails, and after `k`
/// deallocations an allocation succeeds again at the start of the region
/// (when `k` is not zero: an empty run frees nothing).
pub proof fn lemma_bump_reclaim(v: BumpView, k: nat, size: int, align: int)
    requires
        v.wf(),
        v.outstanding == 0,
        align > 0,
        size > 0,
        v.heap_start % align == 0,
        size % align == 0,
        k * size <= v.heap_end - v.heap_start < (k + 1) * size,
        k < usize::MAX,
    ensures
        forall|j: nat|
            j < k ==> (#[trigger] v.alloc_n(j, size, align)).alloc_spec(size, align).1 == Some(
                v.heap_start + j * size,
            ),
        v.alloc_n(k, size, align).alloc_spec(size, align).1 is None,
        k > 0 ==> v.alloc_n(k, size, align).dealloc_n(k).alloc_spec(size, align).1 == Some(
            v.heap_start,
        ),
{
    assert forall|j: nat| j < k implies (#[trigger] v.alloc_n(j, size, align)).alloc_spec(
        size,
        align,
    ).1 == Some(v.heap_start + j * size) by {
        assert(j * size + size <= k * size) by (nonlinear_arith)
            requires
                j < k,
                size > 0,
        ;
        lemma_bump_alloc_n(v, j, size, align);
        lemma_aligned_step(v.heap_start, j, size, align);
    }
    lemma_bump_alloc_n(v, k, size, align);
    lemma_aligned_step(v.heap_start, k, size, align);
    assert(k * size + size == (k + 1) * size) by (nonlinear_arith);
    let w = v.alloc_n(k, size, align);
    lemma_bump_dealloc_n(w, k);
    lemma_aligned_step(v.heap_start, 0, size, align);
    if k > 0 {
        assert(size <= k * size) by (nonlinear_arith)
            requires
                k > 0,
                size > 0,
        ;
    }
}

} // verus!
