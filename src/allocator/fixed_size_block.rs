//! Fixed-size-block allocator: small requests are served from per-class
//! stacks of freed blocks, everything else and every fresh block comes from a
//! first-fit fallback heap.

use core::mem::MaybeUninit;
use linked_list_allocator::Heap;
use vstd::arithmetic::power2::is_pow2;
use vstd::layout::{size_of, valid_layout};
use vstd::prelude::*;

use crate::allocator::fallback::{
    first_fit_no_wrap, first_fit_post, heap_allocate_first_fit, heap_free, heap_from_slice,
};
use crate::allocator::{
    HEAP_SIZE, align_up_spec, byte_range, lemma_align_up, lemma_chain_disjoint, lemma_mod_transitive, lemma_pow2_divides, ranges_disjoint,
};

verus! {

/// The number of size classes.
pub const BLOCK_SIZE_COUNT: usize = 9;

/// The block size of each class, ascending; each size is also the alignment of
/// the blocks of its class.
pub open spec fn block_sizes() -> Seq<int> {
    seq![8, 16, 32, 64, 128, 256, 512, 1024, 2048]
}

/// The first class, from `i` on, whose blocks hold `required` bytes.
pub open spec fn first_class_from(i: int, required: int) -> Option<int>
    decreases BLOCK_SIZE_COUNT - i,
{
    if i < 0 || i >= BLOCK_SIZE_COUNT {
        None
    } else if block_sizes()[i] >= required {
        Some(i)
    } else {
        first_class_from(i + 1, required)
    }
}

/// The class of a request: the smallest class whose block size is at least
/// both the size and the alignment, if any.
pub open spec fn class_index(size: int, align: int) -> Option<int> {
    first_class_from(0, if size >= align { size } else { align })
}

/// `r` is the class of a request of `size` bytes aligned to `align`.
pub open spec fn list_index_post(size: usize, align: usize, r: Option<usize>) -> bool {
    &&& r matches Some(i) ==> i < BLOCK_SIZE_COUNT && class_index(size as int, align as int) == Some(
        i as int,
    )
    &&& r is None ==> class_index(size as int, align as int) is None
}

/// Two lookups of the class of one request give the same answer.
pub proof fn lemma_list_index_repeatable(
    size: usize,
    align: usize,
    r1: Option<usize>,
    r2: Option<usize>,
)
    requires
        list_index_post(size, align, r1),
        list_index_post(size, align, r2),
    ensures
        r1 == r2,
{
}

/// Each block size is a power of two.
pub proof fn lemma_block_sizes_pow2()
    ensures
        forall|i: int| 0 <= i < BLOCK_SIZE_COUNT ==> is_pow2(#[trigger] block_sizes()[i]),
{
    reveal_with_fuel(is_pow2, 12);
    assert(is_pow2(8));
    assert(is_pow2(16));
    assert(is_pow2(32));
    assert(is_pow2(64));
    assert(is_pow2(128));
    assert(is_pow2(256));
    assert(is_pow2(512));
    assert(is_pow2(1024));
    assert(is_pow2(2048));
}

proof fn lemma_first_class_from(i: int, required: int)
    requires
        0 <= i <= BLOCK_SIZE_COUNT,
    ensures
        match first_class_from(i, required) {
            Some(c) => i <= c < BLOCK_SIZE_COUNT && block_sizes()[c] >= required && forall|j: int|
                i <= j < c ==> #[trigger] block_sizes()[j] < required,
            None => forall|j: int| i <= j < BLOCK_SIZE_COUNT ==> #[trigger] block_sizes()[j] < required,
        },
    decreases BLOCK_SIZE_COUNT - i,
{
    if i < BLOCK_SIZE_COUNT {
        lemma_first_class_from(i + 1, required);
    }
}

/// The class of a request is the smallest class whose block size is at least
/// the size and the alignment; there is none exactly when that maximum
/// exceeds the largest block size. A block of the class, placed at a multiple
/// of its size, meets the requested alignment.
pub proof fn lemma_class_index(size: int, align: int)
    requires
        is_pow2(align),
    ensures
        match class_index(size, align) {
            Some(c) => {
                &&& 0 <= c < BLOCK_SIZE_COUNT
                &&& block_sizes()[c] >= size
                &&& block_sizes()[c] >= align
                &&& block_sizes()[c] % align == 0
                &&& forall|j: int|
                    0 <= j < c ==> #[trigger] block_sizes()[j] < size || block_sizes()[j] < align
            },
            None => size > 2048 || align > 2048,
        },
        size <= 2048 && align <= 2048 ==> class_index(size, align) is Some,
{
    let required = if size >= align { size } else { align };
    lemma_first_class_from(0, required);
    lemma_block_sizes_pow2();
    if let Some(c) = class_index(size, align) {
        lemma_pow2_divides(align, block_sizes()[c]);
    } else {
        assert(block_sizes()[8] < required);
    }
    if size <= 2048 && align <= 2048 {
        assert(block_sizes()[8] >= required);
    }
}

/// The block size of class `index`.
pub fn block_size(index: usize) -> (r: usize)
    requires
        index < BLOCK_SIZE_COUNT,
    ensures
        r == block_sizes()[index as int],
{
    match index {
        0 => 8,
        1 => 16,
        2 => 32,
        3 => 64,
        4 => 128,
        5 => 256,
        6 => 512,
        7 => 1024,
        _ => 2048,
    }
}

/// Whether `(i, k)` names a block of the free lists.
pub open spec fn valid_slot(lists: Seq<Seq<usize>>, i: int, k: int) -> bool {
    0 <= i < lists.len() && 0 <= k < lists[i].len()
}

/// The addresses of the `k`-th free block of class `i`.
pub open spec fn block_of(lists: Seq<Seq<usize>>, i: int, k: int) -> Set<int> {
    byte_range(lists[i][k] as int, block_sizes()[i])
}

/// The abstract state of a fixed-size-block allocator: for each class the
/// stack of its free blocks (the last one is popped first), the fallback
/// heap, and the heap region `[heap_start, heap_end)` it was given.
pub struct FixedSizeBlockView {
    pub lists: Seq<Seq<usize>>,
    pub fallback: Heap,
    pub heap_start: int,
    pub heap_end: int,
}

impl FixedSizeBlockView {
    /// One stack per class; each free block is aligned to its class size and
    /// fits in the address space; free blocks are pairwise disjoint and
    /// disjoint from the fallback heap's holes, which lie in the heap region.
    pub open spec fn wf(self) -> bool {
        &&& self.lists.len() == BLOCK_SIZE_COUNT
        &&& 0 <= self.heap_start <= self.heap_end <= usize::MAX
        &&& heap_free(self.fallback).subset_of(
            byte_range(self.heap_start, self.heap_end - self.heap_start),
        )
        &&& forall|i: int, k: int|
            valid_slot(self.lists, i, k) ==> {
                &&& #[trigger] self.lists[i][k] as int % block_sizes()[i] == 0
                &&& self.lists[i][k] + block_sizes()[i] <= usize::MAX + 1
            }
        &&& forall|i: int, k: int, j: int, l: int|
            valid_slot(self.lists, i, k) && valid_slot(self.lists, j, l) && (i != j || k != l)
                ==> #[trigger] block_of(self.lists, i, k).disjoint(
                #[trigger] block_of(self.lists, j, l),
            )
        &&& forall|i: int, k: int|
            valid_slot(self.lists, i, k) ==> #[trigger] block_of(self.lists, i, k).disjoint(
                heap_free(self.fallback),
            )
    }

    /// The addresses held by the free lists.
    pub open spec fn listed(self) -> Set<int> {
        Set::new(
            |a: int|
                exists|i: int, k: int|
                    valid_slot(self.lists, i, k) && #[trigger] block_of(self.lists, i, k).contains(
                        a,
                    ),
        )
    }

    /// The addresses that a later allocation may still hand out.
    pub open spec fn available(self) -> Set<int> {
        self.listed().union(heap_free(self.fallback))
    }

    /// Whether a request of `size` bytes aligned to `align` may go to the
    /// fallback heap: its address arithmetic on the heap region stays clear
    /// of the top of the address space.
    pub open spec fn fallback_fits(self, size: int, align: int) -> bool {
        self.heap_end + 256 + align + size <= usize::MAX
    }

    /// What a request of `size` bytes aligned to `align` to the fallback heap
    /// does: the free lists and the region stay; the heap allocates first-fit
    /// when the request fits, and otherwise the request fails unchanged.
    pub open spec fn fallback_step(
        self,
        size: int,
        align: int,
        post: FixedSizeBlockView,
        r: Option<usize>,
    ) -> bool {
        &&& post.lists == self.lists
        &&& post.heap_start == self.heap_start
        &&& post.heap_end == self.heap_end
        &&& if self.fallback_fits(size, align) {
            first_fit_post(self.fallback, size, align, post.fallback, r)
        } else {
            r is None && post.fallback == self.fallback
        }
    }

    /// What an allocation of `size` bytes aligned to `align` does: a request
    /// with a class pops the top of that class's stack, or when the stack is
    /// empty takes a fresh block of the class's size and alignment from the
    /// fallback heap; a request without a class goes to the fallback heap as
    /// it is.
    pub open spec fn allocate_spec(
        self,
        size: int,
        align: int,
        post: FixedSizeBlockView,
        r: Option<usize>,
    ) -> bool {
        match class_index(size, align) {
            Some(c) => if self.lists[c].len() > 0 {
                &&& r == Some(self.lists[c].last())
                &&& post == FixedSizeBlockView {
                    lists: self.lists.update(c, self.lists[c].drop_last()),
                    ..self
                }
            } else {
                self.fallback_step(block_sizes()[c], block_sizes()[c], post, r)
            },
            None => self.fallback_step(size, align, post, r),
        }
    }

    /// What a deallocation does: a block with a class is pushed onto its
    /// class's stack; any other block is left to the caller, who hands it
    /// back to the fallback heap.
    pub open spec fn deallocate_spec(
        self,
        addr: usize,
        size: int,
        align: int,
        post: FixedSizeBlockView,
        kept: bool,
    ) -> bool {
        match class_index(size, align) {
            Some(c) => {
                &&& kept
                &&& post == FixedSizeBlockView {
                    lists: self.lists.update(c, self.lists[c].push(addr)),
                    ..self
                }
            },
            None => !kept && post == self,
        }
    }

    /// A block of class `c` at `addr` can be handed back: it is aligned to the
    /// class size, fits in the address space, and none of it is available.
    pub open spec fn can_take_back(self, addr: usize, c: int) -> bool {
        &&& addr as int % block_sizes()[c] == 0
        &&& addr + block_sizes()[c] <= usize::MAX + 1
        &&& byte_range(addr as int, block_sizes()[c]).disjoint(self.available())
    }
}

/// Each class's block size and alignment form a valid layout.
proof fn lemma_block_layouts_valid()
    ensures
        forall|i: int|
            0 <= i < BLOCK_SIZE_COUNT ==> valid_layout(
                #[trigger] block_sizes()[i] as usize,
                block_sizes()[i] as usize,
            ),
{
    lemma_block_sizes_pow2();
    assert forall|i: int| 0 <= i < BLOCK_SIZE_COUNT implies valid_layout(
        #[trigger] block_sizes()[i] as usize,
        block_sizes()[i] as usize,
    ) by {
        assert(is_pow2(block_sizes()[i]));
        assert(isize::MAX as int % 2048 == 2047);
        assert(isize::MAX as int % block_sizes()[i] < block_sizes()[i]);
    }
}

/// An allocation keeps the state well formed and returns an address aligned
/// as requested; the returned range was available and no longer is, and a
/// failed allocation leaves the available addresses as they were.
pub proof fn lemma_allocate(
    v: FixedSizeBlockView,
    size: int,
    align: int,
    w: FixedSizeBlockView,
    r: Option<usize>,
)
    requires
        v.wf(),
        size >= 0,
        is_pow2(align),
        v.allocate_spec(size, align, w, r),
    ensures
        w.wf(),
        r matches Some(p) ==> {
            &&& p as int % align == 0
            &&& byte_range(p as int, size).subset_of(v.available())
            &&& w.available().subset_of(v.available())
            &&& w.available().disjoint(byte_range(p as int, size))
        },
        r is None ==> w.available() == v.available(),
{
    reveal(is_pow2);
    lemma_class_index(size, align);
    match class_index(size, align) {
        Some(c) => {
            let n = block_sizes()[c];
            if v.lists[c].len() > 0 {
                lemma_pop(v, c);
            } else {
                lemma_fallback_take(v, w, n, n, r);
            }
            if let Some(p) = r {
                lemma_mod_transitive(p as int, align, n);
                assert(byte_range(p as int, size).subset_of(byte_range(p as int, n)));
            }
        },
        None => {
            lemma_fallback_take(v, w, size, align, r);
        },
    }
}

/// Step `k` of a run of allocations: a valid layout, and a successful
/// allocation from `states[k]` to `states[k + 1]`.
pub open spec fn allocation_step(
    states: Seq<FixedSizeBlockView>,
    sizes: Seq<usize>,
    aligns: Seq<usize>,
    addrs: Seq<usize>,
    k: int,
) -> bool {
    &&& valid_layout(sizes[k], aligns[k])
    &&& states[k].allocate_spec(sizes[k] as int, aligns[k] as int, states[k + 1], Some(addrs[k]))
}

/// Successful allocations with no deallocation between them return pairwise
/// disjoint address ranges.
pub proof fn lemma_allocations_disjoint(
    states: Seq<FixedSizeBlockView>,
    sizes: Seq<usize>,
    aligns: Seq<usize>,
    addrs: Seq<usize>,
)
    requires
        states.len() == addrs.len() + 1,
        sizes.len() == addrs.len(),
        aligns.len() == addrs.len(),
        states[0].wf(),
        forall|k: int|
            0 <= k < addrs.len() ==> #[trigger] allocation_step(states, sizes, aligns, addrs, k),
    ensures
        forall|j: int, k: int|
            0 <= j < k < addrs.len() ==> ranges_disjoint(
                addrs[j] as int,
                sizes[j] as int,
                addrs[k] as int,
                sizes[k] as int,
            ),
{
    let available = states.map_values(|v: FixedSizeBlockView| v.available());
    let ranges = Seq::new(addrs.len(), |k: int| byte_range(addrs[k] as int, sizes[k] as int));
    lemma_states_wf(states, sizes, aligns, addrs, 0);
    assert forall|k: int| 0 <= k < ranges.len() implies {
        &&& #[trigger] ranges[k].subset_of(available[k])
        &&& available[k + 1].subset_of(available[k])
        &&& available[k + 1].disjoint(ranges[k])
    } by {
        lemma_states_wf(states, sizes, aligns, addrs, k);
        assert(allocation_step(states, sizes, aligns, addrs, k));
        lemma_allocate(states[k], sizes[k] as int, aligns[k] as int, states[k + 1], Some(addrs[k]));
    }
    lemma_chain_disjoint(available, ranges);
    assert forall|j: int, k: int| 0 <= j < k < addrs.len() implies ranges_disjoint(
        addrs[j] as int,
        sizes[j] as int,
        addrs[k] as int,
        sizes[k] as int,
    ) by {
        assert(ranges[j].disjoint(ranges[k]));
    }
}

proof fn lemma_states_wf(
    states: Seq<FixedSizeBlockView>,
    sizes: Seq<usize>,
    aligns: Seq<usize>,
    addrs: Seq<usize>,
    n: int,
)
    requires
        states.len() == addrs.len() + 1,
        sizes.len() == addrs.len(),
        aligns.len() == addrs.len(),
        states[0].wf(),
        forall|k: int|
            0 <= k < addrs.len() ==> #[trigger] allocation_step(states, sizes, aligns, addrs, k),
        0 <= n < states.len(),
    ensures
        states[n].wf(),
    decreases n,
{
    if n > 0 {
        lemma_states_wf(states, sizes, aligns, addrs, n - 1);
        assert(allocation_step(states, sizes, aligns, addrs, n - 1));
        lemma_allocate(
            states[n - 1],
            sizes[n - 1] as int,
            aligns[n - 1] as int,
            states[n],
            Some(addrs[n - 1]),
        );
    }
}

/// A block freed into its class is the very block that the next allocation
/// of the same class returns.
pub proof fn lemma_free_then_reuse(
    v0: FixedSizeBlockView,
    addr: usize,
    size: int,
    align: int,
    kept: bool,
    v1: FixedSizeBlockView,
    size2: int,
    align2: int,
    v2: FixedSizeBlockView,
    r: Option<usize>,
)
    requires
        v0.wf(),
        class_index(size, align) is Some,
        class_index(size2, align2) == class_index(size, align),
        v0.deallocate_spec(addr, size, align, v1, kept),
        v1.allocate_spec(size2, align2, v2, r),
    ensures
        r == Some(addr),
        v2 == v0,
{
    let c = class_index(size, align)->0;
    lemma_first_class_from(0, if size >= align { size } else { align });
    assert(v1.lists[c] == v0.lists[c].push(addr));
    assert(v0.lists[c].push(addr).drop_last() =~= v0.lists[c]);
    assert(v2.lists =~= v0.lists);
}

/// An allocation succeeds when the fallback heap holds a run of free bytes
/// long enough for the request, or for a block of its class, together with
/// a hole header and alignment padding, and the heap region lies clear of the
/// top of the address space.
pub proof fn lemma_allocate_succeeds(
    v: FixedSizeBlockView,
    size: int,
    align: int,
    w: FixedSizeBlockView,
    r: Option<usize>,
    lo: int,
    n: int,
)
    requires
        v.wf(),
        size >= 0,
        is_pow2(align),
        v.heap_end + 4096 + 256 + size + align <= usize::MAX,
        byte_range(lo, n).subset_of(heap_free(v.fallback)),
        n >= size + align + 4416,
        v.allocate_spec(size, align, w, r),
    ensures
        r is Some,
{
    reveal(is_pow2);
    lemma_class_index(size, align);
    let (s2, a2) = match class_index(size, align) {
        Some(c) => (block_sizes()[c], block_sizes()[c]),
        None => (size, align),
    };
    if let Some(c) = class_index(size, align) {
        if v.lists[c].len() > 0 {
            return;
        }
    }
    assert(v.fallback_step(s2, a2, w, r));
    assert(v.fallback_fits(s2, a2));
    if r is None {
        assert(byte_range(lo, n).subset_of(heap_free(v.fallback)));
        lemma_align_up(lo + 64, a2);
        assert(align_up_spec(lo + 64, a2) + s2 + 256 > lo + n);
    }
}

/// After the fallback heap hands out `size` bytes at `p`, a run of free
/// bytes `[lo, lo + n)` that it held still holds its part below `p` and its
/// part from `p + size + 96` on.
pub proof fn lemma_run_remains(
    pre: Heap,
    size: int,
    align: int,
    post: Heap,
    p: usize,
    lo: int,
    n: int,
)
    requires
        first_fit_post(pre, size, align, post, Some(p)),
        byte_range(lo, n).subset_of(heap_free(pre)),
    ensures
        ({
            let below_end = if p < lo + n { p as int } else { lo + n };
            let above = if p + size + 96 > lo { p + size + 96 } else { lo };
            &&& byte_range(lo, below_end - lo).subset_of(heap_free(post))
            &&& byte_range(above, lo + n - above).subset_of(heap_free(post))
        }),
{
    let below_end = if p < lo + n { p as int } else { lo + n };
    let above = if p + size + 96 > lo { p + size + 96 } else { lo };
    assert forall|a: int| byte_range(lo, below_end - lo).contains(a) implies heap_free(post).contains(a) by {
        assert(byte_range(lo, n).contains(a));
        assert(heap_free(pre).difference(byte_range(p as int, size + 96)).contains(a));
    }
    assert forall|a: int| byte_range(above, lo + n - above).contains(a) implies heap_free(post).contains(a) by {
        assert(byte_range(lo, n).contains(a));
        assert(heap_free(pre).difference(byte_range(p as int, size + 96)).contains(a));
    }
}

/// On a heap region of `HEAP_SIZE` bytes freshly handed over by `init`, two
/// allocations of the same small request, up to the largest block size,
/// both succeed and return disjoint blocks (when the region lies clear of the
/// top of the address space).
pub proof fn lemma_two_small_allocations(
    v0: FixedSizeBlockView,
    size: int,
    align: int,
    v1: FixedSizeBlockView,
    r1: Option<usize>,
    v2: FixedSizeBlockView,
    r2: Option<usize>,
)
    requires
        v0.wf(),
        v0.lists == empty_lists(),
        byte_range(v0.heap_start + 32, HEAP_SIZE - 64).subset_of(heap_free(v0.fallback)),
        v0.heap_end + 8448 <= usize::MAX,
        0 <= size <= 2048,
        is_pow2(align),
        align <= 2048,
        v0.allocate_spec(size, align, v1, r1),
        v1.allocate_spec(size, align, v2, r2),
    ensures
        r1 is Some,
        r2 is Some,
        ranges_disjoint(r1->0 as int, size, r2->0 as int, size),
{
    let lo = v0.heap_start + 32;
    let n = HEAP_SIZE - 64;
    lemma_allocate_succeeds(v0, size, align, v1, r1, lo, n);
    lemma_allocate(v0, size, align, v1, r1);
    lemma_class_index(size, align);
    let c = class_index(size, align)->0;
    let b = block_sizes()[c];
    assert(v0.lists[c].len() == 0);
    assert(v0.fallback_step(b, b, v1, r1));
    assert(v0.fallback_fits(b, b));
    let p = r1->0;
    lemma_run_remains(v0.fallback, b, b, v1.fallback, p, lo, n);
    let below_end = if p < lo + n { p as int } else { lo + n };
    let above = if p + b + 96 > lo { p + b + 96 } else { lo };
    if below_end - lo >= 20000 {
        lemma_allocate_succeeds(v1, size, align, v2, r2, lo, below_end - lo);
    } else {
        lemma_allocate_succeeds(v1, size, align, v2, r2, above, lo + n - above);
    }
    lemma_allocate(v1, size, align, v2, r2);
    assert(byte_range(r2->0 as int, size).subset_of(v1.available()));
    assert(v1.available().disjoint(byte_range(r1->0 as int, size)));
}

/// Churn: on a heap region of `HEAP_SIZE` bytes freshly handed over by
/// `init`, an allocation of a small request succeeds, and freeing it and
/// allocating the same request again returns the same block and leaves the
/// allocator as it was after the first allocation, so any number of such
/// rounds succeeds without using more memory.
pub proof fn lemma_churn(
    v0: FixedSizeBlockView,
    size: int,
    align: int,
    v1: FixedSizeBlockView,
    r1: Option<usize>,
    kept: bool,
    v2: FixedSizeBlockView,
    v3: FixedSizeBlockView,
    r3: Option<usize>,
)
    requires
        v0.wf(),
        byte_range(v0.heap_start + 32, HEAP_SIZE - 64).subset_of(heap_free(v0.fallback)),
        v0.heap_end + 8448 <= usize::MAX,
        0 <= size <= 2048,
        is_pow2(align),
        align <= 2048,
        v0.allocate_spec(size, align, v1, r1),
        r1 matches Some(p) ==> v1.deallocate_spec(p, size, align, v2, kept),
        v2.allocate_spec(size, align, v3, r3),
    ensures
        r1 is Some,
        r3 == r1,
        v3 == v1,
{
    lemma_allocate_succeeds(v0, size, align, v1, r1, v0.heap_start + 32, HEAP_SIZE - 64);
    lemma_allocate(v0, size, align, v1, r1);
    lemma_class_index(size, align);
    lemma_free_then_reuse(v1, r1->0, size, align, kept, v2, size, align, v3, r3);
}

/// Popping the top block of class `c` keeps the state well formed, hands out
/// a block that was available, and leaves available only what was available
/// outside that block.
proof fn lemma_pop(v: FixedSizeBlockView, c: int)
    requires
        v.wf(),
        0 <= c < BLOCK_SIZE_COUNT,
        v.lists[c].len() > 0,
    ensures
        ({
            let w = FixedSizeBlockView {
                lists: v.lists.update(c, v.lists[c].drop_last()),
                ..v
            };
            let top = v.lists[c].last();
            &&& w.wf()
            &&& top as int % block_sizes()[c] == 0
            &&& byte_range(top as int, block_sizes()[c]).subset_of(v.available())
            &&& w.available().subset_of(v.available())
            &&& w.available().disjoint(byte_range(top as int, block_sizes()[c]))
        }),
{
    let w = FixedSizeBlockView { lists: v.lists.update(c, v.lists[c].drop_last()), ..v };
    let last = v.lists[c].len() - 1;
    let top = v.lists[c].last();
    assert forall|i: int, k: int| valid_slot(w.lists, i, k) implies valid_slot(v.lists, i, k) && (
    i != c || k != last) && #[trigger] w.lists[i][k] == v.lists[i][k] && block_of(w.lists, i, k)
        == block_of(v.lists, i, k) by {}
    assert forall|i: int, k: int| valid_slot(w.lists, i, k) implies {
        &&& #[trigger] w.lists[i][k] as int % block_sizes()[i] == 0
        &&& w.lists[i][k] + block_sizes()[i] <= usize::MAX + 1
    } by {
        assert(w.lists[i][k] == v.lists[i][k]);
        assert(v.lists[i][k] as int % block_sizes()[i] == 0);
    }
    assert forall|i: int, k: int, j: int, l: int|
        valid_slot(w.lists, i, k) && valid_slot(w.lists, j, l) && (i != j || k != l) implies #[trigger] block_of(
        w.lists,
        i,
        k,
    ).disjoint(#[trigger] block_of(w.lists, j, l)) by {
        assert(w.lists[i][k] == v.lists[i][k]);
        assert(w.lists[j][l] == v.lists[j][l]);
        assert(block_of(v.lists, i, k).disjoint(block_of(v.lists, j, l)));
    }
    assert forall|i: int, k: int| valid_slot(w.lists, i, k) implies #[trigger] block_of(
        w.lists,
        i,
        k,
    ).disjoint(heap_free(w.fallback)) by {
        assert(w.lists[i][k] == v.lists[i][k]);
        assert(block_of(v.lists, i, k).disjoint(heap_free(v.fallback)));
    }
    assert(block_of(v.lists, c, last) == byte_range(top as int, block_sizes()[c]));
    assert(v.lists[c][last] as int % block_sizes()[c] == 0);
    assert forall|a: int| byte_range(top as int, block_sizes()[c]).contains(a) implies v.available().contains(a) by {
        assert(block_of(v.lists, c, last).contains(a));
    }
    assert forall|a: int| w.listed().contains(a) implies v.listed().contains(a) by {
        let (i, k) = choose|i: int, k: int|
            valid_slot(w.lists, i, k) && #[trigger] block_of(w.lists, i, k).contains(a);
        assert(w.lists[i][k] == v.lists[i][k]);
        assert(block_of(v.lists, i, k).contains(a));
    }
    assert forall|a: int| w.available().contains(a) implies !byte_range(
        top as int,
        block_sizes()[c],
    ).contains(a) by {
        if w.listed().contains(a) {
            let (i, k) = choose|i: int, k: int|
                valid_slot(w.lists, i, k) && #[trigger] block_of(w.lists, i, k).contains(a);
            assert(w.lists[i][k] == v.lists[i][k]);
            assert(block_of(v.lists, i, k).disjoint(block_of(v.lists, c, last)));
        } else {
            assert(block_of(v.lists, c, last).disjoint(heap_free(v.fallback)));
        }
    }
}

/// Taking a block from the fallback heap keeps the state well formed; the
/// block was available and is no longer, and on failure nothing changes.
proof fn lemma_fallback_take(
    v: FixedSizeBlockView,
    w: FixedSizeBlockView,
    size: int,
    align: int,
    r: Option<usize>,
)
    requires
        v.wf(),
        v.fallback_step(size, align, w, r),
    ensures
        w.wf(),
        w.listed() == v.listed(),
        r matches Some(p) ==> {
            &&& byte_range(p as int, size).subset_of(v.available())
            &&& w.available().subset_of(v.available())
            &&& w.available().disjoint(byte_range(p as int, size))
        },
        r is None ==> w.available() == v.available(),
{
    assert(w.listed() =~= v.listed());
    assert(heap_free(w.fallback).subset_of(heap_free(v.fallback)));
    assert forall|i: int, k: int| valid_slot(w.lists, i, k) implies #[trigger] block_of(
        w.lists,
        i,
        k,
    ).disjoint(heap_free(w.fallback)) by {
        assert(block_of(v.lists, i, k).disjoint(heap_free(v.fallback)));
    }
    if let Some(p) = r {
        assert forall|a: int| byte_range(p as int, size).contains(a) implies !w.listed().contains(a) by {
            if w.listed().contains(a) {
                let (i, k) = choose|i: int, k: int|
                    valid_slot(w.lists, i, k) && #[trigger] block_of(w.lists, i, k).contains(a);
                assert(block_of(v.lists, i, k).disjoint(heap_free(v.fallback)));
            }
        }
    } else {
        assert(w.available() =~= v.available());
    }
}

/// Pushing a block that can be taken back onto the stack of its class keeps
/// the state well formed and makes the block available again.
proof fn lemma_push(v: FixedSizeBlockView, addr: usize, c: int)
    requires
        v.wf(),
        0 <= c < BLOCK_SIZE_COUNT,
        v.can_take_back(addr, c),
    ensures
        ({
            let w = FixedSizeBlockView { lists: v.lists.update(c, v.lists[c].push(addr)), ..v };
            &&& w.wf()
            &&& w.available() == v.available().union(byte_range(addr as int, block_sizes()[c]))
        }),
{
    let w = FixedSizeBlockView { lists: v.lists.update(c, v.lists[c].push(addr)), ..v };
    let n = v.lists[c].len() as int;
    assert forall|i: int, k: int| valid_slot(w.lists, i, k) implies (valid_slot(v.lists, i, k) && #[trigger] w.lists[i][k] == v.lists[i][k] && block_of(w.lists, i, k) == block_of(v.lists, i, k)) || (i == c && k == n && w.lists[i][k] == addr && block_of(w.lists, i, k) == byte_range(addr as int, block_sizes()[c])) by {}
    assert forall|i: int, k: int| valid_slot(v.lists, i, k) implies #[trigger] block_of(v.lists, i, k).subset_of(v.listed()) by {
        assert forall|a: int| block_of(v.lists, i, k).contains(a) implies v.listed().contains(a) by {}
    }
    assert forall|i: int, k: int| valid_slot(w.lists, i, k) implies {
        &&& #[trigger] w.lists[i][k] as int % block_sizes()[i] == 0
        &&& w.lists[i][k] + block_sizes()[i] <= usize::MAX + 1
    } by {
        if i != c || k != n {
            assert(v.lists[i][k] as int % block_sizes()[i] == 0);
        }
    }
    assert forall|i: int, k: int, j: int, l: int|
        valid_slot(w.lists, i, k) && valid_slot(w.lists, j, l) && (i != j || k != l) implies #[trigger] block_of(
        w.lists,
        i,
        k,
    ).disjoint(#[trigger] block_of(w.lists, j, l)) by {
        if (i != c || k != n) && (j != c || l != n) {
            assert(block_of(v.lists, i, k).disjoint(block_of(v.lists, j, l)));
        } else if i == c && k == n {
            assert(block_of(v.lists, j, l).subset_of(v.listed()));
        } else {
            assert(block_of(v.lists, i, k).subset_of(v.listed()));
        }
    }
    assert forall|i: int, k: int| valid_slot(w.lists, i, k) implies #[trigger] block_of(
        w.lists,
        i,
        k,
    ).disjoint(heap_free(w.fallback)) by {
        if i != c || k != n {
            assert(block_of(v.lists, i, k).disjoint(heap_free(v.fallback)));
        }
    }
    let added = byte_range(addr as int, block_sizes()[c]);
    assert forall|a: int| w.listed().contains(a) <==> v.listed().contains(a) || added.contains(a) by {
        if w.listed().contains(a) {
            let (i, k) = choose|i: int, k: int|
                valid_slot(w.lists, i, k) && #[trigger] block_of(w.lists, i, k).contains(a);
            if i != c || k != n {
                assert(block_of(v.lists, i, k).contains(a));
            }
        }
        if v.listed().contains(a) {
            let (i, k) = choose|i: int, k: int|
                valid_slot(v.lists, i, k) && #[trigger] block_of(v.lists, i, k).contains(a);
            assert(w.lists[i][k] == v.lists[i][k]);
            assert(block_of(w.lists, i, k).contains(a));
        }
        if added.contains(a) {
            assert(block_of(w.lists, c, n).contains(a));
        }
    }
    assert(w.available() =~= v.available().union(added));
}

/// Serves requests of up to 2048 bytes from per-class stacks of freed blocks
/// and everything else from a linked-list fallback heap.
pub struct FixedSizeBlockAllocator {
    list_heads: Vec<Vec<usize>>,
    fallback_allocator: Heap,
    heap_start: usize,
    heap_end: usize,
}

impl View for FixedSizeBlockAllocator {
    type V = FixedSizeBlockView;

    closed spec fn view(&self) -> FixedSizeBlockView {
        FixedSizeBlockView {
            lists: self.list_heads@.map_values(|l: Vec<usize>| l@),
            fallback: self.fallback_allocator,
            heap_start: self.heap_start as int,
            heap_end: self.heap_end as int,
        }
    }
}

/// One empty stack per class.
pub open spec fn empty_lists() -> Seq<Seq<usize>> {
    Seq::new(BLOCK_SIZE_COUNT as nat, |i: int| Seq::<usize>::empty())
}

fn new_empty_lists() -> (r: Vec<Vec<usize>>)
    ensures
        r@.map_values(|l: Vec<usize>| l@) == empty_lists(),
{
    let mut lists: Vec<Vec<usize>> = Vec::new();
    let mut i: usize = 0;
    while i < BLOCK_SIZE_COUNT
        invariant
            i <= BLOCK_SIZE_COUNT,
            lists@.len() == i,
            forall|j: int| 0 <= j < i ==> (#[trigger] lists@[j])@ == Seq::<usize>::empty(),
        decreases BLOCK_SIZE_COUNT - i,
    {
        lists.push(Vec::new());
        i = i + 1;
    }
    assert(lists@.map_values(|l: Vec<usize>| l@) =~= empty_lists());
    lists
}

impl FixedSizeBlockAllocator {
    /// Creates an allocator with empty free lists and an empty fallback heap
    /// over the empty region at address zero, on which every allocation
    /// fails.
    pub fn new() -> (r: Self)
        ensures
            r@.wf(),
            r@.lists == empty_lists(),
            heap_free(r@.fallback) == Set::<int>::empty(),
            r@.heap_start == 0,
            r@.heap_end == 0,
    {
        FixedSizeBlockAllocator {
            list_heads: new_empty_lists(),
            fallback_allocator: Heap::empty(),
            heap_start: 0,
            heap_end: 0,
        }
    }

    /// Hands the whole of `mem` to the fallback heap, which becomes the heap
    /// region; the free lists start empty. The heap's free bytes lie in the
    /// region and take in all of it but at most 32 bytes at each end, lost
    /// to word alignment. Meant to be called once, before the first
    /// allocation.
    pub fn init(&mut self, mem: &'static mut [MaybeUninit<u8>])
        requires
            old(mem)@.len() >= 3 * size_of::<usize>(),
        ensures
            final(self)@.wf(),
            final(self)@.lists == empty_lists(),
            final(self)@.heap_start > 0,
            final(self)@.heap_end == final(self)@.heap_start + old(mem)@.len(),
            heap_free(final(self)@.fallback).subset_of(
                byte_range(final(self)@.heap_start, old(mem)@.len() as int),
            ),
            byte_range(final(self)@.heap_start + 32, old(mem)@.len() - 64).subset_of(
                heap_free(final(self)@.fallback),
            ),
    {
        let len = mem.len();
        let (heap, start) = heap_from_slice(mem);
        self.list_heads = new_empty_lists();
        self.fallback_allocator = heap;
        self.heap_start = start;
        self.heap_end = start + len;
        proof {
            assert(empty_lists().len() == BLOCK_SIZE_COUNT);
        }
    }

    /// The class of a request of `size` bytes aligned to `align`: the index
    /// of the smallest block size that is at least both, if any.
    pub fn list_index(size: usize, align: usize) -> (r: Option<usize>)
        ensures
            list_index_post(size, align, r),
    {
        proof {
            lemma_first_class_from(0, if size >= align { size as int } else { align as int });
        }
        let required = if size >= align {
            size
        } else {
            align
        };
        let mut i: usize = 0;
        while i < BLOCK_SIZE_COUNT
            invariant
                i <= BLOCK_SIZE_COUNT,
                class_index(size as int, align as int) == first_class_from(i as int, required as int),
            decreases BLOCK_SIZE_COUNT - i,
        {
            if block_size(i) >= required {
                return Some(i);
            }
            i = i + 1;
        }
        None
    }

    fn fallback_alloc(&mut self, size: usize, align: usize) -> (r: Option<usize>)
        requires
            old(self)@.wf(),
            valid_layout(size, align),
        ensures
            old(self)@.fallback_step(size as int, align as int, final(self)@, r),
    {
        let fits = match self.heap_end.checked_add(256) {
            Some(x) => match x.checked_add(align) {
                Some(y) => y.checked_add(size).is_some(),
                None => false,
            },
            None => false,
        };
        if fits {
            proof {
                assert(first_fit_no_wrap(self.fallback_allocator, size as int, align as int)) by {
                    assert forall|a: int| #[trigger]
                        heap_free(self.fallback_allocator).contains(a) implies a + 256 + align
                        + size <= usize::MAX by {
                        assert(byte_range(
                            self.heap_start as int,
                            self.heap_end - self.heap_start,
                        ).contains(a));
                    }
                }
            }
            heap_allocate_first_fit(&mut self.fallback_allocator, size, align)
        } else {
            None
        }
    }

    /// Allocates `size` bytes aligned to `align`, as `allocate_spec` states;
    /// `None` when the fallback heap has no room.
    pub fn allocate(&mut self, size: usize, align: usize) -> (r: Option<usize>)
        requires
            old(self)@.wf(),
            valid_layout(size, align),
        ensures
            final(self)@.wf(),
            old(self)@.allocate_spec(size as int, align as int, final(self)@, r),
            r matches Some(p) ==> {
                &&& p as int % align as int == 0
                &&& byte_range(p as int, size as int).subset_of(old(self)@.available())
                &&& final(self)@.available().subset_of(old(self)@.available())
                &&& final(self)@.available().disjoint(byte_range(p as int, size as int))
            },
            r is None ==> final(self)@.available() == old(self)@.available(),
    {
        let ghost v = self@;
        let r = match Self::list_index(size, align) {
            None => self.fallback_alloc(size, align),
            Some(index) => {
                if self.list_heads[index].len() == 0 {
                    proof {
                        lemma_block_layouts_valid();
                    }
                    let block = block_size(index);
                    self.fallback_alloc(block, block)
                } else {
                    let top = self.list_heads[index].pop();
                    proof {
                        assert(self@.lists =~= v.lists.update(
                            index as int,
                            v.lists[index as int].drop_last(),
                        ));
                    }
                    top
                }
            },
        };
        proof {
            lemma_allocate(v, size as int, align as int, self@, r);
        }
        r
    }

    /// Frees the block at `addr` of the given layout, as `deallocate_spec`
    /// states: a block with a class goes onto its class's stack and `true` is
    /// returned; for any other block `false` is returned and the caller hands
    /// the block back to the fallback heap.
    pub fn deallocate(&mut self, addr: usize, size: usize, align: usize) -> (kept: bool)
        requires
            old(self)@.wf(),
            valid_layout(size, align),
            class_index(size as int, align as int) matches Some(c) ==> old(self)@.can_take_back(
                addr,
                c,
            ),
        ensures
            final(self)@.wf(),
            old(self)@.deallocate_spec(addr, size as int, align as int, final(self)@, kept),
    {
        let ghost v = self@;
        match Self::list_index(size, align) {
            None => false,
            Some(index) => {
                self.list_heads[index].push(addr);
                proof {
                    assert(self@.lists =~= v.lists.update(
                        index as int,
                        v.lists[index as int].push(addr),
                    ));
                    lemma_push(v, addr, index as int);
                }
                true
            },
        }
    }

    /// The fallback heap, for handing back blocks that have no class.
    pub fn fallback_heap_mut(&mut self) -> (h: &mut Heap)
        ensures
            *h == old(self)@.fallback,
            final(self)@ == (FixedSizeBlockView { fallback: *final(h), ..old(self)@ }),
    {
        &mut self.fallback_allocator
    }
}

} // verus!
