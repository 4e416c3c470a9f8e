//! Address arithmetic shared by the allocation strategies.

use vstd::arithmetic::div_mod::*;
use vstd::arithmetic::power2::is_pow2;
use vstd::prelude::*;

pub mod bump;
pub mod fallback;
pub mod fixed_size_block;

verus! {

/// Size in bytes of the kernel's heap region.
pub const HEAP_SIZE: usize = 100 * 1024;

/// The smallest multiple of `align` that is at least `addr`.
pub open spec fn align_up_spec(addr: int, align: int) -> int
    recommends
        align > 0,
{
    if addr % align == 0 {
        addr
    } else {
        addr + (align - addr % align)
    }
}

/// The set of byte addresses `[start, start + size)`.
pub open spec fn byte_range(start: int, size: int) -> Set<int> {
    Set::new(|a: int| start <= a < start + size)
}

/// Two address ranges share no byte.
pub open spec fn ranges_disjoint(s1: int, n1: int, s2: int, n2: int) -> bool {
    byte_range(s1, n1).disjoint(byte_range(s2, n2))
}

/// An optional address as a mathematical integer.
pub open spec fn opt_int(r: Option<usize>) -> Option<int> {
    match r {
        Some(p) => Some(p as int),
        None => None,
    }
}

/// A valid alignment: a power of two.
pub open spec fn valid_align(align: usize) -> bool {
    is_pow2(align as int)
}

/// `align_up_spec` is a multiple of `align`, not below `addr`, and less than
/// `align` above it.
pub proof fn lemma_align_up(addr: int, align: int)
    requires
        align > 0,
    ensures
        align_up_spec(addr, align) % align == 0,
        addr <= align_up_spec(addr, align) < addr + align,
        addr % align == 0 ==> align_up_spec(addr, align) == addr,
{
    lemma_fundamental_div_mod(addr, align);
    lemma_mod_bound(addr, align);
    if addr % align != 0 {
        let q = addr / align;
        assert(align_up_spec(addr, align) == (q + 1) * align) by (nonlinear_arith)
            requires
                addr == align * q + addr % align,
                align_up_spec(addr, align) == addr + (align - addr % align),
        ;
        lemma_mod_multiples_basic(q + 1, align);
    }
}

/// Of two powers of two, the larger is a multiple of the smaller.
pub proof fn lemma_pow2_divides(a: int, b: int)
    requires
        is_pow2(a),
        is_pow2(b),
        a <= b,
    ensures
        b % a == 0,
    decreases a,
{
    reveal(is_pow2);
    if a == 1 {
    } else {
        lemma_pow2_divides(a / 2, b / 2);
        let k = (b / 2) / (a / 2);
        lemma_fundamental_div_mod(b / 2, a / 2);
        assert(b == k * a) by (nonlinear_arith)
            requires
                b / 2 == (a / 2) * k,
                b == 2 * (b / 2),
                a == 2 * (a / 2),
        ;
        lemma_mod_multiples_basic(k, a);
    }
}

/// A multiple of `b` is a multiple of every divisor `a` of `b`.
pub proof fn lemma_mod_transitive(x: int, a: int, b: int)
    requires
        a > 0,
        b > 0,
        x % b == 0,
        b % a == 0,
    ensures
        x % a == 0,
{
    lemma_fundamental_div_mod(x, b);
    lemma_fundamental_div_mod(b, a);
    let k = (x / b) * (b / a);
    assert(x == k * a) by (nonlinear_arith)
        requires
            x == b * (x / b),
            b == a * (b / a),
            k == (x / b) * (b / a),
    ;
    lemma_mod_multiples_basic(k, a);
}

/// A run of allocations with no deallocation between them hands out pairwise
/// disjoint ranges, when each allocation takes its range from the addresses
/// still available before it and leaves available only addresses that were
/// available and lie outside that range.
pub proof fn lemma_chain_disjoint(available: Seq<Set<int>>, ranges: Seq<Set<int>>)
    requires
        available.len() == ranges.len() + 1,
        forall|k: int|
            0 <= k < ranges.len() ==> {
                &&& #[trigger] ranges[k].subset_of(available[k])
                &&& available[k + 1].subset_of(available[k])
                &&& available[k + 1].disjoint(ranges[k])
            },
    ensures
        forall|j: int, k: int|
            0 <= j < k < ranges.len() ==> #[trigger] ranges[j].disjoint(#[trigger] ranges[k]),
{
    assert forall|j: int, k: int| 0 <= j < k < ranges.len() implies #[trigger] ranges[j].disjoint(
        #[trigger] ranges[k],
    ) by {
        assert(ranges[j].subset_of(available[j]));
        lemma_available_shrinks(available, ranges, j + 1, k);
        assert(ranges[k].subset_of(available[k]));
        assert(available[j + 1].disjoint(ranges[j]));
    }
}

proof fn lemma_available_shrinks(available: Seq<Set<int>>, ranges: Seq<Set<int>>, i: int, k: int)
    requires
        available.len() == ranges.len() + 1,
        forall|k: int|
            0 <= k < ranges.len() ==> {
                &&& #[trigger] ranges[k].subset_of(available[k])
                &&& available[k + 1].subset_of(available[k])
                &&& available[k + 1].disjoint(ranges[k])
            },
        0 <= i <= k < available.len(),
    ensures
        available[k].subset_of(available[i]),
    decreases k - i,
{
    if i < k {
        lemma_available_shrinks(available, ranges, i + 1, k);
        assert(ranges[i].subset_of(available[i]));
    }
}

/// Rounds `addr` up to the next multiple of `align`, or `None` when that
/// multiple does not fit in a `usize`.
pub fn align_up(addr: usize, align: usize) -> (r: Option<usize>)
    requires
        align > 0,
    ensures
        r matches Some(v) ==> v == align_up_spec(addr as int, align as int),
        r is None <==> align_up_spec(addr as int, align as int) > usize::MAX,
{
    proof {
        lemma_align_up(addr as int, align as int);
    }
    let rem = addr % align;
    if rem == 0 {
        Some(addr)
    } else {
        addr.checked_add(align - rem)
    }
}

} // verus!
