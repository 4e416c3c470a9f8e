//! The fallback heap: `linked_list_allocator::Heap`, a first-fit allocator
//! over a list of free holes, seen from verified code through the set of
//! addresses its holes cover.

use core::alloc::Layout;
use core::mem::MaybeUninit;
use linked_list_allocator::Heap;
use vstd::layout::{size_of, valid_layout};
use vstd::prelude::*;

use crate::allocator::{align_up_spec, byte_range};

verus! {

#[verifier::external_type_specification]
#[verifier::external_body]
pub struct ExHeap(Heap);

/// The addresses covered by the free holes of a heap.
pub uninterp spec fn heap_free(h: Heap) -> Set<int>;

/// Relies on linked_list_allocator::Heap::empty: the heap has no hole.
pub assume_specification[ Heap::empty ]() -> (h: Heap)
    ensures
        heap_free(h) == Set::<int>::empty(),
;

/// What an allocation of `size` bytes aligned to `align` does to a heap.
///
/// On success the block is aligned, lies in free holes, and is free no more;
/// the heap keeps every other free byte, save for the rounding of the block's
/// size up to the heap's minimum block and word size (under 96 bytes on any
/// target whose words are at most 32 bytes).
///
/// On failure the holes stay as they were, and no run of free bytes was long
/// enough: the heap merges adjacent holes, so a run of free bytes lies in one
/// hole, and a hole starting at `lo` that reaches `lo + n` takes the block
/// when the block, placed past a hole header and aligned, ends at least 256
/// bytes before the end of the hole.
pub open spec fn first_fit_post(
    pre: Heap,
    size: int,
    align: int,
    post: Heap,
    r: Option<usize>,
) -> bool {
    match r {
        Some(p) => {
            &&& p > 0
            &&& p as int % align == 0
            &&& byte_range(p as int, size).subset_of(heap_free(pre))
            &&& heap_free(post).subset_of(heap_free(pre).difference(byte_range(p as int, size)))
            &&& heap_free(pre).difference(byte_range(p as int, size + 96)).subset_of(
                heap_free(post),
            )
        },
        None => {
            &&& heap_free(post) == heap_free(pre)
            &&& forall|lo: int, n: int|
                #[trigger] byte_range(lo, n).subset_of(heap_free(pre)) ==> align_up_spec(
                    lo + 64,
                    align,
                ) + size + 256 > lo + n
        },
    }
}

/// Address arithmetic on every free byte of the heap, for a block of `size`
/// bytes aligned to `align`, stays below the top of the address space with
/// room to spare.
pub open spec fn first_fit_no_wrap(h: Heap, size: int, align: int) -> bool {
    forall|a: int| #[trigger] heap_free(h).contains(a) ==> a + 256 + align + size <= usize::MAX
}

/// Relies on linked_list_allocator::Heap::from_slice: builds a heap whose one
/// hole is the given memory, less the bytes before its first word boundary
/// and after its last one; it panics when the memory cannot hold the hole's
/// header, which needs at most three words. Also returns the memory's start
/// address, which is not null, and a slice never wraps past the end of the
/// address space.
#[verifier::external_body]
pub(crate) fn heap_from_slice(mem: &'static mut [MaybeUninit<u8>]) -> (r: (Heap, usize))
    requires
        old(mem)@.len() >= 3 * size_of::<usize>(),
    ensures
        r.1 > 0,
        r.1 + old(mem)@.len() <= usize::MAX,
        heap_free(r.0).subset_of(byte_range(r.1 as int, old(mem)@.len() as int)),
        byte_range(r.1 + 32, old(mem)@.len() - 64).subset_of(heap_free(r.0)),
{
    let start = mem.as_ptr().addr();
    (Heap::from_slice(mem), start)
}

/// Relies on linked_list_allocator::Heap::allocate_first_fit: the first hole
/// that can hold the aligned block is split, and the block's address is
/// returned; on failure the hole list is left unmodified. Its address
/// arithmetic wraps near the top of the address space, which the
/// precondition rules out.
#[verifier::external_body]
pub(crate) fn heap_allocate_first_fit(heap: &mut Heap, size: usize, align: usize) -> (r: Option<
    usize,
>)
    requires
        valid_layout(size, align),
        first_fit_no_wrap(*old(heap), size as int, align as int),
    ensures
        first_fit_post(*old(heap), size as int, align as int, *final(heap), r),
{
    match Layout::from_size_align(size, align) {
        Ok(layout) => heap.allocate_first_fit(layout).ok().map(|p| p.addr().get()),
        Err(_) => None,
    }
}

} // verus!
