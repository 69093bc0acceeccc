//! The path filter `admin_blocker`: refuses the path `/admin` and no other.
use vstd::prelude::*;
use vstd::utf8::*;

use crate::text::same_bytes;

verus! {

/// Hands out memory from the front to the back and takes none back: each call
/// of the filter runs in a fresh instance, whose memory is thrown away.
pub struct BumpAllocator {
    pub next: u32,
}

impl BumpAllocator {
    /// An allocator that starts at address 1024.
    pub fn new() -> (r: Self)
        ensures
            r.next == 1024,
    {
        BumpAllocator { next: 1024 }
    }
}

/// Sets `len` bytes aside and returns their address. Addresses wrap around at
/// 32 bits.
pub fn allocate(allocator: &mut BumpAllocator, len: i32) -> (r: i32)
    ensures
        r == old(allocator).next as i32,
        final(allocator).next == old(allocator).next.wrapping_add(len as u32),
{
    let ptr: u32 = allocator.next;
    allocator.next = ptr.wrapping_add(len as u32);
    ptr as i32
}

/// Where the allocator stands after several allocations.
pub open spec fn after_allocations(next: u32, lens: Seq<i32>) -> u32
    decreases lens.len(),
{
    if lens.len() == 0 {
        next
    } else {
        after_allocations(next, lens.drop_last()).wrapping_add(lens.last() as u32)
    }
}

/// How much several allocations take.
pub open spec fn total(lens: Seq<i32>) -> int
    decreases lens.len(),
{
    if lens.len() == 0 {
        0
    } else {
        total(lens.drop_last()) + lens.last()
    }
}

/// Allocations that stay within 32 bits do not overlap: each ends before the next
/// one begins.
pub proof fn law_allocations_are_disjoint(next: u32, lens: Seq<i32>)
    requires
        forall|i: int| 0 <= i < lens.len() ==> #[trigger] lens[i] >= 0,
        next + total(lens) <= u32::MAX,
    ensures
        after_allocations(next, lens) == next + total(lens),
        forall|i: int|
            0 <= i < lens.len() ==> after_allocations(next, lens.subrange(0, i)) + #[trigger] lens[i]
                <= after_allocations(next, lens),
    decreases lens.len(),
{
    if lens.len() > 0 {
        let front = lens.drop_last();
        assert(lens[lens.len() - 1] >= 0);
        assert forall|i: int| 0 <= i < front.len() implies #[trigger] front[i] >= 0 by {
            assert(front[i] == lens[i]);
        }
        law_allocations_are_disjoint(next, front);
        assert forall|i: int| 0 <= i < lens.len() implies after_allocations(
            next,
            lens.subrange(0, i),
        ) + #[trigger] lens[i] <= after_allocations(next, lens) by {
            if i < front.len() {
                assert(front.subrange(0, i) =~= lens.subrange(0, i));
                assert(after_allocations(next, front.subrange(0, i)) + front[i]
                    <= after_allocations(next, front));
            } else {
                assert(lens.subrange(0, i) =~= front);
            }
        }
    }
}

/// One for the path `/admin`, which is refused; zero for any other.
pub fn filter_request(path: &[u8]) -> (r: i32)
    ensures
        r == (if path@ == encode_utf8("/admin"@) {
            1int
        } else {
            0int
        }),
{
    if same_bytes(path, "/admin".as_bytes()) {
        1
    } else {
        0
    }
}

} // verus!
