//! The kernel heap: a bump allocator over a fixed virtual region.
//!
//! The allocator only ever advances a cursor; deallocation decrements a live
//! count and, once the count reaches zero, resets the cursor to the region
//! base, reclaiming the whole region at once.  A ghost sequence of live
//! address ranges witnesses that no two outstanding allocations overlap.

use vstd::prelude::*;

use crate::memory::FrameSource;
use crate::memory::PAGE_SIZE;
use crate::paging::MapToError;
use crate::paging::OffsetPageTable;
use crate::paging::Page;
use crate::paging::PageTableFlags;
use crate::paging::PhysFrame;
use crate::paging::canonical;
use crate::paging::page_path;

verus! {

/// Base virtual address of the kernel heap region.
pub const HEAP_START: u64 = 0x4444_4444_0000;

/// Size of the kernel heap region in bytes (100 KiB).
pub const HEAP_SIZE: u64 = 100 * 1024;

/// The least multiple of `align` that is at least `addr`.
pub open spec fn spec_align_up(addr: int, align: int) -> int {
    if addr % align == 0 {
        addr
    } else {
        addr - addr % align + align
    }
}

/// Rounds `addr` up to the next multiple of `align`.
pub fn align_up(addr: u64, align: u64) -> (r: u64)
    requires
        1 <= align,
        spec_align_up(addr as int, align as int) <= u64::MAX,
    ensures
        r == spec_align_up(addr as int, align as int),
        r % align == 0,
        addr <= r < addr + align,
{
    proof {
        lemma_align_up_bounds(addr as int, align as int);
        vstd::arithmetic::div_mod::lemma_mod_decreases(addr as nat, align as nat);
    }
    let remainder = addr % align;
    if remainder == 0 {
        addr
    } else {
        addr - remainder + align
    }
}

/// The rounded-up address is aligned and within one `align` of `addr`.
pub proof fn lemma_align_up_bounds(addr: int, align: int)
    requires
        0 <= addr,
        1 <= align,
    ensures
        spec_align_up(addr, align) % align == 0,
        addr <= spec_align_up(addr, align) < addr + align,
{
    let r = addr % align;
    vstd::arithmetic::div_mod::lemma_mod_bound(addr, align);
    if r != 0 {
        assert((addr - r + align) % align == 0) by {
            vstd::arithmetic::div_mod::lemma_sub_mod_noop(addr, r, align);
            vstd::arithmetic::div_mod::lemma_mod_self_0(align);
            vstd::arithmetic::div_mod::lemma_add_mod_noop(addr - r, align, align);
            vstd::arithmetic::div_mod::lemma_mod_twice(addr, align);
            vstd::arithmetic::div_mod::lemma_small_mod(0nat, align as nat);
        }
    }
}

/// The heap's allocation state: a cursor that only moves forward while any
/// allocation is outstanding, and a count of live allocations.
///
/// `live` is the ghost list of outstanding address ranges, in the order they
/// were handed out; it witnesses that live allocations never overlap.
pub struct BumpAllocator {
    pub heap_start: u64,
    pub heap_end: u64,
    pub next: u64,
    pub allocations: u64,
    pub live: Ghost<Seq<(int, int)>>,
}

impl BumpAllocator {
    /// Internal consistency: the cursor stays inside the region, every live
    /// range lies between the region base and the cursor, the ranges are
    /// pairwise disjoint, and a heap with no outstanding allocation has its
    /// cursor at the region base.
    pub open spec fn wf(self) -> bool {
        &&& self.heap_start <= self.next <= self.heap_end
        &&& self.live@.len() == self.allocations
        &&& (forall|i: int|
            0 <= i < self.live@.len() ==> {
                &&& self.heap_start <= #[trigger] self.live@[i].0
                &&& self.live@[i].0 <= self.live@[i].1
                &&& self.live@[i].1 <= self.next
            })
        &&& (forall|i: int, j: int|
            0 <= i < j < self.live@.len() ==> #[trigger] self.live@[i].1 <= #[trigger] self.live@[j].0)
        &&& (self.allocations == 0 ==> self.next == self.heap_start)
        &&& self.allocations <= self.next - self.heap_start
    }

    /// A fresh allocator over the empty region; it can serve nothing until
    /// `init` gives it a backed region.
    pub fn new() -> (r: Self)
        ensures
            r.wf(),
            r.heap_start == 0,
            r.heap_end == 0,
            r.allocations == 0,
            r.live@ =~= Seq::<(int, int)>::empty(),
    {
        BumpAllocator {
            heap_start: 0,
            heap_end: 0,
            next: 0,
            allocations: 0,
            live: Ghost(Seq::empty()),
        }
    }

    /// Hands the allocator its region.  To be called only once the whole
    /// region is backed by mapped frames; the allocator itself never serves
    /// a byte outside `[heap_start, heap_start + heap_size)`.
    pub fn init(&mut self, heap_start: u64, heap_size: u64)
        requires
            old(self).allocations == 0,
            heap_start + heap_size <= u64::MAX,
        ensures
            final(self).wf(),
            final(self).heap_start == heap_start,
            final(self).heap_end == heap_start + heap_size,
            final(self).next == heap_start,
            final(self).allocations == 0,
            final(self).live@ =~= Seq::<(int, int)>::empty(),
    {
        self.heap_start = heap_start;
        self.heap_end = heap_start + heap_size;
        self.next = heap_start;
        self.allocations = 0;
        self.live = Ghost(Seq::empty());
    }

    /// Where the next allocation with this alignment would start.
    pub open spec fn spec_alloc_start(self, align: int) -> int {
        spec_align_up(self.next as int, align)
    }

    /// What `alloc` returns: the aligned cursor if the request fits in what
    /// is left of the region, and nothing otherwise.
    pub open spec fn spec_alloc_result(self, size: int, align: int) -> Option<int> {
        if self.spec_alloc_start(align) + size <= self.heap_end {
            Some(self.spec_alloc_start(align))
        } else {
            None
        }
    }

    /// Serves one allocation request: rounds the cursor up to `align`,
    /// refuses the request if `size` more bytes would leave the region, and
    /// otherwise advances the cursor past the new range.
    ///
    /// A refused request leaves the allocator untouched.
    pub fn allocate(&mut self, size: u64, align: u64) -> (r: Option<u64>)
        requires
            old(self).wf(),
            1 <= size,
            1 <= align,
        ensures
            final(self).wf(),
            final(self).heap_start == old(self).heap_start,
            final(self).heap_end == old(self).heap_end,
            match r {
                Some(addr) => {
                    &&& old(self).spec_alloc_result(size as int, align as int) == Some(addr as int)
                    &&& addr % align == 0
                    &&& old(self).next <= addr < old(self).next + align
                    &&& addr + size <= old(self).heap_end
                    &&& final(self).next == addr + size
                    &&& final(self).allocations == old(self).allocations + 1
                    &&& final(self).live@ =~= old(self).live@.push((addr as int, addr + size))
                },
                None => {
                    &&& old(self).spec_alloc_result(size as int, align as int) is None
                    &&& *final(self) == *old(self)
                },
            },
    {
        proof {
            lemma_align_up_bounds(self.next as int, align as int);
            vstd::arithmetic::div_mod::lemma_mod_decreases(self.next as nat, align as nat);
        }
        let remainder = self.next % align;
        let alloc_start_opt: Option<u64> = if remainder == 0 {
            Some(self.next)
        } else {
            (self.next - remainder).checked_add(align)
        };
        match alloc_start_opt {
            None => None,
            Some(alloc_start) => {
                match alloc_start.checked_add(size) {
                    None => None,
                    Some(alloc_end) => {
                        if alloc_end > self.heap_end {
                            None
                        } else {
                            self.next = alloc_end;
                            self.allocations = self.allocations + 1;
                            proof {
                                self.live@ = self.live@.push(
                                    (alloc_start as int, alloc_end as int),
                                );
                                assert forall|i: int, j: int|
                                    0 <= i < j < self.live@.len() implies self.live@[i].1
                                    <= self.live@[j].0 by {
                                    if j == self.live@.len() - 1 {
                                        assert(old(self).heap_start <= old(self).live@[i].0);
                                        assert(old(self).live@[i].1 <= old(self).next);
                                    }
                                }
                            }
                            Some(alloc_start)
                        }
                    },
                }
            },
        }
    }

    /// Returns one outstanding allocation.  Only the live count and, once it
    /// reaches zero, the cursor change: the region is reclaimed all at once
    /// when the last allocation goes.
    pub fn deallocate(&mut self, ptr: u64, size: u64)
        requires
            old(self).wf(),
            exists|i: int|
                0 <= i < old(self).live@.len() && old(self).live@[i] == (ptr as int, ptr + size),
        ensures
            final(self).wf(),
            final(self).heap_start == old(self).heap_start,
            final(self).heap_end == old(self).heap_end,
            final(self).allocations == old(self).allocations - 1,
            final(self).next == if final(self).allocations == 0 {
                old(self).heap_start
            } else {
                old(self).next
            },
            exists|i: int|
                {
                    &&& 0 <= i < old(self).live@.len()
                    &&& old(self).live@[i] == (ptr as int, ptr + size)
                    &&& *final(self) == spec_after_dealloc(*old(self), i)
                },
    {
        let ghost i = choose|i: int|
            0 <= i < self.live@.len() && self.live@[i] == (ptr as int, ptr + size);
        proof {
            self.live@ = self.live@.remove(i);
        }
        self.allocations = self.allocations - 1;
        if self.allocations == 0 {
            self.next = self.heap_start;
        }
        proof {
            assert(*self == spec_after_dealloc(*old(self), i));
        }
    }
}

/// Law: two distinct live allocations never overlap, and each lies
/// inside the heap region.  Together with `allocate`'s guarantee that a
/// returned address meets the requested alignment and that an oversized
/// request fails leaving the allocator untouched, this is the safety of
/// the heap.
pub proof fn lemma_live_allocations_separate(s: BumpAllocator, i: int, j: int)
    requires
        s.wf(),
        0 <= i < s.live@.len(),
        0 <= j < s.live@.len(),
        i != j,
    ensures
        s.heap_start <= s.live@[i].0 <= s.live@[i].1 <= s.heap_end,
        s.live@[i].1 <= s.live@[j].0 || s.live@[j].1 <= s.live@[i].0,
{
}

/// The state one deallocation leaves: live range `i` gone, the count one
/// lower, and the cursor back at the region base once nothing is left.
pub open spec fn spec_after_dealloc(s: BumpAllocator, i: int) -> BumpAllocator {
    BumpAllocator {
        allocations: (s.allocations - 1) as u64,
        next: if s.allocations == 1 {
            s.heap_start
        } else {
            s.next
        },
        live: Ghost(s.live@.remove(i)),
        ..s
    }
}

/// The state after deallocating at the successive positions of `order`.
pub open spec fn spec_after_deallocs(s: BumpAllocator, order: Seq<int>) -> BumpAllocator
    decreases order.len(),
{
    if order.len() == 0 {
        s
    } else {
        spec_after_deallocs(spec_after_dealloc(s, order[0]), order.drop_first())
    }
}

/// One deallocation keeps the allocator well formed.
pub proof fn lemma_dealloc_wf(s: BumpAllocator, i: int)
    requires
        s.wf(),
        0 <= i < s.live@.len(),
    ensures
        spec_after_dealloc(s, i).wf(),
{
    let s1 = spec_after_dealloc(s, i);
    assert forall|k: int|
        0 <= k < s1.live@.len() implies {
        &&& s1.heap_start <= #[trigger] s1.live@[k].0
        &&& s1.live@[k].0 <= s1.live@[k].1
        &&& s1.live@[k].1 <= s1.next
    } by {
        if k < i {
            assert(s1.live@[k] == s.live@[k]);
            assert(s.heap_start <= s.live@[k].0);
        } else {
            assert(s1.live@[k] == s.live@[k + 1]);
            assert(s.heap_start <= s.live@[k + 1].0);
        }
        assert(s.allocations != 1);
    }
    assert forall|k: int, l: int|
        0 <= k < l < s1.live@.len() implies #[trigger] s1.live@[k].1 <= #[trigger] s1.live@[l].0 by {
        let k0: int = if k < i {
            k
        } else {
            k + 1
        };
        let l0: int = if l < i {
            l
        } else {
            l + 1
        };
        assert(s1.live@[k] == s.live@[k0] && s1.live@[l] == s.live@[l0]);
        assert(s.live@[k0].1 <= s.live@[l0].0);
    }
}

/// Law: deallocating every outstanding allocation, in whatever order,
/// brings the live count to zero and the cursor back to the heap base,
/// with the region untouched: the whole heap is reclaimed at once.
pub proof fn lemma_deallocate_all_resets(s: BumpAllocator, order: Seq<int>)
    requires
        s.wf(),
        order.len() == s.allocations,
        forall|k: int| 0 <= k < order.len() ==> 0 <= #[trigger] order[k] < order.len() - k,
    ensures
        spec_after_deallocs(s, order).wf(),
        spec_after_deallocs(s, order).allocations == 0,
        spec_after_deallocs(s, order).next == s.heap_start,
        spec_after_deallocs(s, order).heap_start == s.heap_start,
        spec_after_deallocs(s, order).heap_end == s.heap_end,
    decreases order.len(),
{
    if order.len() == 0 {
    } else {
        let s1 = spec_after_dealloc(s, order[0]);
        lemma_dealloc_wf(s, order[0]);
        assert forall|k: int|
            0 <= k < order.drop_first().len() implies 0 <= #[trigger] order.drop_first()[k]
            < order.drop_first().len() - k by {
            assert(order[k + 1] < order.len() - (k + 1));
        }
        lemma_deallocate_all_resets(s1, order.drop_first());
        if s.allocations == 1 {
            assert(s1.heap_start == s.heap_start);
        }
    }
}

/// Law: once the live count is back at zero the allocator serves exactly
/// as it did freshly initialized over its region: the cursor is at the
/// base, and any request that fits the empty region succeeds, placed at
/// the base rounded up to its alignment.
pub proof fn lemma_reset_serves_from_base(s: BumpAllocator, size: int, align: int)
    requires
        s.wf(),
        s.allocations == 0,
        1 <= align,
    ensures
        s.next == s.heap_start,
        spec_align_up(s.heap_start as int, align) + size <= s.heap_end
            ==> s.spec_alloc_result(size, align) == Some(spec_align_up(s.heap_start as int, align)),
{
}

/// Page `j` of the heap region.
pub open spec fn heap_page(j: int) -> u64 {
    (HEAP_START + j * (PAGE_SIZE as int)) as u64
}

/// Number of pages in the heap region.
pub open spec fn heap_page_count() -> int {
    (HEAP_SIZE as int) / (PAGE_SIZE as int)
}

/// Every page of the heap region is mapped to a present, writable frame,
/// with no stale cached translation: the region is safe to use as heap.
pub open spec fn heap_backed(m: OffsetPageTable) -> bool {
    forall|j: int|
        0 <= j < heap_page_count() ==> {
            &&& (#[trigger] m.resolve(page_path(heap_page(j)))) matches Some((f, fl)) && fl.present
                && fl.writable
            &&& !m.stale@.contains(heap_page(j))
        }
}

/// A heap page is page-aligned and canonical.
proof fn lemma_heap_page_wf(j: int)
    requires
        0 <= j < heap_page_count(),
    ensures
        heap_page(j) == HEAP_START + j * (PAGE_SIZE as int),
        heap_page(j) as int % (PAGE_SIZE as int) == 0,
        canonical(heap_page(j)),
{
    vstd::arithmetic::div_mod::lemma_mod_multiples_vanish(j, HEAP_START as int, PAGE_SIZE as int);
    let v = heap_page(j);
    assert(v <= 0x4444_4448_0000) by {
        vstd::arithmetic::mul::lemma_mul_inequality(j, 25, PAGE_SIZE as int);
    }
    assert(v <= 0x4444_4448_0000 ==> v >> 47 == 0) by (bit_vector);
}

/// Backs the whole heap region with physical frames and only then hands
/// the region to the bump allocator: no allocation can touch an unmapped
/// byte.  Each heap page is mapped to a fresh frame from the source and
/// its stale translation invalidated.  Failure to obtain a frame, or a
/// page of the region being mapped already, aborts the initialization
/// with the heap untouched.
pub fn init_heap<A: FrameSource>(
    mapper: &mut OffsetPageTable,
    frame_allocator: &mut A,
    allocator: &mut BumpAllocator,
) -> (r: Result<(), MapToError>)
    requires
        old(mapper).wf(),
        old(frame_allocator).frame_req(),
        old(allocator).allocations == 0,
    ensures
        final(mapper).wf(),
        final(frame_allocator).frame_req(),
        match r {
            Ok(()) => {
                &&& heap_backed(*final(mapper))
                &&& final(allocator).wf()
                &&& final(allocator).heap_start == HEAP_START
                &&& final(allocator).heap_end == HEAP_START + HEAP_SIZE
                &&& final(allocator).next == HEAP_START
                &&& final(allocator).allocations == 0
            },
            Err(e) => {
                &&& *final(allocator) == *old(allocator)
                &&& (e matches MapToError::PageAlreadyMapped { .. } ==> exists|j: int|
                    0 <= j < heap_page_count() && (#[trigger] old(mapper).l1_slot(
                        page_path(heap_page(j)),
                    )) is Some)
            },
        },
{
    let pages = HEAP_SIZE / PAGE_SIZE;
    let mut j: u64 = 0;
    while j < pages
        invariant
            mapper.wf(),
            frame_allocator.frame_req(),
            0 <= j <= pages,
            pages == heap_page_count(),
            *allocator == *old(allocator),
            old(allocator).allocations == 0,
            forall|jj: int|
                0 <= jj < j ==> {
                    &&& (#[trigger] mapper.resolve(page_path(heap_page(jj)))) matches Some(
                        (f, fl),
                    ) && fl.present && fl.writable
                    &&& !mapper.stale@.contains(heap_page(jj))
                },
            forall|jj: int|
                j <= jj < pages ==> #[trigger] mapper.l1_slot(page_path(heap_page(jj))) == old(
                    mapper,
                ).l1_slot(page_path(heap_page(jj))),
        decreases pages - j,
    {
        proof {
            lemma_heap_page_wf(j as int);
        }
        let page = Page { start: HEAP_START + j * PAGE_SIZE };
        let frame_addr = match frame_allocator.allocate_frame() {
            Some(f) => f,
            None => {
                return Err(MapToError::FrameAllocationFailed);
            },
        };
        let frame = PhysFrame { start: frame_addr };
        let flags = PageTableFlags { present: true, writable: true };
        let ghost pre = *mapper;
        match mapper.map_to(page, frame, flags, frame_allocator) {
            Ok(flush) => {
                flush.flush(mapper);
                proof {
                    assert forall|jj: int|
                        0 <= jj < j + 1 implies {
                        &&& (#[trigger] mapper.resolve(page_path(heap_page(jj)))) matches Some(
                            (f, fl),
                        ) && fl.present && fl.writable
                        &&& !mapper.stale@.contains(heap_page(jj))
                    } by {
                        lemma_heap_page_wf(jj);
                        assert(mapper.stale@ == pre.stale@.insert(page.start).remove(page.start));
                        if jj < j {
                            assert(pre.resolve(page_path(heap_page(jj))) matches Some((f, fl))
                                && fl.present && fl.writable);
                            assert(!pre.stale@.contains(heap_page(jj)));
                            assert(heap_page(jj) != page.start) by {
                                vstd::arithmetic::mul::lemma_mul_strict_inequality(
                                    jj,
                                    j as int,
                                    PAGE_SIZE as int,
                                );
                            }
                            if page_path(heap_page(jj)) == page_path(page.start) {
                                crate::paging::lemma_page_path_injective(
                                    heap_page(jj),
                                    page.start,
                                );
                            }
                            assert(mapper.l1_slot(page_path(heap_page(jj))) == pre.l1_slot(
                                page_path(heap_page(jj)),
                            ));
                            assert(!mapper.stale@.contains(heap_page(jj)));
                        } else {
                            assert(heap_page(jj) == page.start);
                            assert(mapper.l1_slot(page_path(heap_page(jj))) == Some(
                                (frame.start, flags),
                            ));
                            assert(!mapper.stale@.contains(page.start));
                        }
                    }
                    assert forall|jj: int|
                        j + 1 <= jj < pages implies #[trigger] mapper.l1_slot(
                        page_path(heap_page(jj)),
                    ) == old(mapper).l1_slot(page_path(heap_page(jj))) by {
                        lemma_heap_page_wf(jj);
                        assert(heap_page(jj) != page.start) by {
                            vstd::arithmetic::mul::lemma_mul_strict_inequality(
                                j as int,
                                jj,
                                PAGE_SIZE as int,
                            );
                        }
                        if page_path(heap_page(jj)) == page_path(page.start) {
                            crate::paging::lemma_page_path_injective(heap_page(jj), page.start);
                        }
                        assert(mapper.l1_slot(page_path(heap_page(jj))) == pre.l1_slot(
                            page_path(heap_page(jj)),
                        ));
                    }
                }
            },
            Err(e) => {
                proof {
                    if e matches MapToError::PageAlreadyMapped { .. } {
                        assert(old(mapper).l1_slot(page_path(heap_page(j as int))) is Some);
                    }
                }
                return Err(e);
            },
        }
        j = j + 1;
    }
    allocator.init(HEAP_START, HEAP_SIZE);
    Ok(())
}

} // verus!
