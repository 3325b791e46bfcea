//! Physical memory: the boot memory map and the frame allocators.
//!
//! The bootloader reports physical memory as an ordered list of regions,
//! each usable or not.  The frame allocator derives from the usable regions
//! a fixed sequence of page-aligned frame addresses and hands them out one
//! by one; a frame is never issued twice and there is no way to return one.

use vstd::prelude::*;

use crate::paging::MapToError;
use crate::paging::OffsetPageTable;
use crate::paging::Page;
use crate::paging::PageTableFlags;
use crate::paging::PhysFrame;

verus! {

/// Size in bytes of a physical frame and of a virtual page.
pub const PAGE_SIZE: u64 = 4096;

/// One region of the boot memory map: the physical addresses
/// `[start, end)`, reported as usable RAM or as reserved.
#[derive(Clone, Copy, PartialEq, Eq, Structural, Debug)]
pub struct MemoryRegion {
    pub start: u64,
    pub end: u64,
    pub usable: bool,
}

impl MemoryRegion {
    /// The boot map reports whole frames: both bounds are frame-aligned.
    pub open spec fn wf(self) -> bool {
        &&& self.start as int % (PAGE_SIZE as int) == 0
        &&& self.end as int % (PAGE_SIZE as int) == 0
        &&& self.start <= self.end
    }

    /// Regions of the boot map never overlap.
    pub open spec fn disjoint_from(self, other: MemoryRegion) -> bool {
        self.end <= other.start || other.end <= self.start
    }
}

/// The boot memory map: the ordered list of regions the bootloader found.
pub struct MemoryMap {
    pub regions: Vec<MemoryRegion>,
}

impl MemoryMap {
    pub open spec fn wf(self) -> bool {
        &&& (forall|i: int| 0 <= i < self.regions@.len() ==> (#[trigger] self.regions@[i]).wf())
        &&& (forall|i: int, j: int|
            0 <= i < j < self.regions@.len() ==> (#[trigger] self.regions@[i]).disjoint_from(
                #[trigger] self.regions@[j],
            ))
    }
}

/// The frame addresses of one region: its base and every 4 KiB step up to
/// its end.
pub open spec fn region_frames(r: MemoryRegion) -> Seq<u64> {
    Seq::new(
        ((r.end - r.start) / (PAGE_SIZE as int)) as nat,
        |k: int| (r.start + (PAGE_SIZE as int) * k) as u64,
    )
}

/// The frame addresses that the usable regions of the map contribute, in
/// map order: the candidate sequence the allocator walks.
pub open spec fn usable_frames_of(regions: Seq<MemoryRegion>) -> Seq<u64>
    decreases regions.len(),
{
    if regions.len() == 0 {
        Seq::empty()
    } else {
        (if regions[0].usable {
            region_frames(regions[0])
        } else {
            Seq::empty()
        }) + usable_frames_of(regions.drop_first())
    }
}

/// The derived frame sequence splits over a split of the region list.
pub proof fn lemma_usable_frames_of_concat(s1: Seq<MemoryRegion>, s2: Seq<MemoryRegion>)
    ensures
        usable_frames_of(s1 + s2) =~= usable_frames_of(s1) + usable_frames_of(s2),
    decreases s1.len(),
{
    if s1.len() == 0 {
        assert(s1 + s2 =~= s2);
        assert(usable_frames_of(s1) =~= Seq::empty());
    } else {
        assert((s1 + s2).drop_first() =~= s1.drop_first() + s2);
        lemma_usable_frames_of_concat(s1.drop_first(), s2);
    }
}

/// A source of unused physical frames that the mapper can draw on to back
/// new page tables.  `frame_req` is what a source asks of its own state and
/// `frame_ens` what one allocation does to it; each source states both.
pub trait FrameSource {
    /// What this source asks of its state before an allocation.
    spec fn frame_req(self) -> bool;

    /// What this source's `allocate_frame` guarantees: `post` is the source
    /// after the call and `r` what it returned.
    spec fn frame_ens(self, post: Self, r: Option<u64>) -> bool;

    fn allocate_frame(&mut self) -> (r: Option<u64>)
        requires
            old(self).frame_req(),
        ensures
            old(self).frame_ens(*final(self), r),
            final(self).frame_req(),
            r matches Some(f) ==> f as int % (PAGE_SIZE as int) == 0,
    ;
}

/// A frame source that has nothing to give.  Mapping through it succeeds
/// only while no new page table is needed.
pub struct EmptyFrameAllocator;

impl FrameSource for EmptyFrameAllocator {
    open spec fn frame_req(self) -> bool {
        true
    }

    open spec fn frame_ens(self, post: Self, r: Option<u64>) -> bool {
        r is None
    }

    fn allocate_frame(&mut self) -> (r: Option<u64>)
        ensures
            old(self).frame_ens(*final(self), r),
            final(self).frame_req(),
            r matches Some(f) ==> f as int % (PAGE_SIZE as int) == 0,
    {
        None
    }
}

/// Hands out the usable frames of the boot memory map, in order, each at
/// most once.  `next` is the position of the next candidate in the derived
/// frame sequence; it only ever grows.
pub struct BootInfoFrameAllocator {
    pub memory_map: MemoryMap,
    pub next: usize,
}

impl BootInfoFrameAllocator {
    pub open spec fn wf(self) -> bool {
        self.memory_map.wf()
    }

    /// The full candidate sequence this allocator walks.
    pub open spec fn frame_seq(self) -> Seq<u64> {
        usable_frames_of(self.memory_map.regions@)
    }

    /// Creates a frame allocator over the given boot memory map.  All
    /// frames the map reports usable must really be unused; the allocator
    /// then never hands out a frame that is reserved, or one frame twice.
    pub fn init(memory_map: MemoryMap) -> (r: Self)
        requires
            memory_map.wf(),
        ensures
            r.wf(),
            r.memory_map == memory_map,
            r.next == 0,
    {
        BootInfoFrameAllocator { memory_map, next: 0 }
    }

    /// The usable frame addresses of the map, in map order.
    pub fn usable_frames(&self) -> (r: Vec<u64>)
        requires
            self.wf(),
        ensures
            r@ =~= self.frame_seq(),
    {
        let mut out: Vec<u64> = Vec::new();
        let n = self.memory_map.regions.len();
        for i in 0..n
            invariant
                n == self.memory_map.regions@.len(),
                self.wf(),
                out@ =~= usable_frames_of(self.memory_map.regions@.take(i as int)),
        {
            let region = self.memory_map.regions[i];
            assert(self.memory_map.regions@[i as int].wf());
            if region.usable {
                let count = (region.end - region.start) / PAGE_SIZE;
                let mut k: u64 = 0;
                while k < count
                    invariant
                        region.wf(),
                        count == ((region.end - region.start) as int) / (PAGE_SIZE as int),
                        0 <= k <= count,
                        out@ =~= usable_frames_of(self.memory_map.regions@.take(i as int))
                            + region_frames(region).take(k as int),
                    decreases count - k,
                {
                    proof {
                        lemma_frame_step_in_region(region, k as int);
                    }
                    out.push(region.start + PAGE_SIZE * k);
                    k = k + 1;
                }
                assert(region_frames(region).take(count as int) =~= region_frames(region));
            }
            proof {
                let regs = self.memory_map.regions@;
                assert(regs.take(i + 1) =~= regs.take(i as int) + seq![regs[i as int]]);
                lemma_usable_frames_of_concat(regs.take(i as int), seq![regs[i as int]]);
                assert(seq![regs[i as int]].drop_first() =~= Seq::<MemoryRegion>::empty());
                assert(usable_frames_of(Seq::<MemoryRegion>::empty()) =~= Seq::<u64>::empty());
                assert(usable_frames_of(seq![regs[i as int]]) =~= (if regs[i as int].usable {
                    region_frames(regs[i as int])
                } else {
                    Seq::empty()
                }));
            }
        }
        proof {
            assert(self.memory_map.regions@.take(n as int) =~= self.memory_map.regions@);
        }
        out
    }

}

impl FrameSource for BootInfoFrameAllocator {
    open spec fn frame_req(self) -> bool {
        self.wf()
    }

    /// Exactly what one allocation does: the map is untouched, the cursor
    /// moves past the candidate it looked at, and the result is the frame
    /// at the old cursor position, or nothing once the sequence is spent.
    open spec fn frame_ens(self, post: Self, r: Option<u64>) -> bool {
        &&& post.memory_map == self.memory_map
        &&& post.next == if self.next < usize::MAX {
            self.next + 1
        } else {
            self.next as int
        }
        &&& r == if self.next < self.frame_seq().len() {
            Some(self.frame_seq()[self.next as int])
        } else {
            Option::<u64>::None
        }
    }

    /// Returns the frame at position `next` of the candidate sequence, or
    /// nothing once the sequence is exhausted; either way the cursor moves
    /// on, so no frame is ever issued twice.
    fn allocate_frame(&mut self) -> (r: Option<u64>)
        ensures
            old(self).frame_ens(*final(self), r),
            final(self).frame_req(),
            r matches Some(f) ==> f as int % (PAGE_SIZE as int) == 0,
    {
        let frames = self.usable_frames();
        let r = if self.next < frames.len() {
            proof {
                lemma_usable_frames(self.memory_map.regions@);
            }
            Some(frames[self.next])
        } else {
            None
        };
        if self.next < usize::MAX {
            self.next = self.next + 1;
        }
        r
    }
}

/// Frame `f` is page-aligned and lies, whole, inside a usable region of
/// the map.
pub open spec fn frame_in_usable_region(regions: Seq<MemoryRegion>, f: u64) -> bool {
    &&& f as int % (PAGE_SIZE as int) == 0
    &&& exists|j: int|
        0 <= j < regions.len() && (#[trigger] regions[j]).usable && regions[j].start <= f && f
            + PAGE_SIZE <= regions[j].end
}

/// Law: over a well-formed memory map the candidate frame sequence is
/// pairwise distinct, and each of its frames lies in a usable region.
/// `allocate_frame` returns the frame at the cursor and the cursor only
/// grows, so any run of allocations yields pairwise distinct frames of
/// usable memory.
pub proof fn lemma_usable_frames(regions: Seq<MemoryRegion>)
    requires
        forall|i: int| 0 <= i < regions.len() ==> (#[trigger] regions[i]).wf(),
        forall|i: int, j: int|
            0 <= i < j < regions.len() ==> (#[trigger] regions[i]).disjoint_from(
                #[trigger] regions[j],
            ),
    ensures
        forall|a: int|
            0 <= a < usable_frames_of(regions).len() ==> frame_in_usable_region(
                regions,
                #[trigger] usable_frames_of(regions)[a],
            ),
        forall|a: int, b: int|
            0 <= a < b < usable_frames_of(regions).len() ==> usable_frames_of(regions)[a]
                != usable_frames_of(regions)[b],
    decreases regions.len(),
{
    let uf = usable_frames_of(regions);
    if regions.len() > 0 {
        let head = regions[0];
        let tail = regions.drop_first();
        let head_frames: Seq<u64> = if head.usable {
            region_frames(head)
        } else {
            Seq::empty()
        };
        let tuf = usable_frames_of(tail);
        let hl = head_frames.len() as int;
        assert(uf =~= head_frames + tuf);
        assert forall|i: int| 0 <= i < tail.len() implies (#[trigger] tail[i]).wf() by {
            assert(regions[i + 1].wf());
        }
        assert forall|i: int, j: int|
            0 <= i < j < tail.len() implies (#[trigger] tail[i]).disjoint_from(
            #[trigger] tail[j],
        ) by {
            assert(regions[i + 1].disjoint_from(regions[j + 1]));
        }
        lemma_usable_frames(tail);
        assert forall|a: int|
            0 <= a < uf.len() implies frame_in_usable_region(regions, #[trigger] uf[a]) by {
            if a < hl {
                lemma_frame_step_in_region(head, a);
                assert(regions[0].usable && regions[0].start <= uf[a] && uf[a] + PAGE_SIZE
                    <= regions[0].end);
            } else {
                assert(frame_in_usable_region(tail, tuf[a - hl]));
                let j = choose|j: int|
                    0 <= j < tail.len() && (#[trigger] tail[j]).usable && tail[j].start <= tuf[a
                        - hl] && tuf[a - hl] + PAGE_SIZE <= tail[j].end;
                assert(regions[j + 1].usable && regions[j + 1].start <= uf[a] && uf[a] + PAGE_SIZE
                    <= regions[j + 1].end);
            }
        }
        assert forall|a: int, b: int| 0 <= a < b < uf.len() implies uf[a] != uf[b] by {
            if b < hl {
                lemma_frame_step_in_region(head, a);
                lemma_frame_step_in_region(head, b);
                assert((PAGE_SIZE as int) * a < (PAGE_SIZE as int) * b) by {
                    vstd::arithmetic::mul::lemma_mul_strict_inequality(a, b, PAGE_SIZE as int);
                }
            } else if a < hl {
                lemma_frame_step_in_region(head, a);
                assert(frame_in_usable_region(tail, tuf[b - hl]));
                let j = choose|j: int|
                    0 <= j < tail.len() && (#[trigger] tail[j]).usable && tail[j].start <= tuf[b
                        - hl] && tuf[b - hl] + PAGE_SIZE <= tail[j].end;
                assert(regions[0].disjoint_from(regions[j + 1]));
            } else {
                assert(tuf[a - hl] != tuf[b - hl]);
            }
        }
    }
}

/// Frame `k` of a region starts and ends inside the region and is aligned.
pub proof fn lemma_frame_step_in_region(r: MemoryRegion, k: int)
    requires
        r.wf(),
        0 <= k < ((r.end - r.start) as int) / (PAGE_SIZE as int),
    ensures
        r.start + (PAGE_SIZE as int) * k + PAGE_SIZE <= r.end,
        (r.start + (PAGE_SIZE as int) * k) as int % (PAGE_SIZE as int) == 0,
{
    let p = PAGE_SIZE as int;
    let len = (r.end - r.start) as int;
    let n = len / p;
    vstd::arithmetic::div_mod::lemma_fundamental_div_mod(len, p);
    vstd::arithmetic::div_mod::lemma_sub_mod_noop(r.end as int, r.start as int, p);
    assert(len % p == 0) by {
        vstd::arithmetic::div_mod::lemma_mod_self_0(p);
        vstd::arithmetic::div_mod::lemma_small_mod(0nat, p as nat);
    }
    assert(len == p * n);
    assert(p * (k + 1) <= p * n) by {
        vstd::arithmetic::mul::lemma_mul_inequality(k + 1, n, p);
    }
    assert(p * (k + 1) == p * k + p) by {
        vstd::arithmetic::mul::lemma_mul_is_distributive_add(p, k, 1);
    }
    assert((r.start + p * k) % p == 0) by {
        vstd::arithmetic::div_mod::lemma_mod_multiples_vanish(k, r.start as int, p);
    }
}

/// Sets up the address space over the active level-4 table.
///
/// The boot layer supplies the two values only it can read: the virtual
/// offset at which all physical memory is mapped, and the physical frame
/// of the active level-4 table.  The mapper starts from that table empty
/// and owns every entry it creates from then on.
pub fn init(physical_memory_offset: u64, level_4_table_frame: u64) -> (r: OffsetPageTable)
    ensures
        r.wf(),
        r.phys_offset == physical_memory_offset,
        r.root == level_4_table_frame,
        forall|p: (int, int, int, int)| #[trigger] r.l1_slot(p) is None,
        r.stale@ =~= Set::<u64>::empty(),
{
    OffsetPageTable::init(physical_memory_offset, level_4_table_frame)
}

/// Address of the VGA text buffer frame that the example mapping targets.
pub const VGA_BUFFER_FRAME: u64 = 0xb8000;

/// Maps the given page to the frame holding the VGA text buffer, present
/// and writable, and invalidates the page's cached translation.  Fails,
/// changing no translation, if the page is already mapped or a needed
/// intermediate table cannot be backed by a frame.
pub fn create_example_mapping<A: FrameSource>(
    page: Page,
    mapper: &mut OffsetPageTable,
    frame_allocator: &mut A,
) -> (r: Result<(), MapToError>)
    requires
        old(mapper).wf(),
        page.wf(),
        old(frame_allocator).frame_req(),
    ensures
        final(mapper).wf(),
        final(frame_allocator).frame_req(),
        match r {
            Ok(()) => {
                &&& old(mapper).l1_slot(crate::paging::page_path(page.start)) is None
                &&& final(mapper).l1_slot(crate::paging::page_path(page.start)) == Some(
                    (VGA_BUFFER_FRAME, PageTableFlags { present: true, writable: true }),
                )
                &&& !final(mapper).stale@.contains(page.start)
                &&& forall|q: (int, int, int, int)|
                    q != crate::paging::page_path(page.start)
                        ==> #[trigger] final(mapper).l1_slot(q) == old(mapper).l1_slot(q)
            },
            Err(e) => {
                &&& (forall|q: (int, int, int, int)| #[trigger]
                    final(mapper).l1_slot(q) == old(mapper).l1_slot(q))
                &&& (e matches MapToError::PageAlreadyMapped { frame } ==> match old(
                    mapper,
                ).l1_slot(crate::paging::page_path(page.start)) {
                    Some((f0, fl0)) => f0 == frame,
                    None => false,
                })
                &&& (e is FrameAllocationFailed ==> old(mapper).l1_slot(
                    crate::paging::page_path(page.start),
                ) is None)
            },
        },
{
    let frame = PhysFrame::containing_address(VGA_BUFFER_FRAME);
    let flags = PageTableFlags { present: true, writable: true };
    proof {
        assert(VGA_BUFFER_FRAME & !0xfff == VGA_BUFFER_FRAME) by (bit_vector);
    }
    match mapper.map_to(page, frame, flags, frame_allocator) {
        Ok(flush) => {
            flush.flush(mapper);
            Ok(())
        },
        Err(e) => Err(e),
    }
}

} // verus!
