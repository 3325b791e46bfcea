//! The virtual address space: a model of the four-level page-table
//! hierarchy and the mapper that extends it.
//!
//! The hierarchy is an arena of fixed-size table nodes addressed by the
//! physical frame each table occupies.  Walking it never leaves the arena:
//! a well-formed hierarchy is a tree whose intermediate entries all point
//! at existing lower-level tables, no two of them at the same one.  The
//! mapper draws frames for new intermediate tables from a `FrameSource`
//! and reports a conflict rather than overwrite an existing mapping.

use vstd::prelude::*;

use crate::memory::FrameSource;
use crate::memory::PAGE_SIZE;

verus! {

/// Access flags of a page-table entry.
#[derive(Clone, Copy, PartialEq, Eq, Structural, Debug)]
pub struct PageTableFlags {
    pub present: bool,
    pub writable: bool,
}

/// One of the 512 slots of a page table: empty, or an address with flags.
/// At levels 4 to 2 the address names a lower-level table; at level 1 it
/// names the mapped data frame.
#[derive(Clone, Copy, PartialEq, Eq, Structural, Debug)]
pub enum PageTableEntry {
    Empty,
    Filled { addr: u64, flags: PageTableFlags },
}

/// One page table of the hierarchy: the physical frame it occupies, its
/// level, and its 512 entries.
pub struct TableNode {
    pub addr: u64,
    pub level: u8,
    pub entries: Vec<PageTableEntry>,
}

/// A page-aligned virtual page in canonical form.
#[derive(Clone, Copy, PartialEq, Eq, Structural, Debug)]
pub struct Page {
    pub start: u64,
}

/// A virtual address is canonical when its top sixteen bits copy bit 47.
pub open spec fn canonical(va: u64) -> bool {
    (va >> 47) == 0 || (va >> 47) == 0x1ffff
}

impl Page {
    pub open spec fn wf(self) -> bool {
        &&& self.start as int % (PAGE_SIZE as int) == 0
        &&& canonical(self.start)
    }

    /// The page holding the given canonical virtual address.
    pub fn containing_address(addr: u64) -> (r: Page)
        requires
            canonical(addr),
        ensures
            r.wf(),
            r.start <= addr < r.start + PAGE_SIZE,
            page_path(r.start) == page_path(addr),
    {
        proof {
            lemma_containing_address(addr);
        }
        Page { start: addr & !0xfff }
    }
}

/// A page-aligned physical frame.
#[derive(Clone, Copy, PartialEq, Eq, Structural, Debug)]
pub struct PhysFrame {
    pub start: u64,
}

impl PhysFrame {
    pub open spec fn wf(self) -> bool {
        self.start as int % (PAGE_SIZE as int) == 0
    }

    /// The frame holding the given physical address.
    pub fn containing_address(addr: u64) -> (r: PhysFrame)
        ensures
            r.wf(),
            r.start <= addr < r.start + PAGE_SIZE,
    {
        proof {
            lemma_containing_address(addr);
        }
        PhysFrame { start: addr & !0xfff }
    }
}

/// Why a mapping request failed: the frame source was exhausted (or
/// offered a frame already holding a table), or the page is already
/// mapped, to the frame carried by the error.
#[derive(Clone, Copy, PartialEq, Eq, Structural, Debug)]
pub enum MapToError {
    FrameAllocationFailed,
    PageAlreadyMapped { frame: u64 },
}

/// Proof of work left over from a successful mapping: the translation the
/// hardware may still have cached for this page must be invalidated before
/// the new mapping is relied on.
#[must_use]
pub struct MapperFlush {
    pub page: u64,
}

/// The four 9-bit table indices of a virtual address, from the level-4
/// index down to the level-1 index.
pub open spec fn l4_index(va: u64) -> int {
    ((va >> 39) & 0x1ff) as int
}

pub open spec fn l3_index(va: u64) -> int {
    ((va >> 30) & 0x1ff) as int
}

pub open spec fn l2_index(va: u64) -> int {
    ((va >> 21) & 0x1ff) as int
}

pub open spec fn l1_index(va: u64) -> int {
    ((va >> 12) & 0x1ff) as int
}

/// The byte offset of a virtual address inside its page.
pub open spec fn page_offset(va: u64) -> int {
    (va & 0xfff) as int
}

/// The walk a virtual address prescribes: one index per level.
pub open spec fn page_path(va: u64) -> (int, int, int, int) {
    (l4_index(va), l3_index(va), l2_index(va), l1_index(va))
}

/// Rounding an address down to its page keeps every table index.
pub proof fn lemma_containing_address(addr: u64)
    ensures
        (addr & !0xfff) as int % (PAGE_SIZE as int) == 0,
        addr & !0xfff <= addr < (addr & !0xfff) + PAGE_SIZE,
        page_path(addr & !0xfff) == page_path(addr),
        canonical(addr) ==> canonical(addr & !0xfff),
{
    assert((addr & !0xfff) % 4096 == 0 && addr & !0xfff <= addr && addr < (addr & !0xfff) + 4096)
        by (bit_vector);
    assert(((addr & !0xfff) >> 39) & 0x1ff == (addr >> 39) & 0x1ff) by (bit_vector);
    assert(((addr & !0xfff) >> 30) & 0x1ff == (addr >> 30) & 0x1ff) by (bit_vector);
    assert(((addr & !0xfff) >> 21) & 0x1ff == (addr >> 21) & 0x1ff) by (bit_vector);
    assert(((addr & !0xfff) >> 12) & 0x1ff == (addr >> 12) & 0x1ff) by (bit_vector);
    assert((addr >> 47 == 0 || addr >> 47 == 0x1ffff) ==> ((addr & !0xfff) >> 47 == 0 || (addr
        & !0xfff) >> 47 == 0x1ffff)) by (bit_vector);
}

/// Table indices are in range of a 512-entry table.
pub proof fn lemma_index_range(va: u64)
    ensures
        0 <= l4_index(va) < 512,
        0 <= l3_index(va) < 512,
        0 <= l2_index(va) < 512,
        0 <= l1_index(va) < 512,
        0 <= page_offset(va) < 4096,
{
    assert((va >> 39) & 0x1ff < 512 && (va >> 30) & 0x1ff < 512 && (va >> 21) & 0x1ff < 512 && (va
        >> 12) & 0x1ff < 512 && va & 0xfff < 4096) by (bit_vector);
}

/// Two distinct canonical page bases differ in at least one table index:
/// the walk decides the page.
pub proof fn lemma_page_path_injective(a: u64, b: u64)
    requires
        a as int % (PAGE_SIZE as int) == 0,
        b as int % (PAGE_SIZE as int) == 0,
        canonical(a),
        canonical(b),
        page_path(a) == page_path(b),
    ensures
        a == b,
{
    assert((a % 4096 == 0 && b % 4096 == 0 && (a >> 47 == 0 || a >> 47 == 0x1ffff) && (b >> 47 == 0
        || b >> 47 == 0x1ffff) && (a >> 39) & 0x1ff == (b >> 39) & 0x1ff && (a >> 30) & 0x1ff == (b
        >> 30) & 0x1ff && (a >> 21) & 0x1ff == (b >> 21) & 0x1ff && (a >> 12) & 0x1ff == (b >> 12)
        & 0x1ff) ==> a == b) by (bit_vector);
}

/// The active address space: the arena of page tables rooted at the
/// level-4 table, and the virtual offset at which all physical memory is
/// reachable, used to read any table frame as a virtual pointer.
///
/// `stale` is the ghost set of pages whose newly written mapping has not
/// yet had its cached translation invalidated: a mapping counts as
/// effective only once its page has left this set.
pub struct OffsetPageTable {
    pub phys_offset: u64,
    pub root: u64,
    pub tables: Vec<TableNode>,
    pub stale: Ghost<Set<u64>>,
}

impl OffsetPageTable {
    /// Whether some table of the arena occupies frame `a`.
    pub open spec fn has_table(self, a: u64) -> bool {
        exists|k: int| 0 <= k < self.tables@.len() && (#[trigger] self.tables@[k]).addr == a
    }

    /// The position of the table occupying frame `a`.
    pub open spec fn idx_of(self, a: u64) -> int {
        choose|k: int| 0 <= k < self.tables@.len() && (#[trigger] self.tables@[k]).addr == a
    }

    /// The table occupying frame `a`.
    pub open spec fn node_at(self, a: u64) -> TableNode {
        self.tables@[self.idx_of(a)]
    }

    /// Well-formedness of the table at position `k`: full size, a level in
    /// range held by the root alone at level 4, intermediate entries that
    /// are present and point at existing tables one level down, and
    /// aligned leaf frames.
    pub open spec fn node_wf(self, k: int) -> bool {
        let n = self.tables@[k];
        &&& n.entries@.len() == 512
        &&& 1 <= n.level <= 4
        &&& (n.level == 4 <==> n.addr == self.root)
        &&& (n.level > 1 ==> forall|e: int|
            0 <= e < 512 ==> match #[trigger] n.entries@[e] {
                PageTableEntry::Filled { addr, flags } => {
                    &&& flags.present
                    &&& self.has_table(addr)
                    &&& self.node_at(addr).level == n.level - 1
                },
                PageTableEntry::Empty => true,
            })
        &&& (n.level == 1 ==> forall|e: int|
            0 <= e < 512 ==> match #[trigger] n.entries@[e] {
                PageTableEntry::Filled { addr, flags } => addr as int % (PAGE_SIZE as int) == 0,
                PageTableEntry::Empty => true,
            })
    }

    /// The arena is a tree: the root is a level-4 table, every table is
    /// well formed, no frame holds two tables, and no two intermediate
    /// entries point at the same table.
    pub open spec fn wf(self) -> bool {
        &&& self.has_table(self.root)
        &&& (forall|k: int| 0 <= k < self.tables@.len() ==> #[trigger] self.node_wf(k))
        &&& (forall|k1: int, k2: int|
            0 <= k1 < k2 < self.tables@.len() ==> (#[trigger] self.tables@[k1]).addr != (
            #[trigger] self.tables@[k2]).addr)
        &&& (forall|k1: int, e1: int, k2: int, e2: int|
            {
                &&& 0 <= k1 < self.tables@.len()
                &&& 0 <= e1 < 512
                &&& 0 <= k2 < self.tables@.len()
                &&& 0 <= e2 < 512
                &&& self.tables@[k1].level > 1
                &&& self.tables@[k2].level > 1
                &&& (#[trigger] self.tables@[k1].entries@[e1]) matches PageTableEntry::Filled {
                    addr: a1,
                    ..
                }
                &&& (#[trigger] self.tables@[k2].entries@[e2]) matches PageTableEntry::Filled {
                    addr: a2,
                    ..
                } && a1 == a2
            } ==> k1 == k2 && e1 == e2)
    }

    /// What one step of the walk reads: the entry at index `i` of the
    /// table in frame `a`, if both exist.
    pub open spec fn walk1(self, a: u64, i: int) -> Option<(u64, PageTableFlags)> {
        if self.has_table(a) && 0 <= i < self.node_at(a).entries@.len() {
            match self.node_at(a).entries@[i] {
                PageTableEntry::Filled { addr, flags } => Some((addr, flags)),
                PageTableEntry::Empty => None,
            }
        } else {
            None
        }
    }

    /// The table one step of the walk descends into.
    pub open spec fn child(self, a: u64, i: int) -> Option<u64> {
        match self.walk1(a, i) {
            Some((c, fl)) => if fl.present {
                Some(c)
            } else {
                None
            },
            None => None,
        }
    }

    /// What the level-1 slot at the end of the given walk holds.
    pub open spec fn l1_slot(self, p: (int, int, int, int)) -> Option<(u64, PageTableFlags)> {
        match self.child(self.root, p.0) {
            Some(t3) => match self.child(t3, p.1) {
                Some(t2) => match self.child(t2, p.2) {
                    Some(t1) => self.walk1(t1, p.3),
                    None => None,
                },
                None => None,
            },
            None => None,
        }
    }

    /// The translation the hardware would perform: the frame and flags the
    /// walk resolves to, if every entry on the way is present.
    pub open spec fn resolve(self, p: (int, int, int, int)) -> Option<(u64, PageTableFlags)> {
        match self.l1_slot(p) {
            Some((f, fl)) => if fl.present {
                Some((f, fl))
            } else {
                None
            },
            None => None,
        }
    }

    /// A table known by position is the table its frame resolves to.
    pub proof fn lemma_node_at(self, k: int)
        requires
            0 <= k < self.tables@.len(),
            forall|k1: int, k2: int|
                0 <= k1 < k2 < self.tables@.len() ==> (#[trigger] self.tables@[k1]).addr != (
                #[trigger] self.tables@[k2]).addr,
        ensures
            self.has_table(self.tables@[k].addr),
            self.idx_of(self.tables@[k].addr) == k,
            self.node_at(self.tables@[k].addr) == self.tables@[k],
    {
        assert(0 <= k < self.tables@.len() && self.tables@[k].addr == self.tables@[k].addr);
        let k2 = self.idx_of(self.tables@[k].addr);
        if k2 != k {
            if k2 < k {
                assert(self.tables@[k2].addr != self.tables@[k].addr);
            } else {
                assert(self.tables@[k].addr != self.tables@[k2].addr);
            }
        }
    }

    /// Finds the arena position of the table occupying frame `a`.
    fn find_table(&self, a: u64) -> (r: Option<usize>)
        ensures
            match r {
                Some(k) => k < self.tables@.len() && self.tables@[k as int].addr == a
                    && self.has_table(a),
                None => !self.has_table(a),
            },
    {
        let n = self.tables.len();
        for k in 0..n
            invariant
                n == self.tables@.len(),
                forall|j: int| 0 <= j < k ==> (#[trigger] self.tables@[j]).addr != a,
        {
            if self.tables[k].addr == a {
                return Some(k);
            }
        }
        None
    }

    /// A fresh address space over an empty level-4 table in `root_frame`,
    /// with all physical memory reachable at `phys_offset`.  Nothing is
    /// mapped yet and no stale translation is outstanding.
    pub fn init(phys_offset: u64, root_frame: u64) -> (r: OffsetPageTable)
        ensures
            r.wf(),
            r.phys_offset == phys_offset,
            r.root == root_frame,
            forall|p: (int, int, int, int)| #[trigger] r.l1_slot(p) is None,
            r.stale@ =~= Set::<u64>::empty(),
    {
        let entries: Vec<PageTableEntry> = vec![PageTableEntry::Empty; 512];
        let node = TableNode { addr: root_frame, level: 4, entries };
        let tables = vec![node];
        let r = OffsetPageTable { phys_offset, root: root_frame, tables, stale: Ghost(Set::empty()) };
        proof {
            assert(r.tables@.len() == 1);
            r.lemma_node_at(0);
            assert forall|p: (int, int, int, int)| #[trigger] r.l1_slot(p) is None by {
                assert(r.walk1(r.root, p.0) is None);
            }
            assert(r.node_wf(0));
        }
        r
    }

    /// Walks all four levels to translate a virtual address, returning the
    /// physical address it is mapped to, or nothing where any entry on the
    /// way is absent.
    pub fn translate_addr(&self, addr: u64) -> (r: Option<u64>)
        requires
            self.wf(),
        ensures
            r == match self.resolve(page_path(addr)) {
                Some((f, fl)) => Some((f + page_offset(addr)) as u64),
                None => Option::<u64>::None,
            },
    {
        proof {
            lemma_index_range(addr);
        }
        let i4 = ((addr >> 39) & 0x1ff) as usize;
        let i3 = ((addr >> 30) & 0x1ff) as usize;
        let i2 = ((addr >> 21) & 0x1ff) as usize;
        let i1 = ((addr >> 12) & 0x1ff) as usize;

        let k4 = match self.find_table(self.root) {
            Some(k) => k,
            None => {
                return None;
            },
        };
        proof {
            self.lemma_node_at(k4 as int);
            assert(self.node_wf(k4 as int));
        }
        let t3 = match self.tables[k4].entries[i4] {
            PageTableEntry::Empty => {
                return None;
            },
            PageTableEntry::Filled { addr: a, flags } => {
                if !flags.present {
                    return None;
                }
                a
            },
        };
        let k3 = match self.find_table(t3) {
            Some(k) => k,
            None => {
                return None;
            },
        };
        proof {
            self.lemma_node_at(k3 as int);
            assert(self.node_wf(k3 as int));
        }
        let t2 = match self.tables[k3].entries[i3] {
            PageTableEntry::Empty => {
                return None;
            },
            PageTableEntry::Filled { addr: a, flags } => {
                if !flags.present {
                    return None;
                }
                a
            },
        };
        let k2 = match self.find_table(t2) {
            Some(k) => k,
            None => {
                return None;
            },
        };
        proof {
            self.lemma_node_at(k2 as int);
            assert(self.node_wf(k2 as int));
        }
        let t1 = match self.tables[k2].entries[i2] {
            PageTableEntry::Empty => {
                return None;
            },
            PageTableEntry::Filled { addr: a, flags } => {
                if !flags.present {
                    return None;
                }
                a
            },
        };
        let k1 = match self.find_table(t1) {
            Some(k) => k,
            None => {
                return None;
            },
        };
        proof {
            self.lemma_node_at(k1 as int);
            assert(self.node_wf(k1 as int));
        }
        match self.tables[k1].entries[i1] {
            PageTableEntry::Empty => None,
            PageTableEntry::Filled { addr: f, flags } => {
                if !flags.present {
                    None
                } else {
                    proof {
                        lemma_aligned_no_offset_overflow(f);
                    }
                    Some(f + (addr & 0xfff))
                }
            },
        }
    }
}

impl OffsetPageTable {
    /// Adding a table in a fresh frame leaves every existing lookup as it
    /// was; the new table is found under its own frame.
    proof fn lemma_push_preserves(pre: Self, post: Self, n: TableNode)
        requires
            forall|k1: int, k2: int|
                0 <= k1 < k2 < pre.tables@.len() ==> (#[trigger] pre.tables@[k1]).addr != (
                #[trigger] pre.tables@[k2]).addr,
            !pre.has_table(n.addr),
            post.tables@ == pre.tables@.push(n),
        ensures
            forall|k1: int, k2: int|
                0 <= k1 < k2 < post.tables@.len() ==> (#[trigger] post.tables@[k1]).addr != (
                #[trigger] post.tables@[k2]).addr,
            forall|a: u64| a != n.addr ==> post.has_table(a) == pre.has_table(a),
            forall|a: u64|
                a != n.addr && pre.has_table(a) ==> #[trigger] post.node_at(a) == pre.node_at(a),
            post.has_table(n.addr),
            post.node_at(n.addr) == n,
            forall|a: u64, i: int|
                a != n.addr ==> #[trigger] post.walk1(a, i) == pre.walk1(a, i),
    {
        let len0 = pre.tables@.len() as int;
        assert forall|k1: int, k2: int|
            0 <= k1 < k2 < post.tables@.len() implies (#[trigger] post.tables@[k1]).addr != (
        #[trigger] post.tables@[k2]).addr by {
            if k2 == len0 {
                assert(pre.tables@[k1].addr != n.addr);
            }
        }
        assert(post.tables@[len0].addr == n.addr);
        post.lemma_node_at(len0);
        assert forall|a: u64| a != n.addr && pre.has_table(a) implies #[trigger] post.node_at(a)
            == pre.node_at(a) by {
            let k = pre.idx_of(a);
            pre.lemma_node_at(k);
            post.lemma_node_at(k);
        }
        assert forall|a: u64| a != n.addr implies post.has_table(a) == pre.has_table(a) by {
            if post.has_table(a) {
                let k = post.idx_of(a);
                assert(0 <= k < post.tables@.len() && post.tables@[k].addr == a);
                assert(k != len0);
                assert(pre.tables@[k].addr == a);
            }
            if pre.has_table(a) {
                let k = pre.idx_of(a);
                assert(0 <= k < pre.tables@.len() && pre.tables@[k].addr == a);
                assert(post.tables@[k].addr == a);
            }
        }
        assert forall|a: u64, i: int| a != n.addr implies #[trigger] post.walk1(a, i) == pre.walk1(
            a,
            i,
        ) by {
            if pre.has_table(a) {
                assert(post.node_at(a) == pre.node_at(a));
            }
        }
    }

    /// Rewriting one entry of one table changes that single lookup alone.
    proof fn lemma_update_entry_preserves(pre: Self, post: Self, k: int, idx: int)
        requires
            forall|k1: int, k2: int|
                0 <= k1 < k2 < pre.tables@.len() ==> (#[trigger] pre.tables@[k1]).addr != (
                #[trigger] pre.tables@[k2]).addr,
            0 <= k < pre.tables@.len(),
            0 <= idx < pre.tables@[k].entries@.len(),
            post.tables@.len() == pre.tables@.len(),
            forall|j: int| 0 <= j < pre.tables@.len() && j != k ==> post.tables@[j] == pre.tables@[j],
            post.tables@[k].addr == pre.tables@[k].addr,
            post.tables@[k].level == pre.tables@[k].level,
            post.tables@[k].entries@.len() == pre.tables@[k].entries@.len(),
            forall|e: int|
                0 <= e < pre.tables@[k].entries@.len() && e != idx ==> post.tables@[k].entries@[e]
                    == pre.tables@[k].entries@[e],
        ensures
            forall|k1: int, k2: int|
                0 <= k1 < k2 < post.tables@.len() ==> (#[trigger] post.tables@[k1]).addr != (
                #[trigger] post.tables@[k2]).addr,
            forall|a: u64| post.has_table(a) == pre.has_table(a),
            forall|a: u64|
                a != pre.tables@[k].addr && pre.has_table(a) ==> #[trigger] post.node_at(a)
                    == pre.node_at(a),
            post.has_table(pre.tables@[k].addr),
            post.node_at(pre.tables@[k].addr) == post.tables@[k],
            pre.node_at(pre.tables@[k].addr) == pre.tables@[k],
            forall|a: u64, i: int|
                !(a == pre.tables@[k].addr && i == idx) ==> #[trigger] post.walk1(a, i)
                    == pre.walk1(a, i),
    {
        assert forall|k1: int, k2: int|
            0 <= k1 < k2 < post.tables@.len() implies (#[trigger] post.tables@[k1]).addr != (
        #[trigger] post.tables@[k2]).addr by {
            assert(pre.tables@[k1].addr != pre.tables@[k2].addr);
            assert(post.tables@[k1].addr == pre.tables@[k1].addr);
            assert(post.tables@[k2].addr == pre.tables@[k2].addr);
        }
        assert forall|a: u64| post.has_table(a) == pre.has_table(a) by {
            if pre.has_table(a) {
                let j = pre.idx_of(a);
                assert(post.tables@[j].addr == a);
            }
            if post.has_table(a) {
                let j = post.idx_of(a);
                assert(pre.tables@[j].addr == a);
            }
        }
        pre.lemma_node_at(k);
        post.lemma_node_at(k);
        assert forall|a: u64|
            a != pre.tables@[k].addr && pre.has_table(a) implies #[trigger] post.node_at(a)
            == pre.node_at(a) by {
            let j = pre.idx_of(a);
            pre.lemma_node_at(j);
            post.lemma_node_at(j);
            assert(j != k);
        }
        assert forall|a: u64, i: int|
            !(a == pre.tables@[k].addr && i == idx) implies #[trigger] post.walk1(a, i)
            == pre.walk1(a, i) by {
            if pre.has_table(a) {
                if a == pre.tables@[k].addr {
                    assert(post.node_at(a) == post.tables@[k]);
                    assert(pre.node_at(a) == pre.tables@[k]);
                } else {
                    assert(post.node_at(a) == pre.node_at(a));
                }
            }
        }
    }

    /// The root of a well-formed arena is its level-4 table.
    pub proof fn lemma_root_level(self)
        requires
            self.wf(),
        ensures
            self.has_table(self.root),
            self.node_at(self.root).level == 4,
    {
        let k = self.idx_of(self.root);
        self.lemma_node_at(k);
        assert(self.node_wf(k));
    }

    /// Descending one step from an intermediate table lands on an existing
    /// table one level down.
    pub proof fn lemma_child_level(self, a: u64, i: int)
        requires
            self.wf(),
            self.node_at(a).level > 1,
            self.child(a, i) is Some,
        ensures
            self.has_table(self.child(a, i)->Some_0),
            self.node_at(self.child(a, i)->Some_0).level == self.node_at(a).level - 1,
    {
        let k = self.idx_of(a);
        self.lemma_node_at(k);
        assert(self.node_wf(k));
        assert(self.node_at(a).entries@[i] matches PageTableEntry::Filled { .. });
    }

    /// No two walk steps descend into the same table: the parent entry of
    /// a table is unique.
    pub proof fn lemma_child_injective(self, a: u64, i: int, b: u64, j: int)
        requires
            self.wf(),
            self.has_table(a),
            self.has_table(b),
            self.node_at(a).level > 1,
            self.node_at(b).level > 1,
            self.child(a, i) is Some,
            self.child(a, i) == self.child(b, j),
        ensures
            a == b,
            i == j,
    {
        let ka = self.idx_of(a);
        let kb = self.idx_of(b);
        self.lemma_node_at(ka);
        self.lemma_node_at(kb);
        assert(self.node_wf(ka));
        assert(self.node_wf(kb));
        assert(self.tables@[ka].entries@[i] matches PageTableEntry::Filled { .. });
        assert(self.tables@[kb].entries@[j] matches PageTableEntry::Filled { .. });
    }

    /// One walk step was redirected from an empty entry into a fresh empty
    /// table: no level-1 lookup changes anywhere.
    proof fn lemma_created_step_preserves_slots(s0: Self, s1: Self, parent: u64, idx: int, c: u64)
        requires
            s0.wf(),
            s1.wf(),
            s0.root == s1.root,
            s0.has_table(parent),
            s0.node_at(parent).level > 1,
            s0.walk1(parent, idx) is None,
            !s0.has_table(c),
            forall|a: u64, i: int|
                !(a == parent && i == idx) ==> #[trigger] s1.walk1(a, i) == s0.walk1(a, i),
            forall|i: int| #[trigger] s1.walk1(c, i) is None,
            s1.child(parent, idx) == Some(c),
        ensures
            forall|q: (int, int, int, int)| #[trigger] s1.l1_slot(q) == s0.l1_slot(q),
    {
        assert forall|q: (int, int, int, int)| #[trigger] s1.l1_slot(q) == s0.l1_slot(q) by {
            s0.lemma_root_level();
            let root = s0.root;
            if parent == root && q.0 == idx {
                assert(s0.l1_slot(q) is None);
                assert(s1.child(root, q.0) == Some(c));
                assert(s1.walk1(c, q.1) is None);
                assert(s1.l1_slot(q) is None);
            } else {
                assert(s1.walk1(root, q.0) == s0.walk1(root, q.0));
                match s0.child(root, q.0) {
                    None => {},
                    Some(a3) => {
                        s0.lemma_child_level(root, q.0);
                        if parent == a3 && q.1 == idx {
                            assert(s0.l1_slot(q) is None);
                            assert(s1.child(a3, q.1) == Some(c));
                            assert(s1.walk1(c, q.2) is None);
                            assert(s1.l1_slot(q) is None);
                        } else {
                            assert(s1.walk1(a3, q.1) == s0.walk1(a3, q.1));
                            match s0.child(a3, q.1) {
                                None => {},
                                Some(a2) => {
                                    s0.lemma_child_level(a3, q.1);
                                    if parent == a2 && q.2 == idx {
                                        assert(s0.l1_slot(q) is None);
                                        assert(s1.child(a2, q.2) == Some(c));
                                        assert(s1.walk1(c, q.3) is None);
                                        assert(s1.l1_slot(q) is None);
                                    } else {
                                        assert(s1.walk1(a2, q.2) == s0.walk1(a2, q.2));
                                        match s0.child(a2, q.2) {
                                            None => {},
                                            Some(a1) => {
                                                s0.lemma_child_level(a2, q.2);
                                                assert(s0.node_at(a1).level == 1);
                                                assert(a1 != parent);
                                                assert(s1.walk1(a1, q.3) == s0.walk1(a1, q.3));
                                            },
                                        }
                                    }
                                },
                            }
                        }
                    },
                }
            }
        }
    }

    /// After pushing a fresh empty table and pointing the empty parent
    /// entry at it, the arena is well formed again, that one lookup now
    /// descends into the new table, and every other lookup is unchanged.
    proof fn lemma_ensure_child_created(
        self,
        pre: Self,
        mid: Self,
        n: TableNode,
        parent: u64,
        kp: int,
        idx: int,
        f: u64,
    )
        requires
            pre.wf(),
            0 <= kp < pre.tables@.len(),
            pre.tables@[kp].addr == parent,
            pre.node_at(parent).level > 1,
            0 <= idx < 512,
            pre.tables@[kp].entries@[idx] == PageTableEntry::Empty,
            !pre.has_table(f),
            n.addr == f,
            n.level == pre.tables@[kp].level - 1,
            n.entries@.len() == 512,
            forall|e: int| 0 <= e < 512 ==> n.entries@[e] == PageTableEntry::Empty,
            mid.tables@ == pre.tables@.push(n),
            mid.phys_offset == pre.phys_offset,
            mid.root == pre.root,
            mid.stale == pre.stale,
            self.tables@.len() == mid.tables@.len(),
            forall|j: int|
                0 <= j < mid.tables@.len() && j != kp ==> self.tables@[j] == mid.tables@[j],
            self.tables@[kp].addr == mid.tables@[kp].addr,
            self.tables@[kp].level == mid.tables@[kp].level,
            self.tables@[kp].entries@.len() == mid.tables@[kp].entries@.len(),
            forall|e: int|
                0 <= e < 512 && e != idx ==> self.tables@[kp].entries@[e]
                    == mid.tables@[kp].entries@[e],
            self.tables@[kp].entries@[idx] == (PageTableEntry::Filled {
                addr: f,
                flags: PageTableFlags { present: true, writable: true },
            }),
            self.phys_offset == mid.phys_offset,
            self.root == mid.root,
            self.stale == mid.stale,
        ensures
            self.wf(),
            self.child(parent, idx) == Some(f),
            self.has_table(f),
            self.node_at(f).level == pre.node_at(parent).level - 1,
            forall|a: u64, i: int|
                !(a == parent && i == idx) ==> #[trigger] self.walk1(a, i) == pre.walk1(a, i),
            pre.walk1(parent, idx) is None,
            forall|i: int| #[trigger] self.walk1(f, i) is None,
            forall|a: u64|
                pre.has_table(a) ==> #[trigger] self.has_table(a) && self.node_at(a).level
                    == pre.node_at(a).level,
    {
        let len0 = pre.tables@.len() as int;
        pre.lemma_node_at(kp);
        assert(pre.node_wf(kp));
        assert(mid.tables@[kp] == pre.tables@[kp]);
        Self::lemma_push_preserves(pre, mid, n);
        Self::lemma_update_entry_preserves(mid, self, kp, idx);
        assert forall|a: u64| pre.has_table(a) implies #[trigger] self.has_table(a)
            && self.node_at(a).level == pre.node_at(a).level by {
            assert(a != f);
            assert(mid.has_table(a) && mid.node_at(a) == pre.node_at(a));
            if a == parent {
                assert(pre.node_at(a) == pre.tables@[kp]);
                assert(self.node_at(a) == self.tables@[kp]);
            } else {
                assert(self.node_at(a) == mid.node_at(a));
            }
        }
        assert(mid.node_at(f) == n);
        assert(f != parent);
        self.lemma_node_at(kp);
        self.lemma_node_at(len0);
        assert(self.tables@[len0] == n);
        assert(self.node_at(f) == n);
        assert(self.node_at(parent) == self.tables@[kp]);

        // Every lookup other than the parent entry is as it was, and the
        // new table answers every lookup with nothing.
        assert forall|a: u64, i: int|
            !(a == parent && i == idx) implies #[trigger] self.walk1(a, i) == pre.walk1(a, i) by {
            if a == f {
                assert(self.walk1(a, i) == mid.walk1(a, i));
                if 0 <= i < 512 {
                    assert(n.entries@[i] == PageTableEntry::Empty);
                }
                assert(self.walk1(a, i) is None);
                assert(!pre.has_table(a));
                assert(pre.walk1(a, i) is None);
            } else {
                assert(self.walk1(a, i) == mid.walk1(a, i));
                assert(mid.walk1(a, i) == pre.walk1(a, i));
            }
        }
        assert forall|i: int| #[trigger] self.walk1(f, i) is None by {
            if 0 <= i < 512 {
                assert(n.entries@[i] == PageTableEntry::Empty);
            }
        }
        assert(self.walk1(parent, idx) == Some(
            (f, PageTableFlags { present: true, writable: true }),
        ));

        // The arena is still a tree of well-formed tables.
        assert(self.has_table(self.root) && self.root != f) by {
            assert(pre.has_table(pre.root));
        }
        assert forall|k: int| 0 <= k < self.tables@.len() implies #[trigger] self.node_wf(k) by {
            assert(pre.has_table(pre.root));
            if k == len0 {
                assert(self.tables@[k] == n);
                assert(1 <= n.level <= 3);
                assert(n.addr != self.root);
            } else {
                assert(pre.node_wf(k));
                let pn = pre.tables@[k];
                assert(self.tables@[k].addr == pn.addr && self.tables@[k].level == pn.level
                    && self.tables@[k].entries@.len() == 512);
                assert forall|e: int|
                    0 <= e < 512 && self.tables@[k].level > 1 implies match #[trigger] self.tables@[k].entries@[e] {
                    PageTableEntry::Filled { addr, flags } => {
                        &&& flags.present
                        &&& self.has_table(addr)
                        &&& self.node_at(addr).level == self.tables@[k].level - 1
                    },
                    PageTableEntry::Empty => true,
                } by {
                    if k == kp && e == idx {
                        assert(self.node_at(f).level == self.tables@[k].level - 1);
                    } else {
                        assert(self.tables@[k].entries@[e] == pn.entries@[e]);
                        match pn.entries@[e] {
                            PageTableEntry::Filled { addr, flags } => {
                                assert(pre.has_table(addr));
                                assert(addr != f);
                                assert(pre.node_at(addr).level == pn.level - 1);
                                if addr == parent {
                                    assert(self.node_at(addr).level == pre.node_at(addr).level);
                                } else {
                                    assert(self.node_at(addr) == pre.node_at(addr));
                                }
                                assert(self.has_table(addr));
                            },
                            PageTableEntry::Empty => {},
                        }
                    }
                }
                assert forall|e: int|
                    0 <= e < 512 && self.tables@[k].level == 1 implies match #[trigger] self.tables@[k].entries@[e] {
                    PageTableEntry::Filled { addr, flags } => addr as int % (PAGE_SIZE as int)
                        == 0,
                    PageTableEntry::Empty => true,
                } by {
                    if !(k == kp && e == idx) {
                        assert(self.tables@[k].entries@[e] == pn.entries@[e]);
                    }
                    assert(self.tables@[k].level == 1 ==> k != kp);
                }
            }
        }

        // No two intermediate entries point at the same table: the only
        // new pointer leads to the fresh frame, which nothing else names.
        assert forall|k1: int, e1: int, k2: int, e2: int|
            {
                &&& 0 <= k1 < self.tables@.len()
                &&& 0 <= e1 < 512
                &&& 0 <= k2 < self.tables@.len()
                &&& 0 <= e2 < 512
                &&& self.tables@[k1].level > 1
                &&& self.tables@[k2].level > 1
                &&& (#[trigger] self.tables@[k1].entries@[e1]) matches PageTableEntry::Filled {
                    addr: a1,
                    ..
                }
                &&& (#[trigger] self.tables@[k2].entries@[e2]) matches PageTableEntry::Filled {
                    addr: a2,
                    ..
                } && a1 == a2
            } implies k1 == k2 && e1 == e2 by {
            let x1 = self.tables@[k1].entries@[e1];
            let x2 = self.tables@[k2].entries@[e2];
            if k1 == len0 || k2 == len0 {
                // the fresh table is empty: no pointer starts there
            } else {
                let is_new1 = k1 == kp && e1 == idx;
                let is_new2 = k2 == kp && e2 == idx;
                if is_new1 && is_new2 {
                } else if is_new1 {
                    assert(self.tables@[k2].entries@[e2] == pre.tables@[k2].entries@[e2]);
                    assert(pre.node_wf(k2));
                    match pre.tables@[k2].entries@[e2] {
                        PageTableEntry::Filled { addr, .. } => {
                            assert(pre.has_table(addr));
                        },
                        PageTableEntry::Empty => {},
                    }
                } else if is_new2 {
                    assert(self.tables@[k1].entries@[e1] == pre.tables@[k1].entries@[e1]);
                    assert(pre.node_wf(k1));
                    match pre.tables@[k1].entries@[e1] {
                        PageTableEntry::Filled { addr, .. } => {
                            assert(pre.has_table(addr));
                        },
                        PageTableEntry::Empty => {},
                    }
                } else {
                    assert(self.tables@[k1].entries@[e1] == pre.tables@[k1].entries@[e1]);
                    assert(self.tables@[k2].entries@[e2] == pre.tables@[k2].entries@[e2]);
                }
            }
        }
    }

    /// Makes the walk able to descend from the table in `parent` at index
    /// `idx`: returns the existing child there, or creates a fresh empty
    /// table one level down, in a frame drawn from `frame_allocator`, and
    /// points the entry at it.
    fn ensure_child<A: FrameSource>(
        &mut self,
        parent: u64,
        idx: usize,
        frame_allocator: &mut A,
    ) -> (r: Result<u64, MapToError>)
        requires
            old(self).wf(),
            old(self).has_table(parent),
            old(self).node_at(parent).level > 1,
            idx < 512,
            old(frame_allocator).frame_req(),
        ensures
            final(self).wf(),
            final(frame_allocator).frame_req(),
            final(self).phys_offset == old(self).phys_offset,
            final(self).root == old(self).root,
            final(self).stale == old(self).stale,
            forall|a: u64|
                old(self).has_table(a) ==> #[trigger] final(self).has_table(a)
                    && final(self).node_at(a).level == old(self).node_at(a).level,
            match r {
                Ok(c) => {
                    &&& final(self).child(parent, idx as int) == Some(c)
                    &&& final(self).has_table(c)
                    &&& final(self).node_at(c).level == old(self).node_at(parent).level - 1
                    &&& (forall|a: u64, i: int|
                        !(a == parent && i == idx as int) ==> #[trigger] final(self).walk1(a, i)
                            == old(self).walk1(a, i))
                    &&& match old(self).walk1(parent, idx as int) {
                        Some((c0, fl)) => c0 == c && *final(self) == *old(self),
                        None => {
                            &&& !old(self).has_table(c)
                            &&& (forall|i: int| #[trigger] final(self).walk1(c, i) is None)
                        },
                    }
                },
                Err(e) => {
                    &&& e == MapToError::FrameAllocationFailed
                    &&& *final(self) == *old(self)
                    &&& old(self).walk1(parent, idx as int) is None
                },
            },
    {
        let kp = match self.find_table(parent) {
            Some(k) => k,
            None => {
                proof {
                    assert(false);
                }
                return Err(MapToError::FrameAllocationFailed);
            },
        };
        proof {
            self.lemma_node_at(kp as int);
            assert(self.node_wf(kp as int));
        }
        match self.tables[kp].entries[idx] {
            PageTableEntry::Filled { addr: c, flags } => {
                proof {
                    assert(self.node_at(parent).entries@[idx as int]
                        == PageTableEntry::Filled { addr: c, flags });
                }
                Ok(c)
            },
            PageTableEntry::Empty => {
                let f = match frame_allocator.allocate_frame() {
                    Some(f) => f,
                    None => {
                        return Err(MapToError::FrameAllocationFailed);
                    },
                };
                if self.find_table(f).is_some() {
                    return Err(MapToError::FrameAllocationFailed);
                }
                let ghost pre = *self;
                let entries: Vec<PageTableEntry> = vec![PageTableEntry::Empty; 512];
                let level = self.tables[kp].level - 1;
                let node = TableNode { addr: f, level, entries };
                self.tables.push(node);
                let ghost mid = *self;
                self.tables[kp].entries[idx] = PageTableEntry::Filled {
                    addr: f,
                    flags: PageTableFlags { present: true, writable: true },
                };
                proof {
                    self.lemma_ensure_child_created(
                        pre,
                        mid,
                        mid.tables@[pre.tables@.len() as int],
                        parent,
                        kp as int,
                        idx as int,
                        f,
                    );
                }
                Ok(f)
            },
        }
    }
}

impl OffsetPageTable {
    /// Establishes the mapping from `page` to `frame` with the given
    /// flags, creating any missing intermediate tables with frames drawn
    /// off `frame_allocator`.  A page that is already mapped is reported,
    /// never overwritten; failure changes no translation.  On success
    /// every other translation is as it was, and the returned flush must
    /// run before the new mapping counts as effective.
    #[verifier::rlimit(50)]
    pub fn map_to<A: FrameSource>(
        &mut self,
        page: Page,
        frame: PhysFrame,
        flags: PageTableFlags,
        frame_allocator: &mut A,
    ) -> (r: Result<MapperFlush, MapToError>)
        requires
            old(self).wf(),
            page.wf(),
            frame.wf(),
            old(frame_allocator).frame_req(),
        ensures
            final(self).wf(),
            final(frame_allocator).frame_req(),
            final(self).phys_offset == old(self).phys_offset,
            final(self).root == old(self).root,
            match r {
                Ok(flush) => {
                    &&& flush.page == page.start
                    &&& old(self).l1_slot(page_path(page.start)) is None
                    &&& final(self).l1_slot(page_path(page.start)) == Some((frame.start, flags))
                    &&& (forall|q: (int, int, int, int)|
                        q != page_path(page.start) ==> #[trigger] final(self).l1_slot(q) == old(
                            self,
                        ).l1_slot(q))
                    &&& final(self).stale@ == old(self).stale@.insert(page.start)
                },
                Err(MapToError::PageAlreadyMapped { frame: f }) => {
                    &&& (match old(self).l1_slot(page_path(page.start)) {
                        Some((f0, fl0)) => f0 == f,
                        None => false,
                    })
                    &&& (forall|q: (int, int, int, int)| #[trigger]
                        final(self).l1_slot(q) == old(self).l1_slot(q))
                    &&& final(self).stale == old(self).stale
                },
                Err(MapToError::FrameAllocationFailed) => {
                    &&& old(self).l1_slot(page_path(page.start)) is None
                    &&& (forall|q: (int, int, int, int)| #[trigger]
                        final(self).l1_slot(q) == old(self).l1_slot(q))
                    &&& final(self).stale == old(self).stale
                },
            },
    {
        proof {
            lemma_index_range(page.start);
            old(self).lemma_root_level();
        }
        let i4 = ((page.start >> 39) & 0x1ff) as usize;
        let i3 = ((page.start >> 30) & 0x1ff) as usize;
        let i2 = ((page.start >> 21) & 0x1ff) as usize;
        let i1 = ((page.start >> 12) & 0x1ff) as usize;
        let ghost p = page_path(page.start);
        let ghost s0 = *self;
        let root = self.root;

        let t3 = match self.ensure_child(root, i4, frame_allocator) {
            Ok(c) => c,
            Err(e) => {
                proof {
                    assert(s0.l1_slot(p) is None);
                }
                return Err(e);
            },
        };
        let ghost s1 = *self;
        proof {
            if s0.walk1(root, i4 as int) is None {
                Self::lemma_created_step_preserves_slots(s0, s1, root, i4 as int, t3);
            }
            assert(forall|q: (int, int, int, int)| #[trigger] s1.l1_slot(q) == s0.l1_slot(q));
            s1.lemma_root_level();
            assert(s1.node_at(t3).level == 3);
            assert(t3 != root);
        }

        let t2 = match self.ensure_child(t3, i3, frame_allocator) {
            Ok(c) => c,
            Err(e) => {
                proof {
                    assert(s1.child(root, i4 as int) == Some(t3));
                    assert(s1.l1_slot(p) is None);
                    assert(s0.l1_slot(p) is None);
                }
                return Err(e);
            },
        };
        let ghost s2 = *self;
        proof {
            if s1.walk1(t3, i3 as int) is None {
                Self::lemma_created_step_preserves_slots(s1, s2, t3, i3 as int, t2);
            }
            assert(forall|q: (int, int, int, int)| #[trigger] s2.l1_slot(q) == s1.l1_slot(q));
            s2.lemma_root_level();
            assert(s2.node_at(t3).level == 3);
            assert(s2.node_at(t2).level == 2);
            assert(t2 != root && t2 != t3 && t3 != root);
            assert(s2.walk1(root, i4 as int) == s1.walk1(root, i4 as int));
            assert(s2.child(root, i4 as int) == Some(t3));
            assert(s2.child(t3, i3 as int) == Some(t2));
        }

        let t1 = match self.ensure_child(t2, i2, frame_allocator) {
            Ok(c) => c,
            Err(e) => {
                proof {
                    assert(s2.l1_slot(p) is None);
                    assert(s0.l1_slot(p) is None);
                }
                return Err(e);
            },
        };
        let ghost s3 = *self;
        proof {
            if s2.walk1(t2, i2 as int) is None {
                Self::lemma_created_step_preserves_slots(s2, s3, t2, i2 as int, t1);
            }
            assert(forall|q: (int, int, int, int)| #[trigger] s3.l1_slot(q) == s2.l1_slot(q));
            s3.lemma_root_level();
            assert(s3.node_at(t3).level == 3);
            assert(s3.node_at(t2).level == 2);
            assert(s3.node_at(t1).level == 1);
            assert(t1 != root && t1 != t3 && t1 != t2 && t2 != root && t2 != t3 && t3 != root);
            assert(s3.walk1(root, i4 as int) == s2.walk1(root, i4 as int));
            assert(s3.walk1(t3, i3 as int) == s2.walk1(t3, i3 as int));
            assert(s3.child(root, i4 as int) == Some(t3));
            assert(s3.child(t3, i3 as int) == Some(t2));
            assert(s3.child(t2, i2 as int) == Some(t1));
        }

        let k1 = match self.find_table(t1) {
            Some(k) => k,
            None => {
                proof {
                    assert(false);
                }
                return Err(MapToError::FrameAllocationFailed);
            },
        };
        proof {
            self.lemma_node_at(k1 as int);
            assert(self.node_wf(k1 as int));
        }
        match self.tables[k1].entries[i1] {
            PageTableEntry::Filled { addr: f0, flags: fl0 } => {
                proof {
                    assert(s3.walk1(t1, i1 as int) == Some((f0, fl0)));
                    assert(s3.l1_slot(p) == Some((f0, fl0)));
                    assert(s0.l1_slot(p) == Some((f0, fl0)));
                }
                Err(MapToError::PageAlreadyMapped { frame: f0 })
            },
            PageTableEntry::Empty => {
                self.tables[k1].entries[i1] = PageTableEntry::Filled {
                    addr: frame.start,
                    flags,
                };
                proof {
                    self.stale@ = self.stale@.insert(page.start);
                }
                let ghost s4 = *self;
                proof {
                    Self::lemma_update_entry_preserves(s3, s4, k1 as int, i1 as int);
                    assert(s4.node_at(t1) == s4.tables@[k1 as int]);
                    assert(s4.walk1(t1, i1 as int) == Some((frame.start, flags)));

                    // the walk to the target page still runs through the
                    // same three intermediate tables
                    assert(s4.walk1(root, i4 as int) == s3.walk1(root, i4 as int));
                    assert(s4.walk1(t3, i3 as int) == s3.walk1(t3, i3 as int));
                    assert(s4.walk1(t2, i2 as int) == s3.walk1(t2, i2 as int));
                    assert(s4.child(root, i4 as int) == Some(t3));
                    assert(s4.child(t3, i3 as int) == Some(t2));
                    assert(s4.child(t2, i2 as int) == Some(t1));
                    assert(s4.l1_slot(p) == Some((frame.start, flags)));
                    assert(s3.walk1(t1, i1 as int) is None);
                    assert(s3.l1_slot(p) is None);
                    assert(s0.l1_slot(p) is None);

                    // the arena is still a tree of well-formed tables
                    assert forall|k: int| 0 <= k < s4.tables@.len() implies #[trigger] s4.node_wf(
                        k,
                    ) by {
                        assert(s3.node_wf(k));
                        let pn = s3.tables@[k];
                        if k != k1 {
                            assert(s4.tables@[k] == pn);
                        }
                        assert forall|e: int|
                            0 <= e < 512 && s4.tables@[k].level > 1 implies match #[trigger] s4.tables@[k].entries@[e] {
                            PageTableEntry::Filled { addr, flags: efl } => {
                                &&& efl.present
                                &&& s4.has_table(addr)
                                &&& s4.node_at(addr).level == s4.tables@[k].level - 1
                            },
                            PageTableEntry::Empty => true,
                        } by {
                            assert(s4.tables@[k].entries@[e] == pn.entries@[e]);
                            match pn.entries@[e] {
                                PageTableEntry::Filled { addr, flags: efl } => {
                                    assert(s3.has_table(addr));
                                    if addr == t1 {
                                        assert(s4.node_at(addr).level == pn.level - 1);
                                    } else {
                                        assert(s4.node_at(addr) == s3.node_at(addr));
                                    }
                                    assert(s4.has_table(addr));
                                },
                                PageTableEntry::Empty => {},
                            }
                        }
                        assert forall|e: int|
                            0 <= e < 512 && s4.tables@[k].level == 1 implies match #[trigger] s4.tables@[k].entries@[e] {
                            PageTableEntry::Filled { addr, flags: efl } => addr as int % (
                            PAGE_SIZE as int) == 0,
                            PageTableEntry::Empty => true,
                        } by {
                            if !(k == k1 && e == i1) {
                                assert(s4.tables@[k].entries@[e] == pn.entries@[e]);
                            }
                        }
                    }
                    assert(s4.has_table(s4.root)) by {
                        assert(s3.has_table(s3.root));
                    }
                    assert forall|ka: int, e1: int, kb: int, e2: int|
                        {
                            &&& 0 <= ka < s4.tables@.len()
                            &&& 0 <= e1 < 512
                            &&& 0 <= kb < s4.tables@.len()
                            &&& 0 <= e2 < 512
                            &&& s4.tables@[ka].level > 1
                            &&& s4.tables@[kb].level > 1
                            &&& (#[trigger] s4.tables@[ka].entries@[e1]) matches PageTableEntry::Filled {
                                addr: a1,
                                ..
                            }
                            &&& (#[trigger] s4.tables@[kb].entries@[e2]) matches PageTableEntry::Filled {
                                addr: a2,
                                ..
                            } && a1 == a2
                        } implies ka == kb && e1 == e2 by {
                        assert(s3.tables@[k1 as int].level == 1);
                        assert(ka != k1 && kb != k1);
                        assert(s4.tables@[ka].entries@[e1] == s3.tables@[ka].entries@[e1]);
                        assert(s4.tables@[kb].entries@[e2] == s3.tables@[kb].entries@[e2]);
                    }
                    assert(s4.wf());

                    // no other translation moved
                    assert forall|q: (int, int, int, int)|
                        q != p implies #[trigger] s4.l1_slot(q) == s3.l1_slot(q) by {
                        assert(s4.walk1(root, q.0) == s3.walk1(root, q.0));
                        match s3.child(root, q.0) {
                            None => {},
                            Some(b3) => {
                                s3.lemma_child_level(root, q.0);
                                assert(b3 != t1);
                                assert(s4.walk1(b3, q.1) == s3.walk1(b3, q.1));
                                match s3.child(b3, q.1) {
                                    None => {},
                                    Some(b2) => {
                                        s3.lemma_child_level(b3, q.1);
                                        assert(b2 != t1);
                                        assert(s4.walk1(b2, q.2) == s3.walk1(b2, q.2));
                                        match s3.child(b2, q.2) {
                                            None => {},
                                            Some(b1) => {
                                                s3.lemma_child_level(b2, q.2);
                                                if b1 == t1 {
                                                    s3.lemma_child_injective(
                                                        b2,
                                                        q.2,
                                                        t2,
                                                        i2 as int,
                                                    );
                                                    s3.lemma_child_injective(
                                                        b3,
                                                        q.1,
                                                        t3,
                                                        i3 as int,
                                                    );
                                                    s3.lemma_child_injective(
                                                        root,
                                                        q.0,
                                                        root,
                                                        i4 as int,
                                                    );
                                                    assert(q.3 != i1 as int);
                                                    assert(s4.walk1(t1, q.3) == s3.walk1(
                                                        t1,
                                                        q.3,
                                                    ));
                                                } else {
                                                    assert(s4.walk1(b1, q.3) == s3.walk1(
                                                        b1,
                                                        q.3,
                                                    ));
                                                }
                                            },
                                        }
                                    },
                                }
                            },
                        }
                    }
                }
                Ok(MapperFlush { page: page.start })
            },
        }
    }
}

impl OffsetPageTable {
    /// Only the tables and the root decide the walk: states sharing them
    /// resolve every lookup alike, whatever translations are still cached.
    pub proof fn lemma_walk_state(a: Self, b: Self)
        requires
            a.tables@ == b.tables@,
            a.root == b.root,
            a.wf(),
        ensures
            b.wf(),
            forall|q: (int, int, int, int)| #[trigger] b.l1_slot(q) == a.l1_slot(q),
    {
        assert forall|x: u64| a.has_table(x) == b.has_table(x) by {
            if a.has_table(x) {
                let k = a.idx_of(x);
                assert(b.tables@[k].addr == x);
            }
            if b.has_table(x) {
                let k = b.idx_of(x);
                assert(a.tables@[k].addr == x);
            }
        }
        assert forall|x: u64| a.has_table(x) implies #[trigger] b.node_at(x) == a.node_at(x) by {
            let ka = a.idx_of(x);
            let kb = b.idx_of(x);
            assert(a.tables@[ka].addr == x && b.tables@[kb].addr == x);
            if ka != kb {
                assert(a.tables@[ka].addr != a.tables@[kb].addr);
            }
        }
        assert forall|x: u64, i: int| #[trigger] b.walk1(x, i) == a.walk1(x, i) by {
            if a.has_table(x) {
                assert(b.node_at(x) == a.node_at(x));
            }
        }
        assert forall|k: int| 0 <= k < b.tables@.len() implies #[trigger] b.node_wf(k) by {
            assert(a.node_wf(k));
            assert forall|e: int|
                0 <= e < 512 && b.tables@[k].level > 1 implies match #[trigger] b.tables@[k].entries@[e] {
                PageTableEntry::Filled { addr, flags } => {
                    &&& flags.present
                    &&& b.has_table(addr)
                    &&& b.node_at(addr).level == b.tables@[k].level - 1
                },
                PageTableEntry::Empty => true,
            } by {
                match a.tables@[k].entries@[e] {
                    PageTableEntry::Filled { addr, flags } => {
                        assert(a.has_table(addr));
                        assert(b.node_at(addr) == a.node_at(addr));
                    },
                    PageTableEntry::Empty => {},
                }
            }
        }
        assert(b.wf());
        assert forall|q: (int, int, int, int)| #[trigger] b.l1_slot(q) == a.l1_slot(q) by {
            assert(b.walk1(b.root, q.0) == a.walk1(a.root, q.0));
            match a.child(a.root, q.0) {
                None => {},
                Some(b3) => {
                    assert(b.walk1(b3, q.1) == a.walk1(b3, q.1));
                    match a.child(b3, q.1) {
                        None => {},
                        Some(b2) => {
                            assert(b.walk1(b2, q.2) == a.walk1(b2, q.2));
                            match a.child(b2, q.2) {
                                None => {},
                                Some(b1) => {
                                    assert(b.walk1(b1, q.3) == a.walk1(b1, q.3));
                                },
                            }
                        },
                    }
                },
            }
        }
    }
}

impl MapperFlush {
    /// Invalidates the translation the hardware may still hold for this
    /// page: only then is the new mapping effective.
    pub fn flush(self, mapper: &mut OffsetPageTable)
        requires
            old(mapper).wf(),
        ensures
            final(mapper).wf(),
            final(mapper).phys_offset == old(mapper).phys_offset,
            final(mapper).root == old(mapper).root,
            final(mapper).tables@ == old(mapper).tables@,
            final(mapper).stale@ == old(mapper).stale@.remove(self.page),
            forall|q: (int, int, int, int)| #[trigger]
                final(mapper).l1_slot(q) == old(mapper).l1_slot(q),
    {
        proof {
            mapper.stale@ = mapper.stale@.remove(self.page);
            OffsetPageTable::lemma_walk_state(*old(mapper), *mapper);
        }
    }
}

/// Law: once a page is mapped to a frame with present flags, translating
/// any virtual address inside that page resolves to the frame's base plus
/// the address's offset within the page.
pub proof fn lemma_translate_after_map(
    s: OffsetPageTable,
    page: Page,
    frame: PhysFrame,
    flags: PageTableFlags,
    va: u64,
)
    requires
        s.wf(),
        page.wf(),
        frame.wf(),
        flags.present,
        s.l1_slot(page_path(page.start)) == Some((frame.start, flags)),
        page.start <= va < page.start + PAGE_SIZE,
    ensures
        page_path(va) == page_path(page.start),
        s.resolve(page_path(va)) == Some((frame.start, flags)),
        page_offset(va) == va - page.start,
{
    let p = page.start;
    assert((p % 4096 == 0 && va >= p && va - p < 4096) ==> ((va >> 39) & 0x1ff == (p >> 39) & 0x1ff
        && (va >> 30) & 0x1ff == (p >> 30) & 0x1ff && (va >> 21) & 0x1ff == (p >> 21) & 0x1ff && (
    va >> 12) & 0x1ff == (p >> 12) & 0x1ff && (va & 0xfff) == va - p)) by (bit_vector);
}

/// An aligned frame base leaves room for any in-page offset.
pub proof fn lemma_aligned_no_offset_overflow(f: u64)
    requires
        f as int % (PAGE_SIZE as int) == 0,
    ensures
        f + 4095 <= u64::MAX,
{
    assert(f % 4096 == 0 ==> f <= 0xffff_ffff_ffff_f000) by (bit_vector);
}

} // verus!
