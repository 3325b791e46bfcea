//! Segment and task-state setup.
//!
//! The global descriptor table is a legacy structure that long mode still
//! needs for two things: a kernel code segment, and a task-state segment
//! whose interrupt stack table reserves a dedicated stack for the
//! double-fault handler.  A stack overflow on the normal kernel stack
//! cannot be handled on that same stack; the CPU switches to the reserved
//! one when it takes the double fault.

use vstd::prelude::*;

verus! {

/// Slot of the interrupt stack table reserved for double faults.
pub const DOUBLE_FAULT_IST_INDEX: u16 = 0;

/// Number of slots in a task-state segment's interrupt stack table.
pub const IST_ENTRIES: usize = 7;

/// Size in bytes of the dedicated double-fault stack.
pub const DOUBLE_FAULT_STACK_SIZE: u64 = 4096 * 5;

/// The task-state segment, reduced to what this kernel reads of it: the
/// interrupt stack table.  A zero entry assigns no stack to that slot.
pub struct TaskStateSegment {
    pub interrupt_stack_table: Vec<u64>,
}

impl TaskStateSegment {
    pub open spec fn wf(self) -> bool {
        self.interrupt_stack_table@.len() == IST_ENTRIES
    }

    /// A task-state segment with no stacks assigned.
    pub fn new() -> (r: Self)
        ensures
            r.wf(),
            forall|i: int| 0 <= i < IST_ENTRIES ==> r.interrupt_stack_table@[i] == 0,
    {
        TaskStateSegment { interrupt_stack_table: vec![0u64; 7] }
    }
}

/// One descriptor of the global descriptor table.
#[derive(Clone, Copy, PartialEq, Eq, Structural, Debug)]
pub enum Descriptor {
    Null,
    KernelCodeSegment,
    TssSegment,
}

/// Selects one descriptor of the table by its position.
#[derive(Clone, Copy, PartialEq, Eq, Structural, Debug)]
pub struct SegmentSelector {
    pub index: u16,
}

/// The global descriptor table: descriptor zero is always the null
/// descriptor.
pub struct GlobalDescriptorTable {
    pub entries: Vec<Descriptor>,
}

impl GlobalDescriptorTable {
    pub open spec fn wf(self) -> bool {
        &&& 1 <= self.entries@.len() <= 8
        &&& self.entries@[0] == Descriptor::Null
    }

    /// A table holding only the null descriptor.
    pub fn new() -> (r: Self)
        ensures
            r.wf(),
            r.entries@ =~= seq![Descriptor::Null],
    {
        GlobalDescriptorTable { entries: vec![Descriptor::Null] }
    }

    /// Appends a descriptor and returns the selector naming it.
    pub fn add_entry(&mut self, descriptor: Descriptor) -> (r: SegmentSelector)
        requires
            old(self).wf(),
            old(self).entries@.len() < 8,
        ensures
            final(self).wf(),
            final(self).entries@ =~= old(self).entries@.push(descriptor),
            r.index == old(self).entries@.len(),
    {
        let index = self.entries.len() as u16;
        self.entries.push(descriptor);
        SegmentSelector { index }
    }
}

/// The selectors the boot code needs after loading the table: where the
/// kernel code segment and the task-state segment sit.
#[derive(Clone, Copy, PartialEq, Eq, Structural, Debug)]
pub struct Selectors {
    pub code_selector: SegmentSelector,
    pub tss_selector: SegmentSelector,
}

/// Builds, once at boot, the descriptor table with a kernel code segment
/// and a task-state segment whose interrupt stack table reserves the
/// dedicated double-fault stack.
///
/// The stack is the region `[stack_start, stack_start + stack_size)`;
/// x86 stacks grow downward, so its top — the end address — goes in the
/// table.  The boot layer must load the returned table and reload the
/// code segment register before the interrupt descriptor table refers to
/// the reserved stack slot, and before interrupts are enabled.
pub fn init(stack_start: u64, stack_size: u64) -> (r: (
    GlobalDescriptorTable,
    TaskStateSegment,
    Selectors,
))
    requires
        stack_start + stack_size <= u64::MAX,
        0 < stack_size,
    ensures
        r.0.wf(),
        r.0.entries@ =~= seq![
            Descriptor::Null,
            Descriptor::KernelCodeSegment,
            Descriptor::TssSegment,
        ],
        r.1.wf(),
        r.1.interrupt_stack_table@[DOUBLE_FAULT_IST_INDEX as int] == stack_start + stack_size,
        forall|i: int|
            0 <= i < IST_ENTRIES && i != DOUBLE_FAULT_IST_INDEX as int
                ==> r.1.interrupt_stack_table@[i] == 0,
        r.2.code_selector.index == 1,
        r.2.tss_selector.index == 2,
        r.0.entries@[r.2.code_selector.index as int] == Descriptor::KernelCodeSegment,
        r.0.entries@[r.2.tss_selector.index as int] == Descriptor::TssSegment,
{
    let mut tss = TaskStateSegment::new();
    let stack_end = stack_start + stack_size;
    tss.interrupt_stack_table[0] = stack_end;
    let mut gdt = GlobalDescriptorTable::new();
    let code_selector = gdt.add_entry(Descriptor::KernelCodeSegment);
    let tss_selector = gdt.add_entry(Descriptor::TssSegment);
    (gdt, tss, Selectors { code_selector, tss_selector })
}

} // verus!
