//! The one-time boot sequence.
//!
//! Initialization order is load-bearing: the descriptor table must be
//! loaded, and the code segment reloaded, before the interrupt
//! descriptor table refers to the dedicated fault stack; the mapper must
//! exist before the heap region can be backed; and only with the heap
//! ready may interrupts be enabled.  This state machine makes each step
//! demand the ones it rests on.

use vstd::prelude::*;

verus! {

/// Which boot steps have completed.  Each step's function requires the
/// steps it depends on; re-running a step is harmless and changes
/// nothing it does not own.
#[derive(Clone, Copy, PartialEq, Eq, Structural, Debug)]
pub struct BootSequence {
    pub gdt_loaded: bool,
    pub idt_loaded: bool,
    pub memory_ready: bool,
    pub heap_ready: bool,
    pub interrupts_enabled: bool,
}

impl BootSequence {
    /// The machine as the bootloader hands it over: nothing set up.
    pub fn start() -> (r: BootSequence)
        ensures
            r == (BootSequence {
                gdt_loaded: false,
                idt_loaded: false,
                memory_ready: false,
                heap_ready: false,
                interrupts_enabled: false,
            }),
    {
        BootSequence {
            gdt_loaded: false,
            idt_loaded: false,
            memory_ready: false,
            heap_ready: false,
            interrupts_enabled: false,
        }
    }

    /// The descriptor table is loaded and the code segment reloaded:
    /// the dedicated fault stack exists from here on.
    pub fn gdt_loaded(&mut self)
        ensures
            *final(self) == (BootSequence { gdt_loaded: true, ..*old(self) }),
    {
        self.gdt_loaded = true;
    }

    /// The interrupt descriptor table is loaded.  It names the fault
    /// stack slot, so the descriptor table must already be in place.
    pub fn idt_loaded(&mut self)
        requires
            old(self).gdt_loaded,
        ensures
            *final(self) == (BootSequence { idt_loaded: true, ..*old(self) }),
    {
        self.idt_loaded = true;
    }

    /// Mapper and frame allocator stand: the address space can grow.
    pub fn memory_ready(&mut self)
        requires
            old(self).gdt_loaded,
            old(self).idt_loaded,
        ensures
            *final(self) == (BootSequence { memory_ready: true, ..*old(self) }),
    {
        self.memory_ready = true;
    }

    /// The heap region is backed and the allocator initialized.  Before
    /// this, no allocation is allowed anywhere in the kernel.
    pub fn heap_ready(&mut self)
        requires
            old(self).memory_ready,
        ensures
            *final(self) == (BootSequence { heap_ready: true, ..*old(self) }),
    {
        self.heap_ready = true;
    }

    /// Interrupts go live: every handler and the stack it may switch to
    /// must exist by now, and the heap the handlers' diagnostics lean on
    /// must be usable.
    pub fn interrupts_enabled(&mut self)
        requires
            old(self).gdt_loaded,
            old(self).idt_loaded,
            old(self).heap_ready,
        ensures
            *final(self) == (BootSequence { interrupts_enabled: true, ..*old(self) }),
    {
        self.interrupts_enabled = true;
    }
}

} // verus!
