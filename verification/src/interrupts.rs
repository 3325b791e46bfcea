//! Trap dispatch: the interrupt descriptor table, the chained interrupt
//! controllers with their acknowledgement protocol, and the handlers.
//!
//! Each external interrupt line walks idle, delivered, handler running,
//! and back to idle on acknowledgement; an acknowledgement must name the
//! line it finishes, exactly once per delivery, or the controller's
//! masking desynchronizes and that device's interrupts silently stop.
//! The handlers return what they would display; reading the keyboard
//! data port and printing are the boot layer's work.

use vstd::prelude::*;

use crate::gdt::DOUBLE_FAULT_IST_INDEX;
use crate::gdt::TaskStateSegment;

verus! {

/// Vector of the breakpoint exception.
pub const BREAKPOINT_VECTOR: u8 = 3;

/// Vector of the double-fault exception.
pub const DOUBLE_FAULT_VECTOR: u8 = 8;

/// Vector base of the primary interrupt controller: its lines sit just
/// past the 32 CPU-reserved exception vectors.
pub const PIC_1_OFFSET: u8 = 32;

/// Vector base of the secondary, chained interrupt controller.
pub const PIC_2_OFFSET: u8 = PIC_1_OFFSET + 8;

/// Number of interrupt vectors.
pub const VECTOR_COUNT: usize = 256;

/// The external interrupt lines this kernel listens to.
#[derive(Clone, Copy, PartialEq, Eq, Structural, Debug)]
pub enum InterruptIndex {
    Timer,
    Keyboard,
}

impl InterruptIndex {
    /// The interrupt vector of this line: the timer is line zero of the
    /// primary controller and the keyboard line one.
    pub fn as_u8(self) -> (r: u8)
        ensures
            self is Timer ==> r == PIC_1_OFFSET,
            self is Keyboard ==> r == PIC_1_OFFSET + 1,
    {
        match self {
            InterruptIndex::Timer => PIC_1_OFFSET,
            InterruptIndex::Keyboard => PIC_1_OFFSET + 1,
        }
    }

    pub fn as_usize(self) -> (r: usize)
        ensures
            self is Timer ==> r == PIC_1_OFFSET,
            self is Keyboard ==> r == PIC_1_OFFSET + 1,
    {
        self.as_u8() as usize
    }
}

/// The handlers this kernel installs.
#[derive(Clone, Copy, PartialEq, Eq, Structural, Debug)]
pub enum HandlerKind {
    Breakpoint,
    DoubleFault,
    Timer,
    Keyboard,
}

/// One installed gate: the handler, and for the double fault the slot of
/// the dedicated stack in the task-state segment's interrupt stack table.
#[derive(Clone, Copy, PartialEq, Eq, Structural, Debug)]
pub struct IdtEntry {
    pub handler: HandlerKind,
    pub stack_index: Option<u16>,
}

/// The interrupt descriptor table: one optional gate per vector.
pub struct InterruptDescriptorTable {
    pub entries: Vec<Option<IdtEntry>>,
}

impl InterruptDescriptorTable {
    pub open spec fn wf(self) -> bool {
        &&& self.entries@.len() == VECTOR_COUNT
        &&& (forall|v: int|
            0 <= v < VECTOR_COUNT ==> match #[trigger] self.entries@[v] {
                Some(e) => match e.stack_index {
                    Some(i) => i < crate::gdt::IST_ENTRIES,
                    None => true,
                },
                None => true,
            })
    }
}

/// Builds the interrupt descriptor table this kernel runs with: the
/// breakpoint handler, the double-fault handler on the dedicated stack,
/// and the timer and keyboard lines of the primary controller.  Every
/// other vector is left empty.  The table must only be loaded after the
/// descriptor table of `gdt::init`, whose task-state segment gives the
/// double-fault stack slot its meaning.
pub fn init_idt() -> (r: InterruptDescriptorTable)
    ensures
        r.wf(),
        r.entries@[BREAKPOINT_VECTOR as int] == Some(
            IdtEntry { handler: HandlerKind::Breakpoint, stack_index: None },
        ),
        r.entries@[DOUBLE_FAULT_VECTOR as int] == Some(
            IdtEntry {
                handler: HandlerKind::DoubleFault,
                stack_index: Some(DOUBLE_FAULT_IST_INDEX),
            },
        ),
        r.entries@[PIC_1_OFFSET as int] == Some(
            IdtEntry { handler: HandlerKind::Timer, stack_index: None },
        ),
        r.entries@[PIC_1_OFFSET as int + 1] == Some(
            IdtEntry { handler: HandlerKind::Keyboard, stack_index: None },
        ),
        forall|v: int|
            0 <= v < VECTOR_COUNT && v != BREAKPOINT_VECTOR as int && v != DOUBLE_FAULT_VECTOR as int
                && v != PIC_1_OFFSET as int && v != PIC_1_OFFSET as int + 1
                ==> #[trigger] r.entries@[v] is None,
{
    let mut entries: Vec<Option<IdtEntry>> = vec![None; 256];
    entries[3] = Some(IdtEntry { handler: HandlerKind::Breakpoint, stack_index: None });
    entries[8] = Some(
        IdtEntry { handler: HandlerKind::DoubleFault, stack_index: Some(DOUBLE_FAULT_IST_INDEX) },
    );
    entries[32] = Some(IdtEntry { handler: HandlerKind::Timer, stack_index: None });
    entries[33] = Some(IdtEntry { handler: HandlerKind::Keyboard, stack_index: None });
    InterruptDescriptorTable { entries }
}

/// Where the CPU takes a trap: which handler runs, and on which stack.
#[derive(Clone, Copy, PartialEq, Eq, Structural, Debug)]
pub struct Dispatch {
    pub handler: HandlerKind,
    pub stack_pointer: u64,
}

/// What the hardware does with a trap on `vector` while the stack
/// pointer is `current_stack`: no gate means an uncontrolled reset; a
/// gate with a stack slot switches to the stack that slot names in the
/// task-state segment, which is how an overflowed kernel stack is left
/// behind before the double-fault handler runs.
pub fn dispatch_trap(
    idt: &InterruptDescriptorTable,
    tss: &TaskStateSegment,
    vector: u8,
    current_stack: u64,
) -> (r: Option<Dispatch>)
    requires
        idt.wf(),
        tss.wf(),
    ensures
        r == match idt.entries@[vector as int] {
            Some(e) => Some(
                Dispatch {
                    handler: e.handler,
                    stack_pointer: match e.stack_index {
                        Some(i) => tss.interrupt_stack_table@[i as int],
                        None => current_stack,
                    },
                },
            ),
            None => Option::<Dispatch>::None,
        },
{
    match idt.entries[vector as usize] {
        Some(e) => {
            let stack_pointer = match e.stack_index {
                Some(i) => tss.interrupt_stack_table[i as usize],
                None => current_stack,
            };
            Some(Dispatch { handler: e.handler, stack_pointer })
        },
        None => None,
    }
}

/// Law: with the table of `init_idt` and a task-state segment whose
/// reserved slot holds the dedicated stack top, a double fault is
/// dispatched to the double-fault handler on that dedicated stack —
/// whatever the overflowed stack pointer was.
pub proof fn lemma_double_fault_isolated(
    idt: InterruptDescriptorTable,
    tss: TaskStateSegment,
    fault_stack_top: u64,
    current_stack: u64,
)
    requires
        idt.wf(),
        tss.wf(),
        idt.entries@[DOUBLE_FAULT_VECTOR as int] == Some(
            IdtEntry {
                handler: HandlerKind::DoubleFault,
                stack_index: Some(DOUBLE_FAULT_IST_INDEX),
            },
        ),
        tss.interrupt_stack_table@[DOUBLE_FAULT_IST_INDEX as int] == fault_stack_top,
    ensures
        match idt.entries@[DOUBLE_FAULT_VECTOR as int] {
            Some(e) => e.handler == HandlerKind::DoubleFault && match e.stack_index {
                Some(i) => tss.interrupt_stack_table@[i as int] == fault_stack_top,
                None => false,
            },
            None => false,
        },
{
}

/// The saved state the CPU hands a handler.
#[derive(Clone, Copy, PartialEq, Eq, Structural, Debug)]
pub struct InterruptStackFrame {
    pub instruction_pointer: u64,
    pub code_segment: u64,
    pub cpu_flags: u64,
    pub stack_pointer: u64,
    pub stack_segment: u64,
}

/// How a trap handler leaves the machine: the breakpoint trap resumes,
/// the double fault halts.
#[derive(Clone, Copy, PartialEq, Eq, Structural, Debug)]
pub enum TrapOutcome {
    Resumed,
    Halted,
}

/// The breakpoint trap is benign: the context is reported for display
/// and execution resumes at the next instruction.
pub fn breakpoint_handler(stack_frame: &InterruptStackFrame) -> (r: (
    TrapOutcome,
    InterruptStackFrame,
))
    ensures
        r.0 is Resumed,
        r.1 == *stack_frame,
{
    (TrapOutcome::Resumed, *stack_frame)
}

/// The double fault is fatal by design: its only realistic causes leave
/// the kernel's state corrupted, so the context is reported and the
/// machine halts.  It runs on the dedicated stack and never resumes.
pub fn double_fault_handler(stack_frame: &InterruptStackFrame, error_code: u64) -> (r: (
    TrapOutcome,
    InterruptStackFrame,
))
    ensures
        r.0 is Halted,
        r.1 == *stack_frame,
{
    (TrapOutcome::Halted, *stack_frame)
}

/// One external interrupt line of the controller: idle until the device
/// raises it, then delivered to the CPU, then in its handler until the
/// handler acknowledges, which alone returns it to idle.
#[derive(Clone, Copy, PartialEq, Eq, Structural, Debug)]
pub enum LineState {
    Idle,
    Delivered,
    HandlerRunning,
}

/// The two chained 8-line controllers, reduced to what this kernel uses:
/// their configured vector offsets and the state of the two lines it
/// listens to.
pub struct ChainedPics {
    pub offset1: u8,
    pub offset2: u8,
    pub timer: LineState,
    pub keyboard: LineState,
}

impl ChainedPics {
    /// Controllers remapped to the given vector bases, all lines idle.
    pub fn new(offset1: u8, offset2: u8) -> (r: ChainedPics)
        ensures
            r.offset1 == offset1,
            r.offset2 == offset2,
            r.timer is Idle,
            r.keyboard is Idle,
    {
        ChainedPics { offset1, offset2, timer: LineState::Idle, keyboard: LineState::Idle }
    }

    /// Whether the controller can deliver an interrupt on this line: the
    /// hardware gates each line until the previous delivery is
    /// acknowledged.
    pub open spec fn can_deliver(self, line: InterruptIndex) -> bool {
        match line {
            InterruptIndex::Timer => self.timer is Idle,
            InterruptIndex::Keyboard => self.keyboard is Idle,
        }
    }

    /// The device raises its line and the controller delivers it to the
    /// CPU.
    pub fn deliver(&mut self, line: InterruptIndex)
        requires
            old(self).can_deliver(line),
        ensures
            final(self).offset1 == old(self).offset1,
            final(self).offset2 == old(self).offset2,
            line is Timer ==> final(self).timer is Delivered && final(self).keyboard == old(
                self,
            ).keyboard,
            line is Keyboard ==> final(self).keyboard is Delivered && final(self).timer == old(
                self,
            ).timer,
    {
        match line {
            InterruptIndex::Timer => {
                self.timer = LineState::Delivered;
            },
            InterruptIndex::Keyboard => {
                self.keyboard = LineState::Delivered;
            },
        }
    }

    /// The CPU enters the line's handler; the line stays gated.
    pub fn begin_handler(&mut self, line: InterruptIndex)
        requires
            match line {
                InterruptIndex::Timer => old(self).timer is Delivered,
                InterruptIndex::Keyboard => old(self).keyboard is Delivered,
            },
        ensures
            final(self).offset1 == old(self).offset1,
            final(self).offset2 == old(self).offset2,
            line is Timer ==> final(self).timer is HandlerRunning && final(self).keyboard == old(
                self,
            ).keyboard,
            line is Keyboard ==> final(self).keyboard is HandlerRunning && final(self).timer
                == old(self).timer,
    {
        match line {
            InterruptIndex::Timer => {
                self.timer = LineState::HandlerRunning;
            },
            InterruptIndex::Keyboard => {
                self.keyboard = LineState::HandlerRunning;
            },
        }
    }

    /// Signals completion of the interrupt whose vector is given.  The
    /// vector must name the line whose handler is running: a wrong or
    /// repeated acknowledgement would desynchronize the controller's
    /// masking and silently stop that device's interrupts, so those
    /// calls are ruled out here.
    pub fn notify_end_of_interrupt(&mut self, vector: u8)
        requires
            vector == old(self).offset1 && old(self).timer is HandlerRunning || vector == old(
                self,
            ).offset1 + 1 && old(self).keyboard is HandlerRunning,
        ensures
            final(self).offset1 == old(self).offset1,
            final(self).offset2 == old(self).offset2,
            vector == old(self).offset1 ==> final(self).timer is Idle && final(self).keyboard
                == old(self).keyboard,
            vector != old(self).offset1 ==> final(self).keyboard is Idle && final(self).timer
                == old(self).timer,
    {
        if vector == self.offset1 {
            self.timer = LineState::Idle;
        } else {
            self.keyboard = LineState::Idle;
        }
    }
}

/// The visible tick the timer handler emits for display.
pub const TIMER_TICK_MARK: char = '.';

/// Handles one timer interrupt: emits the visible tick and acknowledges
/// the timer line — mandatory, exactly once, before returning, or no
/// further interrupt of equal or lower priority would be delivered.
pub fn timer_interrupt_handler(pics: &mut ChainedPics) -> (r: char)
    requires
        old(pics).timer is HandlerRunning,
    ensures
        r == TIMER_TICK_MARK,
        final(pics).timer is Idle,
        final(pics).keyboard == old(pics).keyboard,
        final(pics).offset1 == old(pics).offset1,
        final(pics).offset2 == old(pics).offset2,
{
    let tick = TIMER_TICK_MARK;
    let vector = pics.offset1;
    pics.notify_end_of_interrupt(vector);
    tick
}

/// Handles one keyboard interrupt: decodes the scan code read off the
/// keyboard data port by the boot layer, returns the character to
/// forward for display — or nothing, when the byte completes no
/// character — and acknowledges the keyboard line.
pub fn keyboard_interrupt_handler(
    pics: &mut ChainedPics,
    decoder: &mut crate::keyboard::KeyboardDecoder,
    scancode: u8,
) -> (r: Option<char>)
    requires
        old(pics).keyboard is HandlerRunning,
        old(pics).offset1 < 255,
    ensures
        r == crate::keyboard::decoded_char(crate::keyboard::fed_bytes(*old(decoder)), scancode),
        crate::keyboard::fed_bytes(*final(decoder)) == crate::keyboard::fed_bytes(
            *old(decoder),
        ).push(scancode),
        final(pics).keyboard is Idle,
        final(pics).timer == old(pics).timer,
        final(pics).offset1 == old(pics).offset1,
        final(pics).offset2 == old(pics).offset2,
{
    let key = decoder.feed_byte(scancode);
    let vector = pics.offset1 + 1;
    pics.notify_end_of_interrupt(vector);
    key
}

/// Law: acknowledgement gates delivery one for one.  A line whose
/// handler has acknowledged accepts a new delivery; a line delivered and
/// not yet acknowledged accepts none.  So after the timer handler runs,
/// exactly one next timer interrupt can be delivered, and no second one
/// before that one's handler acknowledges in turn.
pub proof fn lemma_acknowledge_gates_delivery(after_ack: ChainedPics, pending: ChainedPics)
    requires
        after_ack.timer is Idle,
        pending.timer is Delivered || pending.timer is HandlerRunning,
    ensures
        after_ack.can_deliver(InterruptIndex::Timer),
        !pending.can_deliver(InterruptIndex::Timer),
{
}

} // verus!
