//! Segments, trap dispatch, the interrupt controller, and the handlers.

use rust_os::boot::BootSequence;
use rust_os::gdt;
use rust_os::gdt::Descriptor;
use rust_os::gdt::DOUBLE_FAULT_STACK_SIZE;
use rust_os::interrupts::breakpoint_handler;
use rust_os::interrupts::dispatch_trap;
use rust_os::interrupts::double_fault_handler;
use rust_os::interrupts::init_idt;
use rust_os::interrupts::keyboard_interrupt_handler;
use rust_os::interrupts::timer_interrupt_handler;
use rust_os::interrupts::ChainedPics;
use rust_os::interrupts::HandlerKind;
use rust_os::interrupts::InterruptIndex;
use rust_os::interrupts::InterruptStackFrame;
use rust_os::interrupts::LineState;
use rust_os::interrupts::TrapOutcome;
use rust_os::interrupts::PIC_1_OFFSET;
use rust_os::interrupts::PIC_2_OFFSET;
use rust_os::keyboard::KeyboardDecoder;

fn frame() -> InterruptStackFrame {
    InterruptStackFrame {
        instruction_pointer: 0x1234,
        code_segment: 8,
        cpu_flags: 0x202,
        stack_pointer: 0x9000,
        stack_segment: 0,
    }
}

#[test]
fn gdt_holds_code_and_task_state() {
    let (table, tss, selectors) = gdt::init(0x100000, DOUBLE_FAULT_STACK_SIZE);
    assert_eq!(table.entries.len(), 3);
    assert_eq!(table.entries[0], Descriptor::Null);
    assert_eq!(table.entries[selectors.code_selector.index as usize], Descriptor::KernelCodeSegment);
    assert_eq!(table.entries[selectors.tss_selector.index as usize], Descriptor::TssSegment);
    // the reserved slot holds the stack top: x86 stacks grow downward
    assert_eq!(tss.interrupt_stack_table[0], 0x100000 + DOUBLE_FAULT_STACK_SIZE);
    assert_eq!(tss.interrupt_stack_table[1], 0);
}

#[test]
fn interrupt_vectors_sit_past_the_exceptions() {
    assert_eq!(PIC_1_OFFSET, 32);
    assert_eq!(PIC_2_OFFSET, 40);
    assert_eq!(InterruptIndex::Timer.as_u8(), 32);
    assert_eq!(InterruptIndex::Keyboard.as_u8(), 33);
    assert_eq!(InterruptIndex::Keyboard.as_usize(), 33);
}

#[test]
fn idt_dispatches_installed_handlers() {
    let idt = init_idt();
    let (_, tss, _) = gdt::init(0x100000, DOUBLE_FAULT_STACK_SIZE);
    let bp = dispatch_trap(&idt, &tss, 3, 0x9000).expect("breakpoint gate installed");
    assert_eq!(bp.handler, HandlerKind::Breakpoint);
    assert_eq!(bp.stack_pointer, 0x9000);
    let timer = dispatch_trap(&idt, &tss, 32, 0x9000).expect("timer gate installed");
    assert_eq!(timer.handler, HandlerKind::Timer);
    let kb = dispatch_trap(&idt, &tss, 33, 0x9000).expect("keyboard gate installed");
    assert_eq!(kb.handler, HandlerKind::Keyboard);
    assert!(dispatch_trap(&idt, &tss, 99, 0x9000).is_none());
    assert!(dispatch_trap(&idt, &tss, 0, 0x9000).is_none());
}

#[test]
fn double_fault_runs_on_the_dedicated_stack() {
    // a stack overflow leaves the stack pointer somewhere in the guard
    // page; the double-fault gate must switch to the reserved stack
    let idt = init_idt();
    let (_, tss, _) = gdt::init(0x100000, DOUBLE_FAULT_STACK_SIZE);
    let overflowed_stack = 0x5555_0000;
    let d = dispatch_trap(&idt, &tss, 8, overflowed_stack).expect("double-fault gate installed");
    assert_eq!(d.handler, HandlerKind::DoubleFault);
    assert_eq!(d.stack_pointer, 0x100000 + DOUBLE_FAULT_STACK_SIZE);
    assert_ne!(d.stack_pointer, overflowed_stack);
    // and the handler is fatal by design
    let (outcome, reported) = double_fault_handler(&frame(), 0);
    assert_eq!(outcome, TrapOutcome::Halted);
    assert_eq!(reported, frame());
}

#[test]
fn breakpoint_resumes() {
    let (outcome, reported) = breakpoint_handler(&frame());
    assert_eq!(outcome, TrapOutcome::Resumed);
    assert_eq!(reported.instruction_pointer, 0x1234);
}

#[test]
fn timer_acknowledgement_reenables_delivery() {
    let mut pics = ChainedPics::new(PIC_1_OFFSET, PIC_2_OFFSET);
    pics.deliver(InterruptIndex::Timer);
    assert_eq!(pics.timer, LineState::Delivered);
    pics.begin_handler(InterruptIndex::Timer);
    let tick = timer_interrupt_handler(&mut pics);
    assert_eq!(tick, '.');
    // acknowledged: the line is idle again, so exactly one next timer
    // interrupt can be delivered
    assert_eq!(pics.timer, LineState::Idle);
    assert_eq!(pics.keyboard, LineState::Idle);
    pics.deliver(InterruptIndex::Timer);
    assert_eq!(pics.timer, LineState::Delivered);
}

#[test]
fn keyboard_scancode_for_a_decodes_to_a() {
    let mut pics = ChainedPics::new(PIC_1_OFFSET, PIC_2_OFFSET);
    let mut decoder = KeyboardDecoder::new();
    pics.deliver(InterruptIndex::Keyboard);
    pics.begin_handler(InterruptIndex::Keyboard);
    let key = keyboard_interrupt_handler(&mut pics, &mut decoder, 0x1e);
    assert_eq!(key, Some('a'));
    assert_eq!(pics.keyboard, LineState::Idle);
    assert_eq!(pics.timer, LineState::Idle);
}

#[test]
fn keyboard_release_and_digits_decode() {
    let mut pics = ChainedPics::new(PIC_1_OFFSET, PIC_2_OFFSET);
    let mut decoder = KeyboardDecoder::new();
    // key press of the '1' key
    pics.deliver(InterruptIndex::Keyboard);
    pics.begin_handler(InterruptIndex::Keyboard);
    assert_eq!(keyboard_interrupt_handler(&mut pics, &mut decoder, 0x02), Some('1'));
    // its release decodes to no character and is dropped
    pics.deliver(InterruptIndex::Keyboard);
    pics.begin_handler(InterruptIndex::Keyboard);
    assert_eq!(keyboard_interrupt_handler(&mut pics, &mut decoder, 0x82), None);
    assert_eq!(pics.keyboard, LineState::Idle);
}

#[test]
fn boot_steps_in_order() {
    let mut stage = BootSequence::start();
    assert!(!stage.gdt_loaded && !stage.interrupts_enabled);
    stage.gdt_loaded();
    stage.idt_loaded();
    stage.memory_ready();
    stage.heap_ready();
    stage.interrupts_enabled();
    assert!(stage.gdt_loaded);
    assert!(stage.idt_loaded);
    assert!(stage.memory_ready);
    assert!(stage.heap_ready);
    assert!(stage.interrupts_enabled);
}
