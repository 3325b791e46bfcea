//! Core of a minimal freestanding kernel, modelled over plain values so that
//! every rule it enforces is stated in a contract and proved.
//!
//! The library covers physical frame allocation, virtual-to-physical page
//! mapping, the bump heap allocator, the segment/task-state setup that
//! reserves a dedicated double-fault stack, and trap dispatch with the
//! interrupt controller's acknowledgement protocol.  The thin layer that
//! touches real hardware (port reads, register loads, the CPU halt) lives
//! outside the library and hands it plain values.

pub mod allocator;
pub mod boot;
pub mod gdt;
pub mod interrupts;
pub mod keyboard;
pub mod memory;
pub mod paging;
