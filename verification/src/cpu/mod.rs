//! Processor tables: the interrupt vectors the kernel uses and the
//! task-state stack reserved for double faults.

pub mod gdt;
pub mod interrupts;
pub mod keyboard;
