//! The interrupt stack that the task-state segment reserves for double
//! faults.

use vstd::prelude::*;

verus! {

/// Index of the interrupt stack table entry used by the double-fault handler.
pub const DOUBLE_FAULT_IST_INDEX: u16 = 0;

/// Size in bytes of the stack the double-fault handler runs on.
pub const DOUBLE_FAULT_STACK_SIZE: usize = 4096 * 5;

} // verus!
