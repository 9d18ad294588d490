//! Where the kernel heap lives in virtual memory.

use vstd::prelude::*;

use crate::memory::frame_start;

verus! {

/// Virtual address where the kernel heap starts (a 64-bit address, so held
/// as `u64`).
pub const HEAP_START: u64 = 0x_4444_4444_0000;

/// Size of the kernel heap in bytes.
pub const HEAP_SIZE: u64 = 100 * 1024;

/// The start addresses of the first and the last 4 KiB page that the heap
/// touches.
pub fn heap_page_bounds() -> (pages: (u64, u64))
    ensures
        pages.0 == frame_start(HEAP_START as int),
        pages.1 == frame_start(HEAP_START + HEAP_SIZE - 1),
{
    let heap_start: u64 = HEAP_START;
    let heap_end: u64 = heap_start + HEAP_SIZE - 1;
    (heap_start - heap_start % 4096, heap_end - heap_end % 4096)
}

/// The heap starts on a page boundary and spans 25 whole pages.
pub proof fn lemma_heap_pages()
    ensures
        frame_start(HEAP_START as int) == HEAP_START,
        frame_start(HEAP_START + HEAP_SIZE - 1) == HEAP_START + 24 * 4096,
{
}

} // verus!
