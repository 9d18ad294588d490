use kernel::cpu::gdt::{DOUBLE_FAULT_IST_INDEX, DOUBLE_FAULT_STACK_SIZE};
use kernel::cpu::interrupts::{InterruptIndex, PIC_1_OFFSET};
use kernel::mem::{heap_page_bounds, HEAP_SIZE, HEAP_START};
use kernel::memory::{
    nth_frame_start, EmptyFrameAllocator, FrameCursor, MemoryRegion, MEMMAP_ACPI_RECLAIMABLE,
    MEMMAP_USABLE,
};

fn sample_map() -> Vec<MemoryRegion> {
    vec![
        MemoryRegion { base: 0x1000, length: 0x3000, kind: MEMMAP_USABLE },
        MemoryRegion { base: 0x9000, length: 0x5000, kind: 1 },
        MemoryRegion { base: 0x10800, length: 0x1001, kind: MEMMAP_ACPI_RECLAIMABLE },
        MemoryRegion { base: 0x20000, length: 0, kind: MEMMAP_USABLE },
        MemoryRegion { base: 0x30000, length: 0x1000, kind: 5 },
    ]
}

#[test]
fn interrupt_vectors() {
    assert_eq!(PIC_1_OFFSET, 32);
    assert_eq!(InterruptIndex::Timer.as_u8(), 32);
    assert_eq!(InterruptIndex::Keyboard.as_u8(), 33);
    assert_eq!(InterruptIndex::Keyboard.as_usize(), 33);
}

#[test]
fn double_fault_stack() {
    assert_eq!(DOUBLE_FAULT_IST_INDEX, 0);
    assert_eq!(DOUBLE_FAULT_STACK_SIZE, 20480);
}

#[test]
fn heap_pages() {
    assert_eq!(HEAP_START, 0x4444_4444_0000);
    assert_eq!(HEAP_SIZE, 102400);
    assert_eq!(heap_page_bounds(), (0x4444_4444_0000, 0x4444_4444_0000 + 24 * 4096));
}

#[test]
fn frames_are_counted_through_usable_regions() {
    let map = sample_map();
    assert_eq!(nth_frame_start(&map, 0), Some(0x1000));
    assert_eq!(nth_frame_start(&map, 1), Some(0x2000));
    assert_eq!(nth_frame_start(&map, 2), Some(0x3000));
    // the reserved region is skipped; an unaligned region's addresses are
    // rounded down to their frames
    assert_eq!(nth_frame_start(&map, 3), Some(0x10000));
    assert_eq!(nth_frame_start(&map, 4), Some(0x11000));
    assert_eq!(nth_frame_start(&map, 5), None);
    assert_eq!(nth_frame_start(&[], 0), None);
}

#[test]
fn cursor_hands_out_frames_in_order() {
    let map = sample_map();
    let mut cursor = FrameCursor::new();
    assert_eq!(cursor.position(), 0);
    let mut got = Vec::new();
    for _ in 0..7 {
        got.push(cursor.allocate_frame(&map));
    }
    assert_eq!(
        got,
        vec![Some(0x1000), Some(0x2000), Some(0x3000), Some(0x10000), Some(0x11000), None, None]
    );
    assert_eq!(cursor.position(), 7);
}

#[test]
fn frames_are_page_aligned() {
    let map = sample_map();
    let mut k = 0;
    while let Some(frame) = nth_frame_start(&map, k) {
        assert_eq!(frame % 4096, 0);
        k += 1;
    }
    assert_eq!(k, 5);
}

#[test]
fn empty_allocator_has_no_frames() {
    let mut a = EmptyFrameAllocator;
    assert_eq!(a.allocate_frame(), None);
}

#[test]
fn aligned_disjoint_map_never_repeats_a_frame() {
    let map = vec![
        MemoryRegion { base: 0x5000, length: 0x2800, kind: MEMMAP_USABLE },
        MemoryRegion { base: 0x1000, length: 0x2000, kind: MEMMAP_ACPI_RECLAIMABLE },
        MemoryRegion { base: 0x2000, length: 0x9000, kind: 1 },
        MemoryRegion { base: 0x8000, length: 0x1000, kind: MEMMAP_USABLE },
    ];
    let mut cursor = FrameCursor::new();
    let mut seen = Vec::new();
    while let Some(frame) = cursor.allocate_frame(&map) {
        assert!(!seen.contains(&frame));
        seen.push(frame);
    }
    assert_eq!(seen, vec![0x5000, 0x6000, 0x7000, 0x1000, 0x2000, 0x8000]);
}
