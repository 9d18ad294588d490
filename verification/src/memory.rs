//! Handing out physical frames from the memory map that the boot loader
//! reports: one frame after the other, through the usable and
//! ACPI-reclaimable regions in the order the map lists them.

use vstd::prelude::*;

verus! {

/// Size in bytes of a physical frame (a 4 KiB page).
pub const FRAME_SIZE: u64 = 4096;

/// Memory map entry kind: memory that is free to use.
pub const MEMMAP_USABLE: u64 = 0;

/// Memory map entry kind: memory that holds ACPI tables and may be reused.
pub const MEMMAP_ACPI_RECLAIMABLE: u64 = 2;

/// One entry of the boot loader's memory map: `length` bytes from `base`, of
/// the given kind.
#[derive(Copy, Clone, PartialEq, Eq, Structural, Debug)]
pub struct MemoryRegion {
    pub base: u64,
    pub length: u64,
    pub kind: u64,
}

/// Frames are handed out from usable and ACPI-reclaimable regions only.
pub open spec fn allocatable(region: MemoryRegion) -> bool {
    region.kind == MEMMAP_ACPI_RECLAIMABLE || region.kind == MEMMAP_USABLE
}

/// The addresses that a region contributes: `base`, `base + 4096`, ... up
/// to the end of the region; none for a region that is not allocatable.
pub open spec fn region_addresses(region: MemoryRegion) -> Seq<int> {
    if allocatable(region) {
        Seq::new(
            ((region.length + 4095) / 4096) as nat,
            |k: int| region.base + k * 4096,
        )
    } else {
        Seq::empty()
    }
}

/// Address `k` of a region.
pub open spec fn region_address(region: MemoryRegion, k: int) -> int {
    region.base + k * 4096
}

/// The addresses of all regions, region after region.
pub open spec fn frame_addresses(regions: Seq<MemoryRegion>) -> Seq<int>
    decreases regions.len(),
{
    if regions.len() == 0 {
        Seq::empty()
    } else {
        frame_addresses(regions.drop_last()) + region_addresses(regions.last())
    }
}

/// The start of the 4 KiB frame that holds `addr`.
pub open spec fn frame_start(addr: int) -> int {
    addr - addr % 4096
}

/// Finding frame `n` reads regions `0..=i` only while fewer than `n + 1`
/// addresses come before region `i`; the end of every such allocatable
/// region fits in 64 bits, and frame `n`, where there is one, lies below
/// 2^52, the limit of physical addresses.
pub open spec fn frame_lookup_ok(regions: Seq<MemoryRegion>, n: int) -> bool {
    &&& forall|i: int|
        0 <= i < regions.len() && allocatable(regions[i]) && frame_addresses(regions.take(i)).len()
            <= n ==> #[trigger] regions[i].base + regions[i].length <= u64::MAX
    &&& n < frame_addresses(regions).len() ==> frame_addresses(regions)[n] < 0x10_0000_0000_0000
}

/// The frame that lookup `n` finds: the frame holding address `n` of the
/// memory map, if the map has that many.
pub open spec fn nth_frame(regions: Seq<MemoryRegion>, n: int) -> Option<u64> {
    if 0 <= n < frame_addresses(regions).len() {
        Some(frame_start(frame_addresses(regions)[n]) as u64)
    } else {
        None
    }
}

/// The frames of two memory maps one after the other are the frames of the
/// first followed by those of the second.
pub proof fn lemma_frame_addresses_append(a: Seq<MemoryRegion>, b: Seq<MemoryRegion>)
    ensures
        frame_addresses(a + b) == frame_addresses(a) + frame_addresses(b),
    decreases b.len(),
{
    if b.len() == 0 {
        assert(a + b =~= a);
        assert(frame_addresses(a) + frame_addresses(b) =~= frame_addresses(a));
    } else {
        lemma_frame_addresses_append(a, b.drop_last());
        assert((a + b).drop_last() =~= a + b.drop_last());
        assert(frame_addresses(a) + frame_addresses(b.drop_last()) + region_addresses(b.last())
            =~= frame_addresses(a) + (frame_addresses(b.drop_last()) + region_addresses(
            b.last(),
        )));
    }
}

proof fn lemma_take_step(regions: Seq<MemoryRegion>, i: int)
    requires
        0 <= i < regions.len(),
    ensures
        frame_addresses(regions.take(i + 1)) == frame_addresses(regions.take(i))
            + region_addresses(regions[i]),
{
    assert(regions.take(i + 1).drop_last() =~= regions.take(i));
}

proof fn lemma_prefix_index(regions: Seq<MemoryRegion>, i: int, k: int)
    requires
        0 <= i <= regions.len(),
        0 <= k < frame_addresses(regions.take(i)).len(),
    ensures
        k < frame_addresses(regions).len(),
        frame_addresses(regions)[k] == frame_addresses(regions.take(i))[k],
{
    lemma_frame_addresses_append(regions.take(i), regions.skip(i));
    assert(regions.take(i) + regions.skip(i) =~= regions);
}

/// The frame holding address `n` of the memory map: the regions' addresses
/// are counted region by region, 4 KiB apart, and the frame containing
/// address `n` is returned; `None` when the map has fewer addresses.
pub fn nth_frame_start(regions: &[MemoryRegion], n: usize) -> (frame: Option<u64>)
    requires
        frame_lookup_ok(regions@, n as int),
    ensures
        frame == nth_frame(regions@, n as int),
{
    let mut remaining: u64 = n as u64;
    let mut i: usize = 0;
    while i < regions.len()
        invariant
            0 <= i <= regions@.len(),
            frame_lookup_ok(regions@, n as int),
            frame_addresses(regions@.take(i as int)).len() + remaining == n,
        decreases regions@.len() - i,
    {
        let region = regions[i];
        proof {
            lemma_take_step(regions@, i as int);
        }
        if region.kind == MEMMAP_ACPI_RECLAIMABLE || region.kind == MEMMAP_USABLE {
            assert(region.base + region.length <= u64::MAX);
            let count = region.length / FRAME_SIZE + if region.length % FRAME_SIZE != 0 {
                1
            } else {
                0
            };
            assert(count == (region.length + 4095) / 4096);
            if remaining < count {
                assert(remaining * 4096 < region.length) by (nonlinear_arith)
                    requires
                        remaining < count,
                        count == region.length / 4096 + if region.length % 4096 != 0 {
                            1int
                        } else {
                            0
                        },
                ;
                let addr = region.base + remaining * FRAME_SIZE;
                proof {
                    lemma_prefix_index(regions@, i + 1, n as int);
                    assert(frame_addresses(regions@)[n as int] == addr);
                }
                return Some(addr - addr % FRAME_SIZE);
            }
            remaining = remaining - count;
        }
        i += 1;
    }
    proof {
        assert(regions@.take(i as int) =~= regions@);
    }
    None
}

proof fn lemma_later_prefixes_longer(regions: Seq<MemoryRegion>, i: int, j: int)
    requires
        0 <= i <= j <= regions.len(),
    ensures
        frame_addresses(regions.take(i)).len() <= frame_addresses(regions.take(j)).len(),
{
    lemma_frame_addresses_append(regions.take(i), regions.take(j).skip(i));
    assert(regions.take(i) + regions.take(j).skip(i) =~= regions.take(j));
}

/// Whether looking up frame `n` stays within the limits that
/// `nth_frame_start` requires (see `frame_lookup_ok`).
pub fn frame_lookup_is_safe(regions: &[MemoryRegion], n: usize) -> (ok: bool)
    ensures
        ok == frame_lookup_ok(regions@, n as int),
{
    let mut remaining: u64 = n as u64;
    let mut i: usize = 0;
    while i < regions.len()
        invariant
            0 <= i <= regions@.len(),
            frame_addresses(regions@.take(i as int)).len() + remaining == n,
            forall|j: int|
                0 <= j < i && allocatable(regions@[j]) && frame_addresses(regions@.take(j)).len()
                    <= n ==> #[trigger] regions@[j].base + regions@[j].length <= u64::MAX,
        decreases regions@.len() - i,
    {
        let region = regions[i];
        proof {
            lemma_take_step(regions@, i as int);
        }
        if region.kind == MEMMAP_ACPI_RECLAIMABLE || region.kind == MEMMAP_USABLE {
            if region.base > u64::MAX - region.length {
                return false;
            }
            let count = region.length / FRAME_SIZE + if region.length % FRAME_SIZE != 0 {
                1
            } else {
                0
            };
            assert(count == (region.length + 4095) / 4096);
            if remaining < count {
                assert(remaining * 4096 < region.length) by (nonlinear_arith)
                    requires
                        remaining < count,
                        count == region.length / 4096 + if region.length % 4096 != 0 {
                            1int
                        } else {
                            0
                        },
                ;
                let addr = region.base + remaining * FRAME_SIZE;
                proof {
                    lemma_prefix_index(regions@, i + 1, n as int);
                    assert forall|j: int|
                        i < j < regions@.len() implies frame_addresses(regions@.take(j)).len()
                        > n by {
                        lemma_later_prefixes_longer(regions@, i + 1, j);
                    }
                }
                return addr < 0x10_0000_0000_0000;
            }
            remaining = remaining - count;
        }
        i += 1;
    }
    proof {
        assert(regions@.take(i as int) =~= regions@);
    }
    true
}

/// A frame allocator that never has a frame.
pub struct EmptyFrameAllocator;

impl EmptyFrameAllocator {
    /// Never finds a frame.
    pub fn allocate_frame(&mut self) -> (frame: Option<u64>)
        ensures
            frame is None,
    {
        None
    }
}

/// Hands out the frames of the memory map one after the other, counting the
/// frames handed out so far.
pub struct FrameCursor {
    next: usize,
}

impl FrameCursor {
    /// A cursor that has handed out no frame yet.
    pub fn new() -> (cursor: FrameCursor)
        ensures
            cursor.next() == 0,
    {
        FrameCursor { next: 0 }
    }

    /// How many frames have been asked for so far (wrapping around).
    pub closed spec fn next(&self) -> usize {
        self.next
    }

    /// How many frames have been asked for so far (wrapping around).
    pub fn position(&self) -> (n: usize)
        ensures
            n == self.next(),
    {
        self.next
    }

    /// Hands out the next frame of the memory map: the start address of the
    /// frame holding its address number `next()`, or `None` once the map is
    /// used up. The count moves on either way.
    pub fn allocate_frame(&mut self, regions: &[MemoryRegion]) -> (frame: Option<u64>)
        requires
            frame_lookup_ok(regions@, old(self).next() as int),
        ensures
            frame == nth_frame(regions@, old(self).next() as int),
            final(self).next() == if old(self).next() == usize::MAX {
                0
            } else {
                old(self).next() + 1
            },
    {
        let n = self.next;
        self.next = if n == usize::MAX {
            0
        } else {
            n + 1
        };
        nth_frame_start(regions, n)
    }
}

/// A frame handed out is 4 KiB aligned and holds an address of an allocatable
/// region.
pub proof fn lemma_nth_frame_in_region(regions: Seq<MemoryRegion>, n: int)
    requires
        0 <= n < frame_addresses(regions).len(),
    ensures
        exists|i: int, k: int|
            0 <= i < regions.len() && allocatable(regions[i]) && 0 <= k && k * 4096
                < regions[i].length && frame_addresses(regions)[n] == #[trigger] region_address(
                regions[i],
                k,
            ),
        frame_start(frame_addresses(regions)[n]) % 4096 == 0,
        frame_start(frame_addresses(regions)[n]) <= frame_addresses(regions)[n]
            < frame_start(frame_addresses(regions)[n]) + 4096,
    decreases regions.len(),
{
    let prefix = frame_addresses(regions.drop_last());
    let last = regions.last();
    if n < prefix.len() {
        lemma_nth_frame_in_region(regions.drop_last(), n);
        let (i, k) = choose|i: int, k: int|
            0 <= i < regions.drop_last().len() && allocatable(regions.drop_last()[i]) && 0 <= k
                && k * 4096 < regions.drop_last()[i].length && frame_addresses(regions.drop_last())[n]
                == #[trigger] region_address(regions.drop_last()[i], k);
        assert(frame_addresses(regions)[n] == region_address(regions[i], k));
    } else {
        let k = n - prefix.len();
        let i = regions.len() - 1;
        assert(k * 4096 < last.length) by (nonlinear_arith)
            requires
                0 <= k < (last.length + 4095) / 4096,
        ;
        assert(frame_addresses(regions)[n] == region_address(regions[i], k));
    }
}

} // verus!

verus! {

/// The allocatable regions start on frame boundaries and do not overlap.
pub open spec fn regions_aligned_and_disjoint(regions: Seq<MemoryRegion>) -> bool {
    &&& forall|i: int|
        0 <= i < regions.len() && allocatable(regions[i]) ==> #[trigger] regions[i].base % 4096
            == 0
    &&& forall|i: int, j: int|
        0 <= i < j < regions.len() && allocatable(regions[i]) && allocatable(regions[j])
            ==> #[trigger] regions[i].base + regions[i].length <= #[trigger] regions[j].base
            || regions[j].base + regions[j].length <= regions[i].base
}

proof fn lemma_frame_addresses_distinct(regions: Seq<MemoryRegion>)
    requires
        regions_aligned_and_disjoint(regions),
    ensures
        forall|a: int, b: int|
            0 <= a < b < frame_addresses(regions).len() ==> #[trigger] frame_addresses(regions)[a]
                != #[trigger] frame_addresses(regions)[b],
    decreases regions.len(),
{
    if regions.len() > 0 {
        let rest = regions.drop_last();
        let last = regions.last();
        let n = regions.len() - 1;
        lemma_frame_addresses_distinct(rest);
        let prefix = frame_addresses(rest);
        let fa = frame_addresses(regions);
        assert forall|a: int, b: int| 0 <= a < b < fa.len() implies #[trigger] fa[a]
            != #[trigger] fa[b] by {
            if b < prefix.len() {
                assert(fa[a] == prefix[a] && fa[b] == prefix[b]);
            } else if a >= prefix.len() {
                assert(fa[a] == last.base + (a - prefix.len()) * 4096);
                assert(fa[b] == last.base + (b - prefix.len()) * 4096);
            } else {
                lemma_nth_frame_in_region(rest, a);
                let (i, k) = choose|i: int, k: int|
                    0 <= i < rest.len() && allocatable(rest[i]) && 0 <= k && k * 4096
                        < rest[i].length && frame_addresses(rest)[a] == #[trigger] region_address(
                        rest[i],
                        k,
                    );
                let kb = b - prefix.len();
                assert(allocatable(last));
                assert(kb * 4096 < last.length) by (nonlinear_arith)
                    requires
                        0 <= kb < (last.length + 4095) / 4096,
                ;
                assert(fa[b] == last.base + kb * 4096);
                assert(fa[a] == prefix[a]);
                assert(regions[i] == rest[i]);
                assert(regions[n] == last);
                assert(regions[i].base + regions[i].length <= regions[n].base || regions[n].base
                    + regions[n].length <= regions[i].base);
            }
        }
    }
}

/// With frame-aligned, non-overlapping usable regions, no frame is handed
/// out twice: lookups of two different positions give different frames.
pub proof fn lemma_frames_never_repeat(regions: Seq<MemoryRegion>, n1: int, n2: int)
    requires
        regions_aligned_and_disjoint(regions),
        forall|i: int|
            0 <= i < regions.len() && allocatable(regions[i]) ==> #[trigger] regions[i].base
                + regions[i].length <= u64::MAX,
        n1 != n2,
        nth_frame(regions, n1) is Some,
        nth_frame(regions, n2) is Some,
    ensures
        nth_frame(regions, n1) != nth_frame(regions, n2),
{
    let fa = frame_addresses(regions);
    lemma_frame_addresses_distinct(regions);
    assert(fa[n1] != fa[n2]);
    lemma_nth_frame_in_region(regions, n1);
    lemma_nth_frame_in_region(regions, n2);
    let (i1, k1) = choose|i: int, k: int|
        0 <= i < regions.len() && allocatable(regions[i]) && 0 <= k && k * 4096
            < regions[i].length && fa[n1] == #[trigger] region_address(regions[i], k);
    let (i2, k2) = choose|i: int, k: int|
        0 <= i < regions.len() && allocatable(regions[i]) && 0 <= k && k * 4096
            < regions[i].length && fa[n2] == #[trigger] region_address(regions[i], k);
    let b1 = regions[i1].base;
    let b2 = regions[i2].base;
    assert(b1 % 4096 == 0);
    assert(b2 % 4096 == 0);
    assert((b1 + k1 * 4096) % 4096 == 0) by (nonlinear_arith)
        requires
            b1 % 4096 == 0,
            k1 >= 0,
    ;
    assert((b2 + k2 * 4096) % 4096 == 0) by (nonlinear_arith)
        requires
            b2 % 4096 == 0,
            k2 >= 0,
    ;
    assert(frame_start(fa[n1]) == fa[n1]);
    assert(frame_start(fa[n2]) == fa[n2]);
}

} // verus!

verus! {

/// Every frame handed out lies in a region the boot loader marks usable or
/// ACPI-reclaimable: it is the frame holding address `base + 4096 * k` of
/// such a region, with `4096 * k` inside the region.
pub proof fn lemma_frames_come_from_usable_regions(regions: Seq<MemoryRegion>, n: int, frame: u64)
    requires
        nth_frame(regions, n) == Some(frame),
    ensures
        exists|i: int, k: int|
            0 <= i < regions.len() && (regions[i].kind == MEMMAP_USABLE || regions[i].kind
                == MEMMAP_ACPI_RECLAIMABLE) && 0 <= k && k * 4096 < regions[i].length && frame
                == frame_start(#[trigger] region_address(regions[i], k)) as u64,
{
    lemma_nth_frame_in_region(regions, n);
    let (i, k) = choose|i: int, k: int|
        0 <= i < regions.len() && allocatable(regions[i]) && 0 <= k && k * 4096
            < regions[i].length && frame_addresses(regions)[n] == #[trigger] region_address(
            regions[i],
            k,
        );
    assert(regions[i].kind == MEMMAP_USABLE || regions[i].kind == MEMMAP_ACPI_RECLAIMABLE);
}

/// A region of any kind other than usable or ACPI-reclaimable contributes
/// no frame: dropping it from the map leaves the frames as they were.
pub proof fn lemma_other_kinds_give_no_frames(regions: Seq<MemoryRegion>, i: int)
    requires
        0 <= i < regions.len(),
        regions[i].kind != MEMMAP_USABLE,
        regions[i].kind != MEMMAP_ACPI_RECLAIMABLE,
    ensures
        frame_addresses(regions.remove(i)) == frame_addresses(regions),
{
    let pre = regions.take(i);
    let post = regions.skip(i + 1);
    let one = seq![regions[i]];
    assert(regions =~= pre + one + post);
    assert(regions.remove(i) =~= pre + post);
    lemma_frame_addresses_append(pre + one, post);
    lemma_frame_addresses_append(pre, one);
    lemma_frame_addresses_append(pre, post);
    assert(one.drop_last() =~= Seq::<MemoryRegion>::empty());
    assert(one.last() == regions[i]);
    assert(!allocatable(regions[i]));
    assert(region_addresses(regions[i]) =~= Seq::<int>::empty());
    assert(frame_addresses(one.drop_last()) =~= Seq::<int>::empty());
    assert(frame_addresses(one) =~= Seq::<int>::empty());
    assert(frame_addresses(pre) + frame_addresses(one) =~= frame_addresses(pre));
}

} // verus!
