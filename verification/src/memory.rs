//! Physical memory: choosing the heap region, handing out page frames, and the frames that
//! back the heap.
use vstd::prelude::*;

verus! {

/// Size of a page frame.
pub const FRAME_SIZE: u64 = 4096;

/// Physical addresses fit in 52 bits.
pub const PHYS_LIMIT: u64 = 0x10_0000_0000_0000;

/// A region of the boot memory map: `start..end`, and whether it is free for use.
#[derive(Clone, Copy, PartialEq, Eq, Structural, Debug)]
pub struct MemoryRegion {
    pub start: u64,
    pub end: u64,
    pub usable: bool,
}

/// Hands out consecutive page frames from an address on.
pub struct BootInfoFrameAllocator {
    pub next_free: u64,
}

/// The start of the frame containing `a`.
pub open spec fn frame_of(a: int) -> int {
    a - a % 4096
}

/// The usable part of region `r` above `kernel_end`, as (start, size), if any.
pub open spec fn usable_part(r: MemoryRegion, kernel_end: u64) -> Option<(u64, u64)> {
    let start = if r.start > kernel_end { r.start } else { kernel_end };
    if !r.usable || start >= r.end {
        None
    } else {
        Some((start, (r.end - start) as u64))
    }
}

/// The largest usable part among the first `n` regions (the first of equal sizes), with
/// size 0 when there is none.
pub open spec fn best_part(rs: Seq<MemoryRegion>, kernel_end: u64, n: int) -> (u64, u64)
    decreases n,
{
    if n <= 0 {
        (0, 0)
    } else {
        let b = best_part(rs, kernel_end, n - 1);
        match usable_part(rs[n - 1], kernel_end) {
            Some((s, z)) => if z > b.1 {
                (s, z)
            } else {
                b
            },
            None => b,
        }
    }
}

/// The heap region: the largest usable memory above `kernel_end`, when it has at least a
/// mebibyte.
pub fn largest_heap_region_after(regions: &[MemoryRegion], kernel_end: u64) -> (r: Option<(u64, u64)>)
    ensures
        ({
            let b = best_part(regions@, kernel_end, regions@.len() as int);
            r == if b.1 >= 1024 * 1024 {
                Some(b)
            } else {
                None
            }
        }),
{
    let mut best_start: u64 = 0;
    let mut best_size: u64 = 0;
    let mut i: usize = 0;
    while i < regions.len()
        invariant
            i <= regions@.len(),
            (best_start, best_size) == best_part(regions@, kernel_end, i as int),
        decreases regions@.len() - i,
    {
        let region = regions[i];
        if region.usable {
            let start = if region.start > kernel_end { region.start } else { kernel_end };
            if start < region.end {
                let size = region.end - start;
                if size > best_size {
                    best_start = start;
                    best_size = size;
                }
            }
        }
        i += 1;
    }
    if best_size >= 1024 * 1024 {
        Some((best_start, best_size))
    } else {
        None
    }
}

impl BootInfoFrameAllocator {
    /// An allocator starting at the second frame (address 0x1000).
    pub fn init() -> (a: Self)
        ensures
            a.next_free == 0x1000,
    {
        BootInfoFrameAllocator { next_free: 0x1000 }
    }

    /// An allocator starting at `start`.
    pub fn with_start(start: u64) -> (a: Self)
        ensures
            a.next_free == start,
    {
        BootInfoFrameAllocator { next_free: start }
    }

    /// The frame that contains the next free address; the next free address moves on by one
    /// frame.
    pub fn allocate_frame(&mut self) -> (f: Option<u64>)
        requires
            old(self).next_free + FRAME_SIZE < PHYS_LIMIT,
        ensures
            f == Some(frame_of(old(self).next_free as int) as u64),
            final(self).next_free == old(self).next_free + FRAME_SIZE,
    {
        let frame = self.next_free - self.next_free % FRAME_SIZE;
        self.next_free = self.next_free + FRAME_SIZE;
        Some(frame)
    }
}

/// The frames that back a heap of `size` bytes at physical address `start`: every frame
/// from the one containing the first byte to the one containing the last.
pub fn heap_frames(start: u64, size: u64) -> (fs: Vec<u64>)
    requires
        size >= 1,
        start + size + FRAME_SIZE < PHYS_LIMIT,
    ensures
        fs@.len() == (frame_of(start + size - 1) - frame_of(start as int)) / 4096 + 1,
        forall|k: int| 0 <= k < fs@.len() ==> #[trigger] fs@[k] == frame_of(start as int) + k * 4096,
{
    let first = start - start % FRAME_SIZE;
    let last_byte = start + size - 1;
    let last = last_byte - last_byte % FRAME_SIZE;
    let mut fs: Vec<u64> = Vec::new();
    let mut frame = first;
    assert(first % 4096 == 0 && last % 4096 == 0 && first <= last) by {
        assert(first == frame_of(start as int));
        assert(last == frame_of(last_byte as int));
    }
    while frame <= last
        invariant
            first <= frame,
            frame % 4096 == 0,
            first % 4096 == 0,
            last % 4096 == 0,
            first <= last,
            frame <= last + 4096,
            last + 4096 < PHYS_LIMIT,
            first == frame_of(start as int),
            fs@.len() == (frame - first) / 4096,
            forall|k: int| 0 <= k < fs@.len() ==> #[trigger] fs@[k] == first + k * 4096,
        decreases last + 4096 - frame,
    {
        fs.push(frame);
        frame = frame + FRAME_SIZE;
    }
    assert(frame == last + 4096);
    fs
}

} // verus!
