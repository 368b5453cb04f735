use vstd::prelude::*;

verus! {

pub const PAGE_SIZE: usize = 4096;
/// Where the kernel heap starts and ends.
pub const HEAP_START: usize = 0x0200_0000;
pub const HEAP_END: usize = 0x0400_0000;

/// The kernel's page allocator: it hands out whole pages from the heap in
/// order and never reuses them, and counts the bytes and blocks given out.
pub struct HouseOSAllocator {
    pub heap_start: usize,
    pub heap_ptr: usize,
    pub heap_end: usize,
    pub allocated_bytes: usize,
    pub allocation_count: usize,
}

/// Pages needed for `size` bytes.
pub open spec fn pages_for(size: int) -> int {
    (size + PAGE_SIZE - 1) / PAGE_SIZE as int
}

impl HouseOSAllocator {
    /// The heap's bounds hold the next free address, and no more bytes are
    /// counted as given out than were taken from the heap.
    pub open spec fn wf(&self) -> bool {
        &&& self.heap_start <= self.heap_ptr <= self.heap_end
        &&& self.allocated_bytes <= self.heap_ptr - self.heap_start
    }

    /// An empty heap from `HEAP_START` to `HEAP_END`.
    pub fn new() -> (a: HouseOSAllocator)
        ensures
            a.wf(),
            a.heap_start == HEAP_START && a.heap_ptr == HEAP_START && a.heap_end == HEAP_END,
            a.allocated_bytes == 0 && a.allocation_count == 0,
    {
        HouseOSAllocator {
            heap_start: HEAP_START,
            heap_ptr: HEAP_START,
            heap_end: HEAP_END,
            allocated_bytes: 0,
            allocation_count: 0,
        }
    }

    /// Takes whole pages for `size` bytes: the address of the first, or
    /// `None` when the heap has too few left. The caller clears them.
    pub fn alloc_pages(&mut self, size: usize) -> (r: Option<usize>)
        requires
            old(self).wf(),
            size + PAGE_SIZE + old(self).heap_end <= usize::MAX,
            old(self).allocation_count < usize::MAX,
        ensures
            final(self).wf(),
            final(self).heap_start == old(self).heap_start,
            final(self).heap_end == old(self).heap_end,
            old(self).heap_ptr + pages_for(size as int) * PAGE_SIZE > old(self).heap_end ==> r.is_none()
                && *final(self) == *old(self),
            old(self).heap_ptr + pages_for(size as int) * PAGE_SIZE <= old(self).heap_end ==> r == Some(
                old(self).heap_ptr,
            ) && final(self).heap_ptr == old(self).heap_ptr + pages_for(size as int) * PAGE_SIZE
                && final(self).allocated_bytes == old(self).allocated_bytes + size
                && final(self).allocation_count == old(self).allocation_count + 1,
    {
        let pages = (size + PAGE_SIZE - 1) / PAGE_SIZE;
        proof {
            assert(pages * PAGE_SIZE <= size + PAGE_SIZE - 1);
            assert(pages * PAGE_SIZE >= size);
        }
        if self.heap_ptr + pages * PAGE_SIZE > self.heap_end {
            return None;
        }
        let ptr = self.heap_ptr;
        self.heap_ptr = self.heap_ptr + pages * PAGE_SIZE;
        self.allocated_bytes = self.allocated_bytes + size;
        self.allocation_count = self.allocation_count + 1;
        Some(ptr)
    }

    /// Gives back a block of `size` bytes (`given` false for a null one,
    /// which counts nothing); its pages are not reused.
    pub fn dealloc_pages(&mut self, given: bool, size: usize)
        requires
            old(self).wf(),
            given ==> old(self).allocated_bytes >= size && old(self).allocation_count >= 1,
        ensures
            final(self).wf(),
            !given ==> *final(self) == *old(self),
            given ==> final(self).allocated_bytes == old(self).allocated_bytes - size
                && final(self).allocation_count == old(self).allocation_count - 1
                && final(self).heap_ptr == old(self).heap_ptr && final(self).heap_start == old(self).heap_start
                && final(self).heap_end == old(self).heap_end,
    {
        if given {
            self.allocated_bytes = self.allocated_bytes - size;
            self.allocation_count = self.allocation_count - 1;
        }
    }

    /// Counts one block fewer (none below zero).
    pub fn gc_collect(&mut self)
        ensures
            *final(self) == (HouseOSAllocator {
                allocation_count: if old(self).allocation_count > 0 { (old(self).allocation_count - 1) as usize } else { 0 },
                ..*old(self)
            }),
    {
        self.allocation_count = self.allocation_count.saturating_sub(1);
    }

    /// The bytes given out and the heap's size.
    pub fn get_memory_usage(&self) -> (r: (usize, usize))
        requires
            self.wf(),
        ensures
            r == (self.allocated_bytes, (self.heap_end - self.heap_start) as usize),
    {
        (self.allocated_bytes, self.heap_end - self.heap_start)
    }
}

} // verus!
