//! Physical memory: a bump allocator of 4 KiB pages over a fixed pool, and the interface
//! drivers allocate through.
use vstd::prelude::*;

verus! {

pub const PAGE_SIZE: usize = 4096;
pub const MEMORY_POOL_SIZE: usize = 1048576;

/// Page allocation and virtual-to-physical address mapping, as drivers need them. Addresses are plain
/// numbers.
pub trait PhysicalMemory {
    /// The address of `page_count` fresh contiguous pages, if there is room.
    fn alloc_pages(&mut self, page_count: usize) -> Option<usize>;

    /// The physical address of a virtual one.
    fn virt_to_phys(&self, virtual_addr: usize) -> usize;
}

/// A pool of pages handed out from its start to its end and never given back.
pub struct PagePool {
    base: usize,
    next_free: usize,
}

impl PagePool {
    /// Where the pool starts.
    pub closed spec fn base_addr(&self) -> nat {
        self.base as nat
    }

    /// Bytes handed out so far.
    pub closed spec fn used(&self) -> nat {
        self.next_free as nat
    }

    /// What the pool keeps true: whole pages handed out, never past its end.
    pub closed spec fn wf(&self) -> bool {
        &&& self.next_free <= MEMORY_POOL_SIZE
        &&& self.next_free % PAGE_SIZE == 0
        &&& self.base + MEMORY_POOL_SIZE <= usize::MAX
    }

    /// An empty pool whose memory starts at `base`.
    pub fn new(base: usize) -> (p: Self)
        requires
            base + MEMORY_POOL_SIZE <= usize::MAX,
        ensures
            p.wf(),
            p.base_addr() == base,
            p.used() == 0,
    {
        PagePool { base, next_free: 0 }
    }

    /// Forgets every allocation.
    pub fn init(&mut self)
        requires
            old(self).wf(),
        ensures
            final(self).wf(),
            final(self).base_addr() == old(self).base_addr(),
            final(self).used() == 0,
    {
        self.next_free = 0;
    }

    /// The next free page, if the pool has one.
    pub fn allocate_page(&mut self) -> (r: Option<usize>)
        requires
            old(self).wf(),
        ensures
            final(self).wf(),
            final(self).base_addr() == old(self).base_addr(),
            old(self).used() + PAGE_SIZE <= MEMORY_POOL_SIZE ==> (r matches Some(a) && a == old(self).base_addr() + old(self).used()) && final(self).used() == old(self).used() + PAGE_SIZE,
            old(self).used() + PAGE_SIZE > MEMORY_POOL_SIZE ==> r is None && final(self).used()
                == old(self).used(),
    {
        if self.next_free + PAGE_SIZE <= MEMORY_POOL_SIZE {
            let addr = self.base + self.next_free;
            self.next_free = self.next_free + PAGE_SIZE;
            Some(addr)
        } else {
            None
        }
    }

    /// Bytes handed out so far.
    pub fn used_memory(&self) -> (n: usize)
        ensures
            n == self.used(),
    {
        self.next_free
    }
}

/// The size of the pool in bytes.
pub fn total_memory() -> (n: usize)
    ensures
        n == MEMORY_POOL_SIZE,
{
    MEMORY_POOL_SIZE
}

impl PhysicalMemory for PagePool {
    /// Hands out `page_count` contiguous pages from the pool.
    fn alloc_pages(&mut self, page_count: usize) -> (r: Option<usize>)
        ensures
            old(self).wf() ==> final(self).wf() && final(self).base_addr() == old(self).base_addr(),
            old(self).wf() && page_count * PAGE_SIZE <= MEMORY_POOL_SIZE - old(self).used() ==> (r matches Some(a)
                && a == old(self).base_addr() + old(self).used()) && final(self).used()
                == old(self).used() + page_count * PAGE_SIZE,
            old(self).wf() && page_count * PAGE_SIZE > MEMORY_POOL_SIZE - old(self).used() ==> r is None
                && final(self).used() == old(self).used(),
    {
        if self.next_free > MEMORY_POOL_SIZE || self.base > usize::MAX - MEMORY_POOL_SIZE {
            return None;
        }
        let room = (MEMORY_POOL_SIZE - self.next_free) / PAGE_SIZE;
        if page_count > room {
            proof {
                assert(page_count * PAGE_SIZE > MEMORY_POOL_SIZE - self.next_free) by (nonlinear_arith)
                    requires
                        page_count > room,
                        room == (MEMORY_POOL_SIZE - self.next_free) / 4096,
                        self.next_free <= MEMORY_POOL_SIZE,
                ;
            }
            return None;
        }
        proof {
            assert(page_count * PAGE_SIZE <= MEMORY_POOL_SIZE - self.next_free) by (nonlinear_arith)
                requires
                    page_count <= room,
                    room == (MEMORY_POOL_SIZE - self.next_free) / 4096,
                    self.next_free <= MEMORY_POOL_SIZE,
            ;
            if self.next_free % PAGE_SIZE == 0 {
                assert((self.next_free + page_count * 4096) % 4096 == 0) by (nonlinear_arith)
                    requires
                        self.next_free % 4096 == 0,
                ;
            }
        }
        let addr = self.base + self.next_free;
        self.next_free = self.next_free + page_count * PAGE_SIZE;
        Some(addr)
    }

    /// Memory is mapped one to one.
    fn virt_to_phys(&self, virtual_addr: usize) -> (p: usize)
        ensures
            p == virtual_addr,
    {
        virtual_addr
    }
}

/// Pages handed out one after the other never overlap: when `p1` is what allocating a page
/// from `p0` left, and `p2` what allocating one from `p1` left, the first page ends where the
/// second starts.
pub proof fn law_pages_disjoint(p0: PagePool, p1: PagePool, p2: PagePool)
    requires
        p0.wf(),
        p0.used() + PAGE_SIZE <= MEMORY_POOL_SIZE,
        p1.base_addr() == p0.base_addr(),
        p1.used() == p0.used() + PAGE_SIZE,
        p1.used() + PAGE_SIZE <= MEMORY_POOL_SIZE,
        p2.base_addr() == p1.base_addr(),
        p2.used() == p1.used() + PAGE_SIZE,
    ensures
        p0.base_addr() + p0.used() + PAGE_SIZE == p1.base_addr() + p1.used(),
        p1.base_addr() + p1.used() + PAGE_SIZE == p2.base_addr() + p2.used(),
        p2.used() <= MEMORY_POOL_SIZE,
{
}

} // verus!
