//! A bump allocator over one fixed pool: page-aligned, monotonic, no reclamation.
use vstd::prelude::*;

verus! {

pub const PAGE_SIZE: usize = 4096;

/// Capacity of the pool handed out to the loaded program.
pub const USER_MEM_POOL_SIZE: usize = 1024 * 1024;

/// `x` rounded up to a whole number of pages.
pub open spec fn page_up(x: int) -> int {
    (x + 4095) / 4096 * 4096
}

/// A cursor over the pool that starts at address `base`.
#[derive(Debug)]
pub struct MemManager {
    base: usize,
    next: usize,
}

impl MemManager {
    pub closed spec fn base_addr(&self) -> int {
        self.base as int
    }

    /// Offset into the pool of the first byte not yet handed out.
    pub closed spec fn cursor(&self) -> int {
        self.next as int
    }

    pub open spec fn wf(&self) -> bool {
        &&& 0 <= self.cursor() <= USER_MEM_POOL_SIZE
        &&& self.cursor() % 4096 == 0
        &&& self.base_addr() % 4096 == 0
        &&& 0 <= self.base_addr()
        &&& self.base_addr() + USER_MEM_POOL_SIZE <= usize::MAX
    }

    /// What a request of `length` bytes is granted: a pool address, or
    /// nothing where the rounded request does not fit behind the cursor.
    pub open spec fn grant(&self, length: int) -> Option<int> {
        if page_up(self.cursor()) + page_up(length) <= USER_MEM_POOL_SIZE {
            Some(self.base_addr() + page_up(self.cursor()))
        } else {
            None
        }
    }

    /// The cursor after a request of `length` bytes.
    pub open spec fn cursor_after(&self, length: int) -> int {
        if self.grant(length) is Some {
            page_up(self.cursor()) + page_up(length)
        } else {
            self.cursor()
        }
    }

    /// An empty pool that starts at `pool_base`.
    pub fn new(pool_base: usize) -> (r: Self)
        requires
            pool_base % PAGE_SIZE == 0,
            pool_base + USER_MEM_POOL_SIZE <= usize::MAX,
        ensures
            r.wf(),
            r.base_addr() == pool_base,
            r.cursor() == 0,
    {
        MemManager { base: pool_base, next: 0 }
    }

    /// Offset into the pool of the first byte not yet handed out.
    pub fn next_offset(&self) -> (r: usize)
        ensures
            r == self.cursor(),
    {
        self.next
    }

    /// Hands out `length` bytes rounded up to whole pages, at the next page
    /// boundary of the pool; fails, leaving the cursor where it was, when they
    /// do not fit.
    pub fn memmap(&mut self, length: usize) -> (r: Option<usize>)
        requires
            old(self).wf(),
        ensures
            final(self).wf(),
            final(self).base_addr() == old(self).base_addr(),
            r matches Some(a) ==> old(self).grant(length as int) == Some(a as int),
            r is None ==> old(self).grant(length as int) is None,
            final(self).cursor() == old(self).cursor_after(length as int),
    {
        if length > usize::MAX - 0xfff {
            return None;
        }
        let aligned = (length + 0xfff) / PAGE_SIZE * PAGE_SIZE;
        let off = (self.next + 0xfff) / PAGE_SIZE * PAGE_SIZE;
        if off > USER_MEM_POOL_SIZE || aligned > USER_MEM_POOL_SIZE - off {
            return None;
        }
        self.next = off + aligned;
        Some(self.base + off)
    }
}

/// Granted requests come back in increasing order, page-aligned and without
/// overlap; a refused request leaves the cursor where it was, so that what
/// follows is answered as if it had not been made. `after` is the manager
/// once `m` has answered a request of `first` bytes.
pub proof fn lemma_memmap_sequence(m: MemManager, after: MemManager, first: int, second: int)
    requires
        m.wf(),
        0 <= first,
        0 <= second,
        after.base_addr() == m.base_addr(),
        after.cursor() == m.cursor_after(first),
    ensures
        m.grant(first) matches Some(a) ==> a % 4096 == 0,
        m.grant(first) matches Some(a) ==> (after.grant(second) matches Some(b) ==> {
            &&& b % 4096 == 0
            &&& a + page_up(first) <= b
            &&& first > 0 ==> a < b
        }),
        m.grant(first) is None ==> after.grant(second) == m.grant(second),
{
    assert(page_up(m.cursor()) == m.cursor());
    if m.grant(first) is Some {
        assert(page_up(first) % 4096 == 0);
        assert(first > 0 ==> page_up(first) >= 4096);
        assert(page_up(after.cursor()) == after.cursor());
    }
}

} // verus!
