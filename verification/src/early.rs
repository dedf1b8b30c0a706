//! The allocator itself.

use vstd::prelude::*;
use vstd::arithmetic::power2::is_pow2;
use crate::align::{
    is_aligned,
    lemma_clear_low_bits_rounds_down,
    lemma_pow2_at_least_one,
    lemma_round_down_greatest_multiple,
    lemma_round_up_least_multiple,
    lemma_round_up_past_word,
    round_down,
    round_up,
};
use crate::error::{AllocError, AllocResult};
use crate::history::Op;
use crate::region::{lemma_oversized_bytes_do_not_fit, Region};

verus! {

/// Early memory allocator, for use before the general byte and page
/// allocators can work.
///
/// It manages one range from both ends: bytes are handed out upwards from
/// the low end, pages downwards from the high end.
///
/// ```text
/// [ bytes-used | avail-area | pages-used ]
/// |            | -->    <-- |            |
/// start       b_pos        p_pos       end
/// ```
///
/// Neither zone tracks single allocations. Each counts how many are
/// outstanding and is reclaimed as a whole when that count returns to zero.
pub struct EarlyAllocator<const PAGE_SIZE: usize> {
    start: usize,
    end: usize,
    b_pos: usize,
    p_pos: usize,
    count: usize,
    page_count: usize,
}

impl<const PAGE_SIZE: usize> View for EarlyAllocator<PAGE_SIZE> {
    type V = Region;

    closed spec fn view(&self) -> Region {
        Region {
            start: self.start as int,
            end: self.end as int,
            bytes_cursor: self.b_pos as int,
            pages_cursor: self.p_pos as int,
            bytes_outstanding: self.count as nat,
            pages_outstanding: self.page_count as nat,
        }
    }
}

impl<const PAGE_SIZE: usize> EarlyAllocator<PAGE_SIZE> {
    #[verifier::type_invariant]
    spec fn inv(self) -> bool {
        self@.wf()
    }

    /// An allocator that manages nothing yet.
    pub fn new() -> (r: Self)
        ensures
            r@ == Region::unset(),
            r@.wf(),
    {
        Self { start: 0, end: 0, b_pos: 0, count: 0, p_pos: 0, page_count: 0 }
    }

    /// Rounds `addr` up to the next multiple of `align`.
    pub fn align_up(addr: usize, align: usize) -> (r: usize)
        requires
            is_pow2(align as int),
            addr + align - 1 <= usize::MAX,
        ensures
            r == round_up(addr as int, align as int),
    {
        proof {
            lemma_clear_low_bits_rounds_down((addr + align - 1) as usize, align);
        }
        (addr + (align - 1)) & !(align - 1)
    }

    /// Rounds `addr` down to the previous multiple of `align`.
    pub fn align_down(addr: usize, align: usize) -> (r: usize)
        requires
            is_pow2(align as int),
        ensures
            r == round_down(addr as int, align as int),
    {
        proof {
            lemma_clear_low_bits_rounds_down(addr, align);
        }
        addr & !(align - 1)
    }

    /// Takes over the range `[start, start + size)`, forgetting whatever was
    /// managed before.
    pub fn init(&mut self, start: usize, size: usize)
        requires
            start + size <= usize::MAX,
        ensures
            final(self)@ == Region::spanning(start as int, size as int),
            final(self)@.wf(),
    {
        *self = Self {
            start,
            end: start + size,
            b_pos: start,
            p_pos: start + size,
            count: 0,
            page_count: 0,
        };
    }

    /// Refuses a second range: the allocator manages exactly one.
    pub fn add_memory(&mut self, start: usize, size: usize) -> (r: AllocResult<()>)
        ensures
            r == Err::<(), AllocError>(AllocError::NoMemory),
            final(self)@ == old(self)@,
            final(self)@.wf(),
    {
        proof {
            use_type_invariant(&*self);
        }
        Err(AllocError::NoMemory)
    }

    /// Number of byte allocations that are outstanding. One more can be
    /// counted as long as this is below `usize::MAX`.
    pub fn bytes_outstanding(&self) -> (r: usize)
        ensures
            r == self@.bytes_outstanding,
    {
        self.count
    }

    /// Number of page allocations that are outstanding. One more can be
    /// counted as long as this is below `usize::MAX`.
    pub fn pages_outstanding(&self) -> (r: usize)
        ensures
            r == self@.pages_outstanding,
    {
        self.page_count
    }

    /// Allocates `size` bytes at a multiple of `align`, directly above the
    /// byte zone.
    ///
    /// Fails with `NoMemory`, changing nothing, when the bytes would reach
    /// into the page zone or past the end of the address space.
    pub fn alloc_bytes(&mut self, size: usize, align: usize) -> (r: AllocResult<usize>)
        requires
            is_pow2(align as int),
            old(self)@.bytes_outstanding < usize::MAX,
        ensures
            final(self)@.wf(),
            match r {
                Ok(addr) => {
                    &&& old(self)@.fits_bytes(size as int, align as int)
                    &&& addr == old(self)@.byte_addr(align as int)
                    &&& final(self)@ == old(self)@.take_bytes(size as int, align as int)
                    &&& is_aligned(addr as int, align as int)
                    &&& old(self)@.bytes_cursor <= addr
                    &&& addr + size <= old(self)@.pages_cursor
                },
                Err(e) => {
                    &&& !old(self)@.fits_bytes(size as int, align as int)
                    &&& e == AllocError::NoMemory
                    &&& final(self)@ == old(self)@
                },
            },
            size > old(self)@.available_bytes() ==> {
                &&& r == Err::<usize, AllocError>(AllocError::NoMemory)
                &&& final(self)@ == old(self)@
            },
            final(self)@ == old(self)@.step(
                (Op::AllocBytes { size: size as int, align: align as int }),
            ),
    {
        proof {
            use_type_invariant(&*self);
            lemma_pow2_at_least_one(align as int);
            lemma_round_up_least_multiple(self.b_pos as int, align as int);
            if size > self@.available_bytes() {
                lemma_oversized_bytes_do_not_fit(self@, size as int, align as int);
            }
        }
        if self.b_pos > usize::MAX - (align - 1) {
            proof {
                lemma_round_up_past_word(self.b_pos, align);
            }
            return Err(AllocError::NoMemory);
        }
        let aligned_addr: usize = Self::align_up(self.b_pos, align);
        let new_b_pos: usize = match aligned_addr.checked_add(size) {
            Some(pos) => pos,
            None => {
                return Err(AllocError::NoMemory);
            },
        };
        if new_b_pos > self.p_pos {
            return Err(AllocError::NoMemory);
        }
        self.count += 1;
        self.b_pos = new_b_pos;
        Ok(aligned_addr)
    }

    /// Gives one byte allocation back. Which one is not looked at: only the
    /// number of outstanding allocations changes, and the byte zone is
    /// reclaimed as a whole when that number reaches zero.
    pub fn dealloc_bytes(&mut self, pos: usize, size: usize, align: usize)
        ensures
            final(self)@ == old(self)@.give_bytes(),
            final(self)@.wf(),
            final(self)@ == old(self)@.step(
                (Op::DeallocBytes { addr: pos as int, size: size as int, align: align as int }),
            ),
    {
        proof {
            use_type_invariant(&*self);
        }
        if self.count > 0 {
            if self.count == 1 {
                self.b_pos = self.start;
            }
            self.count -= 1;
        }
    }

    /// Size of the managed range in bytes.
    pub fn total_bytes(&self) -> (r: usize)
        ensures
            r == self@.total_bytes(),
    {
        proof {
            use_type_invariant(self);
        }
        self.end - self.start
    }

    /// Size of the byte zone in bytes.
    pub fn used_bytes(&self) -> (r: usize)
        ensures
            r == self@.used_bytes(),
    {
        proof {
            use_type_invariant(self);
        }
        self.b_pos - self.start
    }

    /// Size of the gap between the byte zone and the page zone in bytes.
    pub fn available_bytes(&self) -> (r: usize)
        ensures
            r == self@.available_bytes(),
    {
        proof {
            use_type_invariant(self);
        }
        self.p_pos - self.b_pos
    }

    /// Allocates `num_pages` contiguous pages starting at a multiple of
    /// `align_pow2`, directly below the page zone.
    ///
    /// Fails with `InvalidParam` when the extent of the pages in bytes does
    /// not fit in a machine word, and with `NoMemory` when the pages would
    /// reach into the byte zone or below address zero. Either way nothing
    /// changes.
    pub fn alloc_pages(&mut self, num_pages: usize, align_pow2: usize) -> (r: AllocResult<usize>)
        requires
            is_pow2(align_pow2 as int),
            old(self)@.pages_outstanding < usize::MAX,
        ensures
            final(self)@.wf(),
            match r {
                Ok(addr) => {
                    &&& num_pages * PAGE_SIZE <= usize::MAX
                    &&& old(self)@.fits_pages(num_pages * PAGE_SIZE, align_pow2 as int)
                    &&& addr == old(self)@.page_addr(num_pages * PAGE_SIZE, align_pow2 as int)
                    &&& final(self)@ == old(self)@.take_pages(
                        num_pages * PAGE_SIZE,
                        align_pow2 as int,
                    )
                    &&& is_aligned(addr as int, align_pow2 as int)
                    &&& old(self)@.bytes_cursor <= addr
                    &&& addr + num_pages * PAGE_SIZE <= old(self)@.pages_cursor
                },
                Err(AllocError::InvalidParam) => {
                    &&& num_pages * PAGE_SIZE > usize::MAX
                    &&& final(self)@ == old(self)@
                },
                Err(AllocError::NoMemory) => {
                    &&& num_pages * PAGE_SIZE <= usize::MAX
                    &&& !old(self)@.fits_pages(num_pages * PAGE_SIZE, align_pow2 as int)
                    &&& final(self)@ == old(self)@
                },
            },
            num_pages * PAGE_SIZE > usize::MAX ==> {
                &&& r == Err::<usize, AllocError>(AllocError::InvalidParam)
                &&& final(self)@ == old(self)@
            },
            final(self)@ == old(self)@.step(
                (Op::AllocPages { span: num_pages * PAGE_SIZE, align: align_pow2 as int }),
            ),
    {
        proof {
            use_type_invariant(&*self);
            lemma_pow2_at_least_one(align_pow2 as int);
        }
        let total_bytes: usize = match num_pages.checked_mul(PAGE_SIZE) {
            Some(bytes) => bytes,
            None => {
                return Err(AllocError::InvalidParam);
            },
        };
        let max_start: usize = match self.p_pos.checked_sub(total_bytes) {
            Some(pos) => pos,
            None => {
                return Err(AllocError::NoMemory);
            },
        };
        let aligned_start: usize = Self::align_down(max_start, align_pow2);
        proof {
            lemma_round_down_greatest_multiple(max_start as int, align_pow2 as int);
        }
        if aligned_start < self.b_pos {
            return Err(AllocError::NoMemory);
        }
        self.page_count += 1;
        self.p_pos = aligned_start;
        Ok(aligned_start)
    }

    /// Gives one page allocation back. Which one is not looked at: only the
    /// number of outstanding allocations changes, and the page zone is
    /// reclaimed as a whole when that number reaches zero.
    pub fn dealloc_pages(&mut self, pos: usize, num_pages: usize)
        ensures
            final(self)@ == old(self)@.give_pages(),
            final(self)@.wf(),
            final(self)@ == old(self)@.step(
                (Op::DeallocPages { addr: pos as int, count: num_pages as int }),
            ),
    {
        proof {
            use_type_invariant(&*self);
        }
        if self.page_count > 0 {
            if self.page_count == 1 {
                self.p_pos = self.end;
            }
            self.page_count -= 1;
        }
    }

    /// Number of whole pages in the managed range.
    pub fn total_pages(&self) -> (r: usize)
        requires
            PAGE_SIZE > 0,
        ensures
            r == self@.total_pages(PAGE_SIZE as int),
    {
        proof {
            use_type_invariant(self);
        }
        (self.end - self.start) / PAGE_SIZE
    }

    /// Number of whole pages in the page zone.
    pub fn used_pages(&self) -> (r: usize)
        requires
            PAGE_SIZE > 0,
        ensures
            r == self@.used_pages(PAGE_SIZE as int),
    {
        proof {
            use_type_invariant(self);
        }
        (self.end - self.p_pos) / PAGE_SIZE
    }

    /// Number of whole pages in the gap between the byte zone and the page
    /// zone.
    pub fn available_pages(&self) -> (r: usize)
        requires
            PAGE_SIZE > 0,
        ensures
            r == self@.available_pages(PAGE_SIZE as int),
    {
        proof {
            use_type_invariant(self);
        }
        (self.p_pos - self.b_pos) / PAGE_SIZE
    }
}

} // verus!
