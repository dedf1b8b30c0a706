//! The mathematical model of the allocator: a fixed address range with one
//! cursor growing up from its low end and one growing down from its high end.
//!
//! ```text
//! [ bytes in use |    free gap    | pages in use ]
//! start     bytes_cursor     pages_cursor       end
//! ```

use vstd::prelude::*;
use crate::align::{
    lemma_round_down_greatest_multiple,
    lemma_round_up_least_multiple,
    round_down,
    round_up,
};

verus! {

/// The state of a double-ended region.
pub struct Region {
    /// Lowest managed address.
    pub start: int,
    /// One past the highest managed address.
    pub end: int,
    /// Next free address for a byte allocation.
    pub bytes_cursor: int,
    /// One past the highest free address for a page allocation.
    pub pages_cursor: int,
    /// Byte allocations made and not yet given back.
    pub bytes_outstanding: nat,
    /// Page allocations made and not yet given back.
    pub pages_outstanding: nat,
}

impl Region {
    /// The cursors are ordered inside the range, and a zone with nothing
    /// outstanding is empty.
    pub open spec fn wf(self) -> bool {
        &&& 0 <= self.start <= self.bytes_cursor <= self.pages_cursor <= self.end
        &&& self.bytes_outstanding == 0 ==> self.bytes_cursor == self.start
        &&& self.pages_outstanding == 0 ==> self.pages_cursor == self.end
    }

    /// The empty region at address zero, before any range was handed over.
    pub open spec fn unset() -> Region {
        Region::spanning(0, 0)
    }

    /// The untouched region `[start, start + size)`.
    pub open spec fn spanning(start: int, size: int) -> Region {
        Region {
            start,
            end: start + size,
            bytes_cursor: start,
            pages_cursor: start + size,
            bytes_outstanding: 0,
            pages_outstanding: 0,
        }
    }

    /// Size of the managed range.
    pub open spec fn total_bytes(self) -> int {
        self.end - self.start
    }

    /// Size of the byte zone.
    pub open spec fn used_bytes(self) -> int {
        self.bytes_cursor - self.start
    }

    /// Size of the gap between the two zones.
    pub open spec fn available_bytes(self) -> int {
        self.pages_cursor - self.bytes_cursor
    }

    /// Whole pages in the managed range.
    pub open spec fn total_pages(self, page_size: int) -> int {
        (self.end - self.start) / page_size
    }

    /// Whole pages in the page zone.
    pub open spec fn used_pages(self, page_size: int) -> int {
        (self.end - self.pages_cursor) / page_size
    }

    /// Whole pages in the gap between the two zones.
    pub open spec fn available_pages(self, page_size: int) -> int {
        (self.pages_cursor - self.bytes_cursor) / page_size
    }

    /// Where the next byte allocation with this alignment would start.
    pub open spec fn byte_addr(self, align: int) -> int {
        round_up(self.bytes_cursor, align)
    }

    /// Whether `size` bytes at this alignment fit below the page zone.
    pub open spec fn fits_bytes(self, size: int, align: int) -> bool {
        self.byte_addr(align) + size <= self.pages_cursor
    }

    /// The region after a byte allocation that fits.
    pub open spec fn take_bytes(self, size: int, align: int) -> Region {
        Region {
            bytes_cursor: self.byte_addr(align) + size,
            bytes_outstanding: self.bytes_outstanding + 1,
            ..self
        }
    }

    /// The region after one byte allocation is given back: the whole byte
    /// zone is reclaimed when it was the last one outstanding, nothing
    /// changes when none was outstanding.
    pub open spec fn give_bytes(self) -> Region {
        if self.bytes_outstanding == 0 {
            self
        } else if self.bytes_outstanding == 1 {
            Region { bytes_cursor: self.start, bytes_outstanding: 0, ..self }
        } else {
            Region { bytes_outstanding: (self.bytes_outstanding - 1) as nat, ..self }
        }
    }

    /// Where a page allocation of `span` bytes with this alignment would
    /// start.
    pub open spec fn page_addr(self, span: int, align: int) -> int {
        round_down(self.pages_cursor - span, align)
    }

    /// Whether `span` bytes of pages at this alignment fit above the byte
    /// zone.
    pub open spec fn fits_pages(self, span: int, align: int) -> bool {
        &&& span <= self.pages_cursor
        &&& self.bytes_cursor <= self.page_addr(span, align)
    }

    /// The region after a page allocation that fits.
    pub open spec fn take_pages(self, span: int, align: int) -> Region {
        Region {
            pages_cursor: self.page_addr(span, align),
            pages_outstanding: self.pages_outstanding + 1,
            ..self
        }
    }

    /// The region after one page allocation is given back: the whole page
    /// zone is reclaimed when it was the last one outstanding, nothing
    /// changes when none was outstanding.
    pub open spec fn give_pages(self) -> Region {
        if self.pages_outstanding == 0 {
            self
        } else if self.pages_outstanding == 1 {
            Region { pages_cursor: self.end, pages_outstanding: 0, ..self }
        } else {
            Region { pages_outstanding: (self.pages_outstanding - 1) as nat, ..self }
        }
    }
}

/// A range that was just handed over is well-formed, all of it is
/// available and none of it is in use.
pub proof fn lemma_spanning_accounting(start: int, size: int)
    requires
        0 <= start,
        0 <= size,
    ensures
        Region::spanning(start, size).wf(),
        Region::spanning(start, size).total_bytes() == size,
        Region::spanning(start, size).available_bytes() == size,
        Region::spanning(start, size).used_bytes() == 0,
{
}

/// A byte allocation that fits keeps the region well-formed, and its bytes
/// lie between the old and the new byte cursor, below the page zone.
pub proof fn lemma_take_bytes(r: Region, size: int, align: int)
    requires
        r.wf(),
        0 <= size,
        0 < align,
        r.fits_bytes(size, align),
    ensures
        r.take_bytes(size, align).wf(),
        r.bytes_cursor <= r.byte_addr(align),
        r.byte_addr(align) + size == r.take_bytes(size, align).bytes_cursor,
        r.take_bytes(size, align).bytes_cursor <= r.pages_cursor,
{
    lemma_round_up_least_multiple(r.bytes_cursor, align);
}

/// A page allocation that fits keeps the region well-formed, and its bytes
/// lie between the new and the old page cursor, above the byte zone.
pub proof fn lemma_take_pages(r: Region, span: int, align: int)
    requires
        r.wf(),
        0 <= span,
        0 < align,
        r.fits_pages(span, align),
    ensures
        r.take_pages(span, align).wf(),
        r.bytes_cursor <= r.take_pages(span, align).pages_cursor,
        r.take_pages(span, align).pages_cursor == r.page_addr(span, align),
        r.page_addr(span, align) + span <= r.pages_cursor,
{
    lemma_round_down_greatest_multiple(r.pages_cursor - span, align);
}

/// Giving an allocation back keeps the region well-formed.
pub proof fn lemma_give_back(r: Region)
    requires
        r.wf(),
    ensures
        r.give_bytes().wf(),
        r.give_pages().wf(),
{
}

/// A byte request larger than the gap does not fit, whatever its alignment.
pub proof fn lemma_oversized_bytes_do_not_fit(r: Region, size: int, align: int)
    requires
        0 < align,
        size > r.available_bytes(),
    ensures
        !r.fits_bytes(size, align),
{
    lemma_round_up_least_multiple(r.bytes_cursor, align);
}

/// A byte allocation followed by a page allocation: the bytes end where the
/// pages start, or below.
pub proof fn lemma_bytes_then_pages_disjoint(
    r: Region,
    size: int,
    align: int,
    span: int,
    page_align: int,
)
    requires
        r.fits_bytes(size, align),
        r.take_bytes(size, align).fits_pages(span, page_align),
    ensures
        r.byte_addr(align) + size <= r.take_bytes(size, align).page_addr(span, page_align),
{
}

/// A page allocation followed by a byte allocation: the bytes end where the
/// pages start, or below.
pub proof fn lemma_pages_then_bytes_disjoint(
    r: Region,
    span: int,
    page_align: int,
    size: int,
    align: int,
)
    requires
        r.fits_pages(span, page_align),
        r.take_pages(span, page_align).fits_bytes(size, align),
    ensures
        r.take_pages(span, page_align).byte_addr(align) + size <= r.page_addr(span, page_align),
{
}

} // verus!
