//! Histories of calls: what holds of the region after many of them.

use vstd::prelude::*;
use crate::align::{
    lemma_round_down_greatest_multiple,
    lemma_round_up_least_multiple,
    round_up,
};
use crate::region::{lemma_give_back, lemma_take_bytes, lemma_take_pages, Region};

verus! {

/// One call on the allocator.
pub enum Op {
    /// Ask for `size` bytes at a multiple of `align`.
    AllocBytes { size: int, align: int },
    /// Give back the byte allocation that the arguments describe.
    DeallocBytes { addr: int, size: int, align: int },
    /// Ask for pages that cover `span` bytes, at a multiple of `align`.
    AllocPages { span: int, align: int },
    /// Give back the page allocation that the arguments describe.
    DeallocPages { addr: int, count: int },
}

impl Op {
    /// Sizes are not negative and alignments are positive.
    pub open spec fn valid(self) -> bool {
        match self {
            Op::AllocBytes { size, align } => 0 <= size && 0 < align,
            Op::AllocPages { span, align } => 0 <= span && 0 < align,
            Op::DeallocBytes { .. } => true,
            Op::DeallocPages { .. } => true,
        }
    }
}

impl Region {
    /// The region after one call. An allocation that does not fit changes
    /// nothing, and a deallocation does not look at what it is given.
    pub open spec fn step(self, op: Op) -> Region {
        match op {
            Op::AllocBytes { size, align } => if self.fits_bytes(size, align) {
                self.take_bytes(size, align)
            } else {
                self
            },
            Op::DeallocBytes { .. } => self.give_bytes(),
            Op::AllocPages { span, align } => if self.fits_pages(span, align) {
                self.take_pages(span, align)
            } else {
                self
            },
            Op::DeallocPages { .. } => self.give_pages(),
        }
    }

    /// The region after a history of calls.
    pub open spec fn run(self, ops: Seq<Op>) -> Region
        decreases ops.len(),
    {
        if ops.len() == 0 {
            self
        } else {
            self.run(ops.drop_last()).step(ops.last())
        }
    }

    /// Whether call `k` of the history is a byte allocation that succeeds.
    pub open spec fn byte_alloc_succeeds(self, ops: Seq<Op>, k: int) -> bool {
        &&& 0 <= k < ops.len()
        &&& ops[k] matches Op::AllocBytes { size, align }
        &&& self.run(ops.take(k)).fits_bytes(size, align)
    }

    /// Whether call `k` of the history is a page allocation that succeeds.
    pub open spec fn page_alloc_succeeds(self, ops: Seq<Op>, k: int) -> bool {
        &&& 0 <= k < ops.len()
        &&& ops[k] matches Op::AllocPages { span, align }
        &&& self.run(ops.take(k)).fits_pages(span, align)
    }

    /// The first address of what call `k` of the history allocates, if it is
    /// an allocation that succeeds.
    pub open spec fn block_start(self, ops: Seq<Op>, k: int) -> int {
        match ops[k] {
            Op::AllocBytes { size, align } => self.run(ops.take(k)).byte_addr(align),
            Op::AllocPages { span, align } => self.run(ops.take(k)).page_addr(span, align),
            _ => 0,
        }
    }

    /// One past the last address of what call `k` of the history allocates,
    /// if it is an allocation that succeeds.
    pub open spec fn block_end(self, ops: Seq<Op>, k: int) -> int {
        match ops[k] {
            Op::AllocBytes { size, align } => self.block_start(ops, k) + size,
            Op::AllocPages { span, align } => self.block_start(ops, k) + span,
            _ => 0,
        }
    }
}

/// Running a history up to and including call `k` is running it up to
/// call `k` and then making that call.
proof fn lemma_run_unfold(r: Region, ops: Seq<Op>, k: int)
    requires
        0 <= k < ops.len(),
    ensures
        r.run(ops.take(k + 1)) == r.run(ops.take(k)).step(ops[k]),
{
    assert(ops.take(k + 1).drop_last() == ops.take(k));
}

/// Running one history after another is running the two as one.
pub proof fn lemma_run_concat(r: Region, first: Seq<Op>, second: Seq<Op>)
    ensures
        r.run(first + second) == r.run(first).run(second),
    decreases second.len(),
{
    if second.len() == 0 {
        assert(first + second == first);
    } else {
        lemma_run_concat(r, first, second.drop_last());
        assert((first + second).drop_last() == first + second.drop_last());
    }
}

/// Whatever is called, in whatever order, the region stays well-formed and
/// keeps its bounds.
pub proof fn lemma_run_preserves_wf(r: Region, ops: Seq<Op>)
    requires
        r.wf(),
        forall|k: int| 0 <= k < ops.len() ==> (#[trigger] ops[k]).valid(),
    ensures
        r.run(ops).wf(),
        r.run(ops).start == r.start,
        r.run(ops).end == r.end,
    decreases ops.len(),
{
    if ops.len() > 0 {
        let before = r.run(ops.drop_last());
        lemma_run_preserves_wf(r, ops.drop_last());
        assert(ops.last().valid());
        match ops.last() {
            Op::AllocBytes { size, align } => {
                if before.fits_bytes(size, align) {
                    lemma_take_bytes(before, size, align);
                }
            },
            Op::AllocPages { span, align } => {
                if before.fits_pages(span, align) {
                    lemma_take_pages(before, span, align);
                }
            },
            Op::DeallocBytes { .. } => {
                lemma_give_back(before);
            },
            Op::DeallocPages { .. } => {
                lemma_give_back(before);
            },
        }
    }
}

/// Byte allocations that all succeed move nothing but the byte cursor and
/// the count of outstanding byte allocations, which grows by one for each.
proof fn lemma_byte_allocs_count(r: Region, allocs: Seq<Op>)
    requires
        forall|k: int| 0 <= k < allocs.len() ==> r.byte_alloc_succeeds(allocs, k),
    ensures
        r.run(allocs) == (Region {
            bytes_cursor: r.run(allocs).bytes_cursor,
            bytes_outstanding: r.bytes_outstanding + allocs.len(),
            ..r
        }),
    decreases allocs.len(),
{
    if allocs.len() > 0 {
        let before = allocs.drop_last();
        let last = allocs.len() - 1;
        assert forall|k: int| 0 <= k < before.len() implies r.byte_alloc_succeeds(before, k) by {
            assert(r.byte_alloc_succeeds(allocs, k));
            assert(before.take(k) == allocs.take(k));
        }
        lemma_byte_allocs_count(r, before);
        assert(r.byte_alloc_succeeds(allocs, last));
        assert(allocs.take(last) == before);
    }
}

/// Page allocations that all succeed move nothing but the page cursor and
/// the count of outstanding page allocations, which grows by one for each.
proof fn lemma_page_allocs_count(r: Region, allocs: Seq<Op>)
    requires
        forall|k: int| 0 <= k < allocs.len() ==> r.page_alloc_succeeds(allocs, k),
    ensures
        r.run(allocs) == (Region {
            pages_cursor: r.run(allocs).pages_cursor,
            pages_outstanding: r.pages_outstanding + allocs.len(),
            ..r
        }),
    decreases allocs.len(),
{
    if allocs.len() > 0 {
        let before = allocs.drop_last();
        let last = allocs.len() - 1;
        assert forall|k: int| 0 <= k < before.len() implies r.page_alloc_succeeds(before, k) by {
            assert(r.page_alloc_succeeds(allocs, k));
            assert(before.take(k) == allocs.take(k));
        }
        lemma_page_allocs_count(r, before);
        assert(r.page_alloc_succeeds(allocs, last));
        assert(allocs.take(last) == before);
    }
}

/// Byte deallocations lower the count of outstanding byte allocations,
/// without passing zero, and empty the byte zone when they reach it.
proof fn lemma_byte_frees_count(r: Region, frees: Seq<Op>)
    requires
        forall|k: int| 0 <= k < frees.len() ==> #[trigger] frees[k] is DeallocBytes,
        r.bytes_outstanding == 0 ==> r.bytes_cursor == r.start,
    ensures
        r.run(frees) == if frees.len() < r.bytes_outstanding {
            Region { bytes_outstanding: (r.bytes_outstanding - frees.len()) as nat, ..r }
        } else {
            Region { bytes_cursor: r.start, bytes_outstanding: 0, ..r }
        },
    decreases frees.len(),
{
    if frees.len() > 0 {
        lemma_byte_frees_count(r, frees.drop_last());
        assert(frees.last() is DeallocBytes);
    }
}

/// Page deallocations lower the count of outstanding page allocations,
/// without passing zero, and empty the page zone when they reach it.
proof fn lemma_page_frees_count(r: Region, frees: Seq<Op>)
    requires
        forall|k: int| 0 <= k < frees.len() ==> #[trigger] frees[k] is DeallocPages,
        r.pages_outstanding == 0 ==> r.pages_cursor == r.end,
    ensures
        r.run(frees) == if frees.len() < r.pages_outstanding {
            Region { pages_outstanding: (r.pages_outstanding - frees.len()) as nat, ..r }
        } else {
            Region { pages_cursor: r.end, pages_outstanding: 0, ..r }
        },
    decreases frees.len(),
{
    if frees.len() > 0 {
        lemma_page_frees_count(r, frees.drop_last());
        assert(frees.last() is DeallocPages);
    }
}

/// Byte allocations that all succeed, followed by as many byte
/// deallocations, leave a region in which no byte allocation was outstanding
/// as it was: no byte is in use, and the next byte allocation starts at the
/// start of the range, rounded up to its alignment. The deallocations may
/// name the blocks in any order, or name anything else.
pub proof fn lemma_matched_byte_frees_reclaim(
    r: Region,
    allocs: Seq<Op>,
    frees: Seq<Op>,
    align: int,
)
    requires
        r.wf(),
        r.bytes_outstanding == 0,
        forall|k: int| 0 <= k < allocs.len() ==> r.byte_alloc_succeeds(allocs, k),
        forall|k: int| 0 <= k < frees.len() ==> #[trigger] frees[k] is DeallocBytes,
        frees.len() == allocs.len(),
    ensures
        r.run(allocs + frees) == r,
        r.used_bytes() == 0,
        r.byte_addr(align) == round_up(r.start, align),
{
    lemma_run_concat(r, allocs, frees);
    lemma_byte_allocs_count(r, allocs);
    lemma_byte_frees_count(r.run(allocs), frees);
}

/// Page allocations that all succeed, followed by as many page
/// deallocations, leave a region in which no page allocation was outstanding
/// as it was: no page is in use.
pub proof fn lemma_matched_page_frees_reclaim(
    r: Region,
    allocs: Seq<Op>,
    frees: Seq<Op>,
    page_size: int,
)
    requires
        r.wf(),
        r.pages_outstanding == 0,
        forall|k: int| 0 <= k < allocs.len() ==> r.page_alloc_succeeds(allocs, k),
        forall|k: int| 0 <= k < frees.len() ==> #[trigger] frees[k] is DeallocPages,
        frees.len() == allocs.len(),
        0 < page_size,
    ensures
        r.run(allocs + frees) == r,
        r.used_pages(page_size) == 0,
{
    assert(0int / page_size == 0) by (nonlinear_arith)
        requires
            0 < page_size,
    ;
    lemma_run_concat(r, allocs, frees);
    lemma_page_allocs_count(r, allocs);
    lemma_page_frees_count(r.run(allocs), frees);
}

/// While byte allocations stay outstanding, the byte cursor does not move
/// down.
proof fn lemma_byte_cursor_rises(r: Region, ops: Seq<Op>, from: int, to: int)
    requires
        forall|k: int| 0 <= k < ops.len() ==> (#[trigger] ops[k]).valid(),
        0 <= from <= to <= ops.len(),
        forall|k: int| from < k <= to ==> (#[trigger] r.run(ops.take(k))).bytes_outstanding > 0,
    ensures
        r.run(ops.take(from)).bytes_cursor <= r.run(ops.take(to)).bytes_cursor,
    decreases to - from,
{
    if from < to {
        lemma_byte_cursor_rises(r, ops, from, to - 1);
        lemma_run_unfold(r, ops, to - 1);
        assert(ops[to - 1].valid());
        assert(r.run(ops.take(to)).bytes_outstanding > 0);
        if let Op::AllocBytes { size, align } = ops[to - 1] {
            lemma_round_up_least_multiple(r.run(ops.take(to - 1)).bytes_cursor, align);
        }
    }
}

/// While page allocations stay outstanding, the page cursor does not move
/// up.
proof fn lemma_page_cursor_sinks(r: Region, ops: Seq<Op>, from: int, to: int)
    requires
        forall|k: int| 0 <= k < ops.len() ==> (#[trigger] ops[k]).valid(),
        0 <= from <= to <= ops.len(),
        forall|k: int| from < k <= to ==> (#[trigger] r.run(ops.take(k))).pages_outstanding > 0,
    ensures
        r.run(ops.take(to)).pages_cursor <= r.run(ops.take(from)).pages_cursor,
    decreases to - from,
{
    if from < to {
        lemma_page_cursor_sinks(r, ops, from, to - 1);
        lemma_run_unfold(r, ops, to - 1);
        assert(ops[to - 1].valid());
        assert(r.run(ops.take(to)).pages_outstanding > 0);
        if let Op::AllocPages { span, align } = ops[to - 1] {
            lemma_round_down_greatest_multiple(r.run(ops.take(to - 1)).pages_cursor - span, align);
        }
    }
}

/// Every successful allocation lies inside the managed range.
pub proof fn lemma_block_in_range(r: Region, ops: Seq<Op>, k: int)
    requires
        r.wf(),
        forall|k: int| 0 <= k < ops.len() ==> (#[trigger] ops[k]).valid(),
        r.byte_alloc_succeeds(ops, k) || r.page_alloc_succeeds(ops, k),
    ensures
        r.start <= r.block_start(ops, k) <= r.block_end(ops, k) <= r.end,
{
    let before = r.run(ops.take(k));
    assert forall|i: int| 0 <= i < ops.take(k).len() implies (#[trigger] ops.take(k)[i]).valid() by {
        assert(ops[i].valid());
    }
    lemma_run_preserves_wf(r, ops.take(k));
    assert(ops[k].valid());
    match ops[k] {
        Op::AllocBytes { size, align } => {
            lemma_take_bytes(before, size, align);
        },
        Op::AllocPages { span, align } => {
            lemma_take_pages(before, span, align);
        },
        _ => {},
    }
}

/// In any history of calls, a byte allocation that succeeded and a page
/// allocation that succeeded do not overlap, provided that the zone of the
/// earlier one was not reclaimed before the later one was made: the bytes
/// end where the pages start, or below.
pub proof fn lemma_byte_and_page_blocks_disjoint(r: Region, ops: Seq<Op>, i: int, j: int)
    requires
        forall|k: int| 0 <= k < ops.len() ==> (#[trigger] ops[k]).valid(),
        r.byte_alloc_succeeds(ops, i),
        r.page_alloc_succeeds(ops, j),
        i < j ==> forall|k: int|
            i < k <= j ==> (#[trigger] r.run(ops.take(k))).bytes_outstanding > 0,
        j < i ==> forall|k: int|
            j < k <= i ==> (#[trigger] r.run(ops.take(k))).pages_outstanding > 0,
    ensures
        r.block_end(ops, i) <= r.block_start(ops, j),
{
    if i < j {
        lemma_run_unfold(r, ops, i);
        assert forall|k: int| i + 1 < k <= j implies (#[trigger] r.run(
            ops.take(k),
        )).bytes_outstanding > 0 by {}
        lemma_byte_cursor_rises(r, ops, i + 1, j);
    } else {
        lemma_run_unfold(r, ops, j);
        assert forall|k: int| j + 1 < k <= i implies (#[trigger] r.run(
            ops.take(k),
        )).pages_outstanding > 0 by {}
        lemma_page_cursor_sinks(r, ops, j + 1, i);
    }
}

} // verus!
