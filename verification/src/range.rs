//! Block ranges and the planner that cuts `[0, head]` into pages.
//!
//! The width of a range is the distance from its first block to its last,
//! so a range of width `w` holds `w + 1` blocks. The split policy is fixed:
//! a full page runs from a block `n` to `n + max_width`, and the next page
//! starts at `n + max_width + 1`; only the last page, which stops at
//! `head`, may be narrower. No block is queried twice and none is left out.

use vstd::prelude::*;

verus! {

/// Mathematical model of a block range: the inclusive interval
/// `[start, end]` of block numbers.
pub struct BlockSpan {
    pub start: int,
    pub end: int,
}

impl BlockSpan {
    /// Whether `block` lies inside the interval.
    pub open spec fn contains(self, block: int) -> bool {
        self.start <= block <= self.end
    }

    /// The distance from the first block to the last.
    pub open spec fn width(self) -> int {
        self.end - self.start
    }

    /// The number of blocks in the interval.
    pub open spec fn block_count(self) -> int {
        self.end - self.start + 1
    }
}

/// An inclusive interval of block numbers, queried in one request.
///
/// A value always has `start <= end`, so it holds at least one block.
#[derive(Clone, Copy, Debug, PartialEq, Eq, Structural)]
pub struct BlockRange {
    start: u64,
    end: u64,
}

/// A block range whose width is bounded by the page width of the run.
pub type Page = BlockRange;

impl View for BlockRange {
    type V = BlockSpan;

    closed spec fn view(&self) -> BlockSpan {
        BlockSpan { start: self.start as int, end: self.end as int }
    }
}

impl BlockRange {
    #[verifier::type_invariant]
    spec fn ordered(self) -> bool {
        self.start <= self.end
    }

    /// Makes the range `[start, end]`, or nothing when `start > end`.
    pub fn new(start: u64, end: u64) -> (range: Option<BlockRange>)
        ensures
            start <= end ==> range is Some && range.unwrap()@ == (BlockSpan {
                start: start as int,
                end: end as int,
            }),
            start > end ==> range is None,
    {
        if start <= end {
            Some(BlockRange { start, end })
        } else {
            None
        }
    }

    /// The first block of the range.
    pub fn start(&self) -> (block: u64)
        ensures
            block == self@.start,
            block <= self@.end,
    {
        proof {
            use_type_invariant(self);
        }
        self.start
    }

    /// The last block of the range.
    pub fn end(&self) -> (block: u64)
        ensures
            block == self@.end,
            self@.start <= block,
    {
        proof {
            use_type_invariant(self);
        }
        self.end
    }

    /// The distance from the first block of the range to its last.
    pub fn width(&self) -> (distance: u64)
        ensures
            distance == self@.width(),
    {
        proof {
            use_type_invariant(self);
        }
        self.end - self.start
    }

    /// The number of blocks in the range. It is at least one, and it can
    /// exceed `u64::MAX` by one, hence the wider result.
    pub fn block_count(&self) -> (blocks: u128)
        ensures
            blocks == self@.block_count(),
            blocks >= 1,
    {
        proof {
            use_type_invariant(self);
        }
        let gap: u64 = self.end - self.start;
        gap as u128 + 1
    }

    /// Whether `block` lies in the range.
    pub fn contains(&self, block: u64) -> (inside: bool)
        ensures
            inside == self@.contains(block as int),
    {
        self.start <= block && block <= self.end
    }
}

/// The models of a sequence of ranges, in the same order.
pub open spec fn spans(ranges: Seq<BlockRange>) -> Seq<BlockSpan> {
    ranges.map_values(|range: BlockRange| range@)
}

/// How many pages of width at most `width` cover `[0, head]`: one for
/// each multiple of `width + 1` up to `head`.
pub open spec fn page_count(head: int, width: int) -> int {
    head / (width + 1) + 1
}

/// The page at position `index` when `[0, head]` is cut into pages of
/// width `width`: it starts at `index * (width + 1)` and stops `width`
/// blocks further on or at `head`, whichever comes first.
pub open spec fn page_span(head: int, width: int, index: int) -> BlockSpan {
    let start = index * (width + 1);
    BlockSpan {
        start,
        end: if start + width <= head {
            start + width
        } else {
            head
        },
    }
}

/// The pages that cover `[0, head]` with a width of at most `width` each.
pub open spec fn page_plan(head: int, width: int) -> Seq<BlockSpan> {
    Seq::new(page_count(head, width) as nat, |index: int| page_span(head, width, index))
}

/// Whether some page of `pages` holds `block`.
pub open spec fn covered(pages: Seq<BlockSpan>, block: int) -> bool {
    exists|i: int| 0 <= i < pages.len() && (#[trigger] pages[i]).contains(block)
}

/// `pages` cut `[0, head]` exactly: every page holds a block, a page
/// ends before the next begins, neighbours touch, and a block lies in some
/// page if and only if it lies in `[0, head]`.
pub open spec fn tiles(pages: Seq<BlockSpan>, head: int) -> bool {
    &&& forall|i: int| 0 <= i < pages.len() ==> (#[trigger] pages[i]).start <= pages[i].end
    &&& forall|i: int, j: int|
        0 <= i < j < pages.len() ==> (#[trigger] pages[i]).end < (#[trigger] pages[j]).start
    &&& forall|i: int, j: int|
        0 <= i < pages.len() && j == i + 1 && j < pages.len() ==> (#[trigger] pages[j]).start == (
        #[trigger] pages[i]).end + 1
    &&& forall|block: int| #[trigger] covered(pages, block) <==> 0 <= block <= head
}

/// Every page of `pages` has a width of at most `width`, and every page
/// but the last has exactly that width.
pub open spec fn full_but_last(pages: Seq<BlockSpan>, width: int) -> bool {
    &&& forall|i: int| 0 <= i < pages.len() ==> 0 <= (#[trigger] pages[i]).width() <= width
    &&& forall|i: int| 0 <= i < pages.len() - 1 ==> (#[trigger] pages[i]).width() == width
}

proof fn lemma_next_multiple(index: int, stride: int)
    ensures
        (index + 1) * stride == index * stride + stride,
{
    assert((index + 1) * stride == index * stride + stride) by (nonlinear_arith);
}

proof fn lemma_multiples_ordered(i: int, j: int, stride: int)
    requires
        i <= j,
        0 <= stride,
    ensures
        i * stride <= j * stride,
{
    assert(i * stride <= j * stride) by (nonlinear_arith)
        requires
            i <= j,
            0 <= stride,
    ;
}

/// `index * stride <= head` exactly for the indices up to `head / stride`.
proof fn lemma_multiple_below_head(head: int, stride: int, index: int)
    requires
        0 <= head,
        1 <= stride,
        0 <= index,
    ensures
        index * stride <= head <==> index <= head / stride,
        (head / stride) * stride <= head < (head / stride) * stride + stride,
        0 <= head / stride,
{
    let q = head / stride;
    assert(q * stride <= head < q * stride + stride && 0 <= q) by (nonlinear_arith)
        requires
            q == head / stride,
            0 <= head,
            1 <= stride,
    ;
    if index <= q {
        lemma_multiples_ordered(index, q, stride);
    } else {
        lemma_multiples_ordered(q + 1, index, stride);
        lemma_next_multiple(q, stride);
    }
}

/// Where a block lies between two successive multiples of `stride`, the
/// quotient is the index of the lower one.
proof fn lemma_quotient_pinned(block: int, stride: int, index: int)
    requires
        1 <= stride,
        index * stride <= block < index * stride + stride,
    ensures
        block / stride == index,
{
    assert(block / stride == index) by (nonlinear_arith)
        requires
            1 <= stride,
            index * stride <= block < index * stride + stride,
    ;
}

/// Each page of a plan holds at least one block, has a width of at most
/// `width`, and stays inside `[0, head]`; each page but the last has
/// exactly the width `width`.
pub proof fn lemma_page_span_bounds(head: int, width: int, index: int)
    requires
        0 <= head,
        0 <= width,
        0 <= index < page_count(head, width),
    ensures
        0 <= page_span(head, width, index).start <= page_span(head, width, index).end <= head,
        0 <= page_span(head, width, index).width() <= width,
        index < page_count(head, width) - 1 ==> page_span(head, width, index).width() == width,
        page_span(head, width, index).start == index * (width + 1),
{
    lemma_multiple_below_head(head, width + 1, index);
    lemma_multiples_ordered(0, index, width + 1);
    if index < page_count(head, width) - 1 {
        lemma_multiple_below_head(head, width + 1, index + 1);
        lemma_next_multiple(index, width + 1);
    }
}

/// The pages of a plan cut `[0, head]` exactly: they are contiguous, do
/// not overlap, come ordered by their first block, and their union is
/// `[0, head]` with no gap and nothing outside. All of them are full but
/// the last.
pub proof fn lemma_page_plan_tiles(head: int, width: int)
    requires
        0 <= head,
        0 <= width,
    ensures
        tiles(page_plan(head, width), head),
        full_but_last(page_plan(head, width), width),
        page_plan(head, width).len() == page_count(head, width),
        page_plan(head, width).len() >= 1,
        page_plan(head, width).first().start == 0,
        page_plan(head, width).last().end == head,
{
    let pages = page_plan(head, width);
    let count = page_count(head, width);
    let stride = width + 1;
    lemma_multiple_below_head(head, stride, 0);
    assert(pages.len() == count);
    assert forall|i: int| 0 <= i < pages.len() implies (#[trigger] pages[i]).start
        <= pages[i].end && 0 <= pages[i].width() <= width by {
        lemma_page_span_bounds(head, width, i);
    }
    assert forall|i: int| 0 <= i < pages.len() - 1 implies (#[trigger] pages[i]).width()
        == width by {
        lemma_page_span_bounds(head, width, i);
    }
    assert forall|i: int, j: int| 0 <= i < j < pages.len() implies (#[trigger] pages[i]).end < (
    #[trigger] pages[j]).start by {
        lemma_next_multiple(i, stride);
        lemma_multiples_ordered(i + 1, j, stride);
    }
    assert forall|i: int, j: int|
        0 <= i < pages.len() && j == i + 1 && j < pages.len() implies (#[trigger] pages[j]).start
        == (#[trigger] pages[i]).end + 1 by {
        lemma_next_multiple(i, stride);
        lemma_multiple_below_head(head, stride, j);
    }
    assert forall|block: int| #[trigger] covered(pages, block) <==> 0 <= block <= head by {
        if 0 <= block <= head {
            let i = block / stride;
            lemma_multiple_below_head(block, stride, i);
            lemma_multiple_below_head(head, stride, i);
            assert(pages[i].contains(block));
        }
        if covered(pages, block) {
            let i = choose|i: int| 0 <= i < pages.len() && (#[trigger] pages[i]).contains(block);
            lemma_page_span_bounds(head, width, i);
        }
    }
    assert(pages.first().start == 0) by {
        assert(0 * stride == 0) by (nonlinear_arith);
    }
    assert(pages.last().end == head) by {
        lemma_multiple_below_head(head, stride, count - 1);
    }
}

/// In a plan, the page that holds `block` is the one at
/// `block / (width + 1)`.
pub proof fn lemma_page_of_block(head: int, width: int, block: int, index: int)
    requires
        0 <= head,
        0 <= width,
        0 <= index < page_count(head, width),
    ensures
        page_span(head, width, index).contains(block) <==> 0 <= block <= head && index == block / (
        width + 1),
{
    let stride = width + 1;
    lemma_page_span_bounds(head, width, index);
    lemma_multiple_below_head(head, stride, index);
    if page_span(head, width, index).contains(block) {
        lemma_quotient_pinned(block, stride, index);
    }
    if 0 <= block <= head && index == block / stride {
        lemma_multiple_below_head(block, stride, index);
    }
}

/// Cuts `[0, head]` into pages of width at most `max_width`.
///
/// The result is `page_plan(head, max_width)`: one page for each multiple
/// of `max_width + 1` up to `head`. A full page runs from a block `n` to
/// `n + max_width`; every page is full but the last, which stops at
/// `head`.
pub fn plan(head: u64, max_width: u64) -> (pages: Vec<Page>)
    requires
        max_width >= 1,
    ensures
        spans(pages@) == page_plan(head as int, max_width as int),
        tiles(spans(pages@), head as int),
        full_but_last(spans(pages@), max_width as int),
        pages@.len() == head as int / (max_width + 1) + 1,
        head <= max_width ==> pages@.len() == 1 && spans(pages@) == seq![
            (BlockSpan { start: 0, end: head as int }),
        ],
{
    let mut pages: Vec<Page> = Vec::new();
    let mut start: u64 = 0;
    let ghost stride = max_width as int + 1;
    proof {
        assert(0 * stride == 0) by (nonlinear_arith);
    }
    while head - start > max_width
        invariant
            max_width >= 1,
            stride == max_width + 1,
            start <= head,
            start == pages@.len() * stride,
            forall|i: int|
                0 <= i < pages@.len() ==> (#[trigger] pages@[i])@ == page_span(
                    head as int,
                    max_width as int,
                    i,
                ),
        decreases head - start,
    {
        let full: Page = BlockRange { start, end: start + max_width };
        proof {
            lemma_next_multiple(pages@.len() as int, stride);
        }
        pages.push(full);
        start = start + max_width + 1;
    }
    let rest: Page = BlockRange { start, end: head };
    proof {
        lemma_quotient_pinned(head as int, stride, pages@.len() as int);
    }
    pages.push(rest);
    proof {
        assert(spans(pages@) =~= page_plan(head as int, max_width as int));
        lemma_page_plan_tiles(head as int, max_width as int);
        if head <= max_width {
            lemma_quotient_pinned(head as int, stride, 0);
            assert(spans(pages@) =~= seq![(BlockSpan { start: 0, end: head as int })]);
        }
    }
    pages
}

} // verus!
