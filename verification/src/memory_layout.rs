//! Page geometry shared by the loaders and allocators.
use vstd::prelude::*;

verus! {

/// Size of a physical page frame and of a virtual page.
pub const PAGE_FRAME_SIZE: usize = 4096;

/// The start of the page that holds `x`.
pub open spec fn page_align_down(x: int) -> int {
    x - x % (PAGE_FRAME_SIZE as int)
}

/// `x & !0xFFF` clears the offset within the page.
pub proof fn lemma_mask_page_down(x: usize)
    ensures
        x & !0xFFFusize == page_align_down(x as int),
        (x & 0xFFFusize) == x % 4096,
{
    assert(x & !0xFFFusize == x - x % 4096) by (bit_vector);
    assert((x & 0xFFFusize) == x % 4096) by (bit_vector);
}

/// Aligned-down addresses are page aligned and never pass the last whole page.
pub proof fn lemma_page_align_down_bounds(x: int)
    requires
        0 <= x <= usize::MAX,
    ensures
        page_align_down(x) % (PAGE_FRAME_SIZE as int) == 0,
        0 <= page_align_down(x) <= x,
        x < page_align_down(x) + PAGE_FRAME_SIZE,
        page_align_down(x) <= usize::MAX - (PAGE_FRAME_SIZE - 1),
{
    assert(usize::MAX % 4096 == 4095);
}

/// Between two page-aligned addresses lie a whole number of pages.
pub proof fn lemma_aligned_span(a: int, b: int)
    requires
        a % 4096 == 0,
        b % 4096 == 0,
        a < b,
    ensures
        (b - a + 4095) / 4096 * 4096 == b - a,
        (b - a + 4095) / 4096 >= 1,
{
    assert((b - a) % 4096 == 0) by (nonlinear_arith)
        requires
            a % 4096 == 0,
            b % 4096 == 0,
    ;
    assert((b - a + 4095) / 4096 * 4096 == b - a) by (nonlinear_arith)
        requires
            (b - a) % 4096 == 0,
            b - a > 0,
    ;
}

/// The distance between two page-aligned addresses is a whole number of pages.
pub proof fn lemma_aligned_distance(a: int, b: int)
    requires
        a % 4096 == 0,
        b % 4096 == 0,
        a <= b,
    ensures
        (b - a) / 4096 * 4096 == b - a,
{
    assert((b - a) % 4096 == 0) by (nonlinear_arith)
        requires
            a % 4096 == 0,
            b % 4096 == 0,
    ;
    assert((b - a) / 4096 * 4096 == b - a) by (nonlinear_arith)
        requires
            (b - a) % 4096 == 0,
    ;
}

/// Aligning down keeps the order of addresses.
pub proof fn lemma_align_down_monotone(x: int, y: int)
    requires
        0 <= x <= y,
    ensures
        page_align_down(x) <= page_align_down(y),
{
    assert(x - x % 4096 <= y - y % 4096) by (nonlinear_arith)
        requires
            0 <= x <= y,
    ;
}

/// The page after the one holding `x` holds `x + PAGE_FRAME_SIZE`.
pub proof fn lemma_align_down_shift(x: int)
    requires
        0 <= x,
    ensures
        page_align_down(x + PAGE_FRAME_SIZE) == page_align_down(x) + PAGE_FRAME_SIZE,
{
}

} // verus!
