//! The corner rounder's general properties, stated over the rounding
//! relations and proved once and for all: a zero radius changes nothing,
//! pixels well inside the arc keep their alpha, pixels beyond it lose it,
//! the four corner masks of a square raster are exact rotations of one
//! another, and a second pass is stable away from the boundary annulus.

use vstd::prelude::*;
use crate::corner::{
    all_rounded_chan, corner_rounded, fully_rounded, in_corner_region, lemma_center_near_implies_inside,
    lemma_remap_involution, lemma_scale_alpha_cov_zero, lemma_scale_alpha_full,
    lemma_scale_alpha_of_zero, remap_x, remap_y, rounded_chan, Corner,
};
use crate::cover::{
    coverage, lemma_coverage_bounds, lemma_coverage_empty, lemma_coverage_full,
    lemma_coverage_symmetric,
};
use crate::raster::Raster;

verus! {

/// A radius of zero makes one corner's rounding pass the identity: every byte
/// of the raster, the alpha channel included, is exactly what it was.
pub proof fn lemma_zero_radius_corner_identity(pre: Raster, post: Raster, c: Corner)
    requires
        pre.wf(),
        corner_rounded(pre, post, 0, c),
    ensures
        post.bytes() == pre.bytes(),
{
    assert forall|x: int, y: int, ch: int| post.valid(x, y, ch) implies post.chan(x, y, ch)
        == pre.chan(x, y, ch) by {
        assert(post.chan(x, y, ch) == rounded_chan(pre, 0, c, x, y, ch));
        assert(!in_corner_region(c, pre.spec_width(), pre.spec_height(), 0, x, y));
    }
    Raster::lemma_bytes_eq_of_chans_eq(post, pre);
}

/// A radius of zero makes the full four-corner pass the identity on the bytes.
pub proof fn lemma_zero_radius_identity(pre: Raster, post: Raster)
    requires
        pre.wf(),
        fully_rounded(pre, post, 0),
    ensures
        post.bytes() == pre.bytes(),
{
    assert forall|x: int, y: int, ch: int| post.valid(x, y, ch) implies post.chan(x, y, ch)
        == pre.chan(x, y, ch) by {
        assert(post.chan(x, y, ch) == all_rounded_chan(pre, 0, x, y, ch));
        assert(!in_corner_region(Corner::TopLeft, pre.spec_width(), pre.spec_height(), 0, x, y));
        assert(!in_corner_region(Corner::TopRight, pre.spec_width(), pre.spec_height(), 0, x, y));
        assert(!in_corner_region(Corner::BottomRight, pre.spec_width(), pre.spec_height(), 0, x, y));
        assert(!in_corner_region(Corner::BottomLeft, pre.spec_width(), pre.spec_height(), 0, x, y));
    }
    Raster::lemma_bytes_eq_of_chans_eq(post, pre);
}

/// A corner pixel whose center lies at distance strictly below `r - 1` from
/// the arc's center keeps its alpha: it is wholly inside the circle, so its
/// coverage is full. `(i, j)` are the pixel's local corner coordinates; the
/// distance premise is stated on doubled coordinates to stay integral.
pub proof fn lemma_inner_pixel_unchanged(pre: Raster, post: Raster, r: int, c: Corner, i: int, j: int)
    requires
        pre.wf(),
        corner_rounded(pre, post, r, c),
        1 <= r,
        2 * r <= pre.spec_width(),
        2 * r <= pre.spec_height(),
        0 <= i < r,
        0 <= j < r,
        (2 * (r - i) - 1) * (2 * (r - i) - 1) + (2 * (r - j) - 1) * (2 * (r - j) - 1) < 4 * (r - 1)
            * (r - 1),
    ensures
        post.alpha(remap_x(c, pre.spec_width(), i), remap_y(c, pre.spec_height(), j)) == pre.alpha(
            remap_x(c, pre.spec_width(), i),
            remap_y(c, pre.spec_height(), j),
        ),
{
    let w = pre.spec_width();
    let h = pre.spec_height();
    let x = remap_x(c, w, i);
    let y = remap_y(c, h, j);
    lemma_remap_involution(c, w, h, i, j);
    assert(pre.valid(x, y, 3));
    assert(post.chan(x, y, 3) == rounded_chan(pre, r, c, x, y, 3));
    assert(in_corner_region(c, w, h, r, x, y));
    lemma_center_near_implies_inside(r, i, j);
    lemma_coverage_full(r, i, j);
    lemma_scale_alpha_full(pre.alpha(x, y) as int);
}

/// A corner pixel whose near corner lies at distance `r` or more from the
/// arc's center has its alpha forced to exactly zero: every point of it is on
/// or beyond the circle. `(i, j)` are the pixel's local corner coordinates.
pub proof fn lemma_outer_pixel_cleared(pre: Raster, post: Raster, r: int, c: Corner, i: int, j: int)
    requires
        pre.wf(),
        corner_rounded(pre, post, r, c),
        1 <= r,
        2 * r <= pre.spec_width(),
        2 * r <= pre.spec_height(),
        0 <= i < r,
        0 <= j < r,
        (r - 1 - i) * (r - 1 - i) + (r - 1 - j) * (r - 1 - j) >= r * r,
    ensures
        post.alpha(remap_x(c, pre.spec_width(), i), remap_y(c, pre.spec_height(), j)) == 0,
{
    let w = pre.spec_width();
    let h = pre.spec_height();
    let x = remap_x(c, w, i);
    let y = remap_y(c, h, j);
    lemma_remap_involution(c, w, h, i, j);
    assert(pre.valid(x, y, 3));
    assert(post.chan(x, y, 3) == rounded_chan(pre, r, c, x, y, 3));
    assert(in_corner_region(c, w, h, r, x, y));
    lemma_coverage_empty(r, i, j);
    lemma_scale_alpha_cov_zero(pre.alpha(x, y) as int);
}

/// Rotation symmetry: on a square raster whose four corner blocks start with
/// equal alpha at rotated positions, rounding all four corners with one
/// radius leaves equal alpha at those rotated positions — the four masks are
/// exact quarter-turn rotations of one another. `(i, j)` are local top-left
/// coordinates; its three images under quarter turns of an `n x n` square are
/// `(n-1-j, i)`, `(n-1-i, n-1-j)` and `(j, n-1-i)`.
pub proof fn lemma_rotation_symmetry(pre: Raster, post: Raster, r: int, i: int, j: int)
    requires
        pre.wf(),
        fully_rounded(pre, post, r),
        pre.spec_width() == pre.spec_height(),
        1 <= r,
        2 * r <= pre.spec_width(),
        0 <= i < r,
        0 <= j < r,
        pre.alpha(i, j) == pre.alpha(pre.spec_width() - 1 - j, i),
        pre.alpha(i, j) == pre.alpha(pre.spec_width() - 1 - i, pre.spec_width() - 1 - j),
        pre.alpha(i, j) == pre.alpha(j, pre.spec_width() - 1 - i),
    ensures
        post.alpha(i, j) == post.alpha(pre.spec_width() - 1 - j, i),
        post.alpha(i, j) == post.alpha(pre.spec_width() - 1 - i, pre.spec_width() - 1 - j),
        post.alpha(i, j) == post.alpha(j, pre.spec_width() - 1 - i),
{
    let n = pre.spec_width();
    assert(pre.valid(i, j, 3));
    assert(pre.valid(n - 1 - j, i, 3));
    assert(pre.valid(n - 1 - i, n - 1 - j, 3));
    assert(pre.valid(j, n - 1 - i, 3));
    assert(post.chan(i, j, 3) == all_rounded_chan(pre, r, i, j, 3));
    assert(post.chan(n - 1 - j, i, 3) == all_rounded_chan(pre, r, n - 1 - j, i, 3));
    assert(post.chan(n - 1 - i, n - 1 - j, 3) == all_rounded_chan(pre, r, n - 1 - i, n - 1 - j, 3));
    assert(post.chan(j, n - 1 - i, 3) == all_rounded_chan(pre, r, j, n - 1 - i, 3));
    lemma_coverage_symmetric(r, i, j);
    assert(in_corner_region(Corner::TopLeft, n, n, r, i, j));
    assert(!in_corner_region(Corner::TopLeft, n, n, r, n - 1 - j, i));
    assert(in_corner_region(Corner::TopRight, n, n, r, n - 1 - j, i));
    assert(!in_corner_region(Corner::TopLeft, n, n, r, n - 1 - i, n - 1 - j));
    assert(!in_corner_region(Corner::TopRight, n, n, r, n - 1 - i, n - 1 - j));
    assert(in_corner_region(Corner::BottomRight, n, n, r, n - 1 - i, n - 1 - j));
    assert(!in_corner_region(Corner::TopLeft, n, n, r, j, n - 1 - i));
    assert(!in_corner_region(Corner::TopRight, n, n, r, j, n - 1 - i));
    assert(!in_corner_region(Corner::BottomRight, n, n, r, j, n - 1 - i));
    assert(in_corner_region(Corner::BottomLeft, n, n, r, j, n - 1 - i));
}

/// Whether pixel `(x, y)` lies on some corner's boundary annulus: inside a
/// corner block with a coverage that is neither empty nor full.
pub open spec fn partially_covered(pre: Raster, r: int, c: Corner, x: int, y: int) -> bool {
    &&& in_corner_region(c, pre.spec_width(), pre.spec_height(), r, x, y)
    &&& 0 < coverage(r, remap_x(c, pre.spec_width(), x), remap_y(c, pre.spec_height(), y)) < 256
}

/// Whether pixel `(x, y)` lies on the boundary annulus of any corner.
pub open spec fn on_boundary(pre: Raster, r: int, x: int, y: int) -> bool {
    ||| partially_covered(pre, r, Corner::TopLeft, x, y)
    ||| partially_covered(pre, r, Corner::TopRight, x, y)
    ||| partially_covered(pre, r, Corner::BottomRight, x, y)
    ||| partially_covered(pre, r, Corner::BottomLeft, x, y)
}

/// A second rounding pass with the same radius is stable where the geometry
/// is already settled: alpha that the first pass forced to zero stays zero
/// everywhere, and away from the boundary annulus — where coverage is either
/// empty or full — the second pass changes nothing at all. (On the annulus a
/// second pass scales the already-scaled alpha again: coverage is recomputed
/// from position, not read back from the pixel.)
pub proof fn lemma_second_pass_stable(pre: Raster, mid: Raster, post: Raster, r: int)
    requires
        pre.wf(),
        fully_rounded(pre, mid, r),
        fully_rounded(mid, post, r),
        0 <= r,
        2 * r <= pre.spec_width(),
        2 * r <= pre.spec_height(),
    ensures
        forall|x: int, y: int|
            pre.valid(x, y, 3) && mid.alpha(x, y) == 0 ==> #[trigger] post.alpha(x, y) == 0,
        forall|x: int, y: int, ch: int|
            pre.valid(x, y, ch) && !on_boundary(pre, r, x, y) ==> #[trigger] post.chan(x, y, ch)
                == mid.chan(x, y, ch),
{
    let w = pre.spec_width();
    let h = pre.spec_height();
    assert forall|x: int, y: int| pre.valid(x, y, 3) && mid.alpha(x, y) == 0 implies #[trigger] post
        .alpha(x, y) == 0 by {
        lemma_second_pass_pixel_facts(pre, mid, post, r, x, y);
    }
    assert forall|x: int, y: int, ch: int|
        pre.valid(x, y, ch) && !on_boundary(pre, r, x, y) implies #[trigger] post.chan(x, y, ch)
        == mid.chan(x, y, ch) by {
        if ch == 3 {
            lemma_second_pass_pixel_facts(pre, mid, post, r, x, y);
        } else {
            assert(mid.chan(x, y, ch) == all_rounded_chan(pre, r, x, y, ch));
            assert(post.chan(x, y, ch) == all_rounded_chan(mid, r, x, y, ch));
        }
    }
}

/// The per-pixel alpha facts behind `lemma_second_pass_stable`, for one pixel.
proof fn lemma_second_pass_pixel_facts(pre: Raster, mid: Raster, post: Raster, r: int, x: int, y: int)
    requires
        pre.wf(),
        fully_rounded(pre, mid, r),
        fully_rounded(mid, post, r),
        0 <= r,
        2 * r <= pre.spec_width(),
        2 * r <= pre.spec_height(),
        pre.valid(x, y, 3),
    ensures
        mid.alpha(x, y) == 0 ==> post.alpha(x, y) == 0,
        !on_boundary(pre, r, x, y) ==> post.alpha(x, y) == mid.alpha(x, y),
{
    let w = pre.spec_width();
    let h = pre.spec_height();
    assert(mid.chan(x, y, 3) == all_rounded_chan(pre, r, x, y, 3));
    assert(post.chan(x, y, 3) == all_rounded_chan(mid, r, x, y, 3));
    if in_corner_region(Corner::TopLeft, w, h, r, x, y) {
        lemma_corner_pass_pixel(pre, mid, post, r, Corner::TopLeft, x, y);
    } else if in_corner_region(Corner::TopRight, w, h, r, x, y) {
        lemma_corner_pass_pixel(pre, mid, post, r, Corner::TopRight, x, y);
    } else if in_corner_region(Corner::BottomRight, w, h, r, x, y) {
        lemma_corner_pass_pixel(pre, mid, post, r, Corner::BottomRight, x, y);
    } else if in_corner_region(Corner::BottomLeft, w, h, r, x, y) {
        lemma_corner_pass_pixel(pre, mid, post, r, Corner::BottomLeft, x, y);
    }
}

/// For a pixel of corner `c`'s block, relates the two passes' alpha values
/// through the shared coverage of its local coordinates.
proof fn lemma_corner_pass_pixel(pre: Raster, mid: Raster, post: Raster, r: int, c: Corner, x: int, y: int)
    requires
        pre.wf(),
        fully_rounded(pre, mid, r),
        fully_rounded(mid, post, r),
        0 <= r,
        2 * r <= pre.spec_width(),
        2 * r <= pre.spec_height(),
        pre.valid(x, y, 3),
        in_corner_region(c, pre.spec_width(), pre.spec_height(), r, x, y),
    ensures
        mid.alpha(x, y) == 0 ==> post.alpha(x, y) == 0,
        !partially_covered(pre, r, c, x, y) ==> post.alpha(x, y) == mid.alpha(x, y),
{
    let w = pre.spec_width();
    let h = pre.spec_height();
    let li = remap_x(c, w, x);
    let lj = remap_y(c, h, y);
    let cov = coverage(r, li, lj);
    assert(mid.chan(x, y, 3) == all_rounded_chan(pre, r, x, y, 3));
    assert(post.chan(x, y, 3) == all_rounded_chan(mid, r, x, y, 3));
    lemma_coverage_bounds(r, li, lj);
    lemma_scale_alpha_of_zero(cov);
    if cov == 0 {
        lemma_scale_alpha_cov_zero(pre.alpha(x, y) as int);
        lemma_scale_alpha_cov_zero(mid.alpha(x, y) as int);
    }
    if cov == 256 {
        lemma_scale_alpha_full(pre.alpha(x, y) as int);
        lemma_scale_alpha_full(mid.alpha(x, y) as int);
    }
}

} // verus!
