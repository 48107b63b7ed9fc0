//! The corner rounder: clips one (or all four) corners of a raster against a
//! quarter circle, scaling the alpha channel of every corner pixel by its
//! sub-pixel coverage. Only the alpha channel is touched; the red, green and
//! blue channels and all pixels outside the corner blocks are left as they
//! were.

use vstd::prelude::*;
use crate::cover::{
    coverage, coverage_at, lemma_coverage_bounds, lemma_coverage_empty, lemma_coverage_full,
};
use crate::raster::Raster;
use crate::ProcessError;

verus! {

/// The four physical corners a rounding pass can target. The arc walk itself
/// is corner-agnostic: the corner only selects the orientation transform that
/// maps canonical top-left local coordinates onto physical pixels.
#[derive(Clone, Copy, Debug, PartialEq, Eq, Structural)]
pub enum Corner {
    TopLeft,
    TopRight,
    BottomRight,
    BottomLeft,
}

/// The horizontal orientation transform of corner `c` in a raster of width
/// `w`: maps a local column to a physical column. It is an involution, so it
/// also maps physical columns back to local ones.
pub open spec fn remap_x(c: Corner, w: int, i: int) -> int {
    match c {
        Corner::TopLeft => i,
        Corner::BottomLeft => i,
        Corner::TopRight => w - 1 - i,
        Corner::BottomRight => w - 1 - i,
    }
}

/// The vertical orientation transform of corner `c` in a raster of height `h`.
pub open spec fn remap_y(c: Corner, h: int, j: int) -> int {
    match c {
        Corner::TopLeft => j,
        Corner::TopRight => j,
        Corner::BottomLeft => h - 1 - j,
        Corner::BottomRight => h - 1 - j,
    }
}

/// Whether pixel `(x, y)` lies in the `r x r` block clipped for corner `c`.
pub open spec fn in_corner_region(c: Corner, w: int, h: int, r: int, x: int, y: int) -> bool {
    remap_x(c, w, x) < r && remap_y(c, h, y) < r
}

/// The alpha scale: a coverage of `cov` out of 256 maps alpha `a` to
/// `(cov * a + 128) / 256`, rounding to nearest.
pub open spec fn scale_alpha(cov: int, a: int) -> int {
    (cov * a + 128) / 256
}

/// Full coverage keeps alpha exactly.
pub proof fn lemma_scale_alpha_full(a: int)
    requires
        0 <= a <= 255,
    ensures
        scale_alpha(256, a) == a,
{
    assert((256 * a + 128) / 256 == a) by (nonlinear_arith)
        requires
            0 <= a <= 255,
    ;
}

/// Zero coverage forces alpha to zero.
pub proof fn lemma_scale_alpha_cov_zero(a: int)
    requires
        0 <= a <= 255,
    ensures
        scale_alpha(0, a) == 0,
{
    assert((0 * a + 128) / 256 == 0) by (nonlinear_arith)
        requires
            0 <= a <= 255,
    ;
}

/// An alpha of zero stays zero under any coverage.
pub proof fn lemma_scale_alpha_of_zero(cov: int)
    requires
        0 <= cov <= 256,
    ensures
        scale_alpha(cov, 0) == 0,
{
    assert((cov * 0 + 128) / 256 == 0) by (nonlinear_arith)
        requires
            0 <= cov <= 256,
    ;
}

/// The scaled alpha is a byte and never exceeds the alpha it scales.
pub proof fn lemma_scale_alpha_bounds(cov: int, a: int)
    requires
        0 <= cov <= 256,
        0 <= a <= 255,
    ensures
        0 <= cov * a <= 65280,
        0 <= scale_alpha(cov, a) <= a,
{
    assert(0 <= cov * a <= 65280 && 0 <= (cov * a + 128) / 256 <= a) by (nonlinear_arith)
        requires
            0 <= cov <= 256,
            0 <= a <= 255,
    ;
}

/// Scales alpha `a` by a coverage `cov` out of 256, rounding to nearest.
pub fn scale_alpha_exec(cov: u16, a: u8) -> (v: u8)
    requires
        cov <= 256,
    ensures
        v as int == scale_alpha(cov as int, a as int),
{
    proof {
        lemma_scale_alpha_bounds(cov as int, a as int);
    }
    (((cov as u32) * (a as u32) + 128) / 256) as u8
}

/// What channel `ch` of pixel `(x, y)` holds after corner `c` is rounded with
/// radius `r` on raster `pre`: alpha inside the corner block is scaled by the
/// pixel's coverage; everything else is untouched.
pub open spec fn rounded_chan(pre: Raster, r: int, c: Corner, x: int, y: int, ch: int) -> u8 {
    let w = pre.spec_width();
    let h = pre.spec_height();
    if ch == 3 && in_corner_region(c, w, h, r, x, y) {
        scale_alpha(coverage(r, remap_x(c, w, x), remap_y(c, h, y)), pre.alpha(x, y) as int) as u8
    } else {
        pre.chan(x, y, ch)
    }
}

/// The full relation between a raster before and after one corner is rounded.
pub open spec fn corner_rounded(pre: Raster, post: Raster, r: int, c: Corner) -> bool {
    &&& post.spec_width() == pre.spec_width()
    &&& post.spec_height() == pre.spec_height()
    &&& post.wf()
    &&& forall|x: int, y: int, ch: int|
        pre.valid(x, y, ch) ==> #[trigger] post.chan(x, y, ch) == rounded_chan(pre, r, c, x, y, ch)
}

/// The orientation transforms are involutions.
pub proof fn lemma_remap_involution(c: Corner, w: int, h: int, x: int, y: int)
    ensures
        remap_x(c, w, remap_x(c, w, x)) == x,
        remap_y(c, h, remap_y(c, h, y)) == y,
{
}

/// With the radius at most half of each dimension, the four corner blocks are
/// pairwise disjoint.
pub proof fn lemma_regions_disjoint(c1: Corner, c2: Corner, w: int, h: int, r: int, x: int, y: int)
    requires
        2 * r <= w,
        2 * r <= h,
        0 <= x < w,
        0 <= y < h,
        in_corner_region(c1, w, h, r, x, y),
        in_corner_region(c2, w, h, r, x, y),
    ensures
        c1 == c2,
{
}

/// A pixel whose center is strictly nearer than `r - 1` to the arc center is
/// wholly inside the circle.
pub proof fn lemma_center_near_implies_inside(r: int, i: int, j: int)
    by (nonlinear_arith)
    requires
        1 <= r,
        0 <= i < r,
        0 <= j < r,
        (2 * (r - i) - 1) * (2 * (r - i) - 1) + (2 * (r - j) - 1) * (2 * (r - j) - 1) < 4 * (r - 1)
            * (r - 1),
    ensures
        (r - i) * (r - i) + (r - j) * (r - j) <= r * r,
{
}

/// Progress marker for the scan: local pixel `(li, lj)` has been processed
/// once the scan position `(i, j)` has moved past it in column-major order.
spec fn pixel_done(c: Corner, w: int, h: int, x: int, y: int, i: int, j: int) -> bool {
    let li = remap_x(c, w, x);
    let lj = remap_y(c, h, y);
    li < i || (li == i && lj < j)
}

/// Loop invariant of the corner scan: every corner pixel already passed holds
/// its rounded value, everything else still holds its starting value.
spec fn rounded_upto(pre: Raster, cur: Raster, r: int, c: Corner, i: int, j: int) -> bool {
    &&& cur.spec_width() == pre.spec_width()
    &&& cur.spec_height() == pre.spec_height()
    &&& cur.wf()
    &&& forall|x: int, y: int, ch: int|
        pre.valid(x, y, ch) ==> #[trigger] cur.chan(x, y, ch) == (if ch == 3 && in_corner_region(
            c,
            pre.spec_width(),
            pre.spec_height(),
            r,
            x,
            y,
        ) && pixel_done(c, pre.spec_width(), pre.spec_height(), x, y, i, j) {
            rounded_chan(pre, r, c, x, y, ch)
        } else {
            pre.chan(x, y, ch)
        })
}

/// What channel `ch` of pixel `(x, y)` holds after all four corners are
/// rounded with radius `r` on raster `pre`. With the radius at most half of
/// each dimension the corner blocks are disjoint, so at most one branch
/// applies to any pixel.
pub open spec fn all_rounded_chan(pre: Raster, r: int, x: int, y: int, ch: int) -> u8 {
    let w = pre.spec_width();
    let h = pre.spec_height();
    if ch == 3 && in_corner_region(Corner::TopLeft, w, h, r, x, y) {
        rounded_chan(pre, r, Corner::TopLeft, x, y, ch)
    } else if ch == 3 && in_corner_region(Corner::TopRight, w, h, r, x, y) {
        rounded_chan(pre, r, Corner::TopRight, x, y, ch)
    } else if ch == 3 && in_corner_region(Corner::BottomRight, w, h, r, x, y) {
        rounded_chan(pre, r, Corner::BottomRight, x, y, ch)
    } else if ch == 3 && in_corner_region(Corner::BottomLeft, w, h, r, x, y) {
        rounded_chan(pre, r, Corner::BottomLeft, x, y, ch)
    } else {
        pre.chan(x, y, ch)
    }
}

/// The full relation between a raster before and after all four corners are
/// rounded with one radius.
pub open spec fn fully_rounded(pre: Raster, post: Raster, r: int) -> bool {
    &&& post.spec_width() == pre.spec_width()
    &&& post.spec_height() == pre.spec_height()
    &&& post.wf()
    &&& forall|x: int, y: int, ch: int|
        pre.valid(x, y, ch) ==> #[trigger] post.chan(x, y, ch) == all_rounded_chan(pre, r, x, y, ch)
}

/// Maps local corner coordinates `(i, j)` to the physical pixel of corner `c`.
fn remap_exec(c: Corner, w: u32, h: u32, i: u32, j: u32) -> (p: (u32, u32))
    requires
        i < w,
        j < h,
    ensures
        p.0 as int == remap_x(c, w as int, i as int),
        p.1 as int == remap_y(c, h as int, j as int),
        remap_x(c, w as int, p.0 as int) == i as int,
        remap_y(c, h as int, p.1 as int) == j as int,
        p.0 < w,
        p.1 < h,
{
    let x = match c {
        Corner::TopLeft => i,
        Corner::BottomLeft => i,
        Corner::TopRight => w - 1 - i,
        Corner::BottomRight => w - 1 - i,
    };
    let y = match c {
        Corner::TopLeft => j,
        Corner::TopRight => j,
        Corner::BottomLeft => h - 1 - j,
        Corner::BottomRight => h - 1 - j,
    };
    (x, y)
}

/// Rounds one corner of the raster: the alpha of every pixel of the corner's
/// `r x r` block is scaled by the pixel's sub-pixel coverage of the quarter
/// circle of radius `r`; every other byte of the raster is unchanged. With
/// `r == 0` the raster is untouched.
pub fn round_corner(ras: &mut Raster, r: u32, c: Corner)
    requires
        old(ras).wf(),
        2 * (r as int) <= old(ras).spec_width(),
        2 * (r as int) <= old(ras).spec_height(),
    ensures
        final(ras).wf(),
        corner_rounded(*old(ras), *final(ras), r as int, c),
{
    let ghost pre = *old(ras);
    let w = ras.width();
    let h = ras.height();
    let mut i: u32 = 0;
    while i < r
        invariant
            i <= r,
            w as int == pre.spec_width(),
            h as int == pre.spec_height(),
            2 * (r as int) <= w as int,
            2 * (r as int) <= h as int,
            pre == *old(ras),
            rounded_upto(pre, *ras, r as int, c, i as int, 0),
        decreases r - i,
    {
        let mut j: u32 = 0;
        while j < r
            invariant
                i < r,
                j <= r,
                w as int == pre.spec_width(),
                h as int == pre.spec_height(),
                2 * (r as int) <= w as int,
                2 * (r as int) <= h as int,
                pre == *old(ras),
                rounded_upto(pre, *ras, r as int, c, i as int, j as int),
            decreases r - j,
        {
            let a = r - i;
            let b = r - j;
            let (x, y) = remap_exec(c, w, h, i, j);
            proof {
                assert((a as int) * (a as int) <= 0x4000_0000_0000_0000) by (nonlinear_arith)
                    requires
                        0 <= a as int <= 0x8000_0000,
                ;
                assert((b as int) * (b as int) <= 0x4000_0000_0000_0000) by (nonlinear_arith)
                    requires
                        0 <= b as int <= 0x8000_0000,
                ;
                assert((r as int) * (r as int) <= 0x4000_0000_0000_0000) by (nonlinear_arith)
                    requires
                        0 <= r as int <= 0x8000_0000,
                ;
            }
            let aa: u64 = (a as u64) * (a as u64);
            let bb: u64 = (b as u64) * (b as u64);
            let rr: u64 = (r as u64) * (r as u64);
            let an = a - 1;
            let bn = b - 1;
            proof {
                assert((an as int) * (an as int) <= 0x4000_0000_0000_0000) by (nonlinear_arith)
                    requires
                        0 <= an as int <= 0x8000_0000,
                ;
                assert((bn as int) * (bn as int) <= 0x4000_0000_0000_0000) by (nonlinear_arith)
                    requires
                        0 <= bn as int <= 0x8000_0000,
                ;
            }
            let nn: u64 = (an as u64) * (an as u64) + (bn as u64) * (bn as u64);
            let ghost prev = *ras;
            let ghost target = rounded_chan(pre, r as int, c, x as int, y as int, 3);
            proof {
                // The scanned pixel is still untouched, so its alpha is the starting one.
                assert(prev.chan(x as int, y as int, 3) == pre.chan(x as int, y as int, 3));
                lemma_coverage_bounds(r as int, i as int, j as int);
                lemma_scale_alpha_bounds(
                    coverage(r as int, i as int, j as int),
                    pre.alpha(x as int, y as int) as int,
                );
            }
            if aa + bb <= rr {
                proof {
                    lemma_coverage_full(r as int, i as int, j as int);
                    lemma_scale_alpha_full(pre.alpha(x as int, y as int) as int);
                    assert(target == pre.chan(x as int, y as int, 3));
                }
            } else if nn >= rr {
                proof {
                    lemma_coverage_empty(r as int, i as int, j as int);
                    lemma_scale_alpha_cov_zero(pre.alpha(x as int, y as int) as int);
                    assert(target == 0);
                }
                ras.set_alpha(x, y, 0);
            } else {
                let cov = coverage_at(r, i, j);
                let cur = ras.alpha_at(x, y);
                let nv = scale_alpha_exec(cov, cur);
                proof {
                    assert(target == nv);
                }
                ras.set_alpha(x, y, nv);
            }
            proof {
                assert forall|xx: int, yy: int, ch: int| pre.valid(xx, yy, ch) implies #[trigger] ras
                    .chan(xx, yy, ch) == (if ch == 3 && in_corner_region(
                    c,
                    pre.spec_width(),
                    pre.spec_height(),
                    r as int,
                    xx,
                    yy,
                ) && pixel_done(
                    c,
                    pre.spec_width(),
                    pre.spec_height(),
                    xx,
                    yy,
                    i as int,
                    j as int + 1,
                ) {
                    rounded_chan(pre, r as int, c, xx, yy, ch)
                } else {
                    pre.chan(xx, yy, ch)
                }) by {
                    lemma_remap_involution(c, w as int, h as int, xx, yy);
                    assert(prev.chan(xx, yy, ch) == (if ch == 3 && in_corner_region(
                        c,
                        pre.spec_width(),
                        pre.spec_height(),
                        r as int,
                        xx,
                        yy,
                    ) && pixel_done(
                        c,
                        pre.spec_width(),
                        pre.spec_height(),
                        xx,
                        yy,
                        i as int,
                        j as int,
                    ) {
                        rounded_chan(pre, r as int, c, xx, yy, ch)
                    } else {
                        pre.chan(xx, yy, ch)
                    }));
                }
            }
            j = j + 1;
        }
        proof {
            assert forall|xx: int, yy: int, ch: int| pre.valid(xx, yy, ch) implies #[trigger] ras
                .chan(xx, yy, ch) == (if ch == 3 && in_corner_region(
                c,
                pre.spec_width(),
                pre.spec_height(),
                r as int,
                xx,
                yy,
            ) && pixel_done(
                c,
                pre.spec_width(),
                pre.spec_height(),
                xx,
                yy,
                i as int + 1,
                0,
            ) {
                rounded_chan(pre, r as int, c, xx, yy, ch)
            } else {
                pre.chan(xx, yy, ch)
            }) by {
                assert(ras.chan(xx, yy, ch) == (if ch == 3 && in_corner_region(
                    c,
                    pre.spec_width(),
                    pre.spec_height(),
                    r as int,
                    xx,
                    yy,
                ) && pixel_done(
                    c,
                    pre.spec_width(),
                    pre.spec_height(),
                    xx,
                    yy,
                    i as int,
                    r as int,
                ) {
                    rounded_chan(pre, r as int, c, xx, yy, ch)
                } else {
                    pre.chan(xx, yy, ch)
                }));
            }
        }
        i = i + 1;
    }
    proof {
        assert forall|xx: int, yy: int, ch: int| pre.valid(xx, yy, ch) implies #[trigger] ras.chan(
            xx,
            yy,
            ch,
        ) == rounded_chan(pre, r as int, c, xx, yy, ch) by {
            assert(ras.chan(xx, yy, ch) == (if ch == 3 && in_corner_region(
                c,
                pre.spec_width(),
                pre.spec_height(),
                r as int,
                xx,
                yy,
            ) && pixel_done(c, pre.spec_width(), pre.spec_height(), xx, yy, r as int, 0) {
                rounded_chan(pre, r as int, c, xx, yy, ch)
            } else {
                pre.chan(xx, yy, ch)
            }));
        }
    }
}

/// Rounds all four corners of the raster with one radius. The blocks are
/// disjoint, so each corner pixel's alpha is scaled once, by the coverage at
/// its own corner's local coordinates; every other byte is unchanged.
pub fn round_corners(ras: &mut Raster, r: u32)
    requires
        old(ras).wf(),
        2 * (r as int) <= old(ras).spec_width(),
        2 * (r as int) <= old(ras).spec_height(),
    ensures
        final(ras).wf(),
        fully_rounded(*old(ras), *final(ras), r as int),
{
    let ghost pre = *old(ras);
    round_corner(ras, r, Corner::TopLeft);
    let ghost s1 = *ras;
    round_corner(ras, r, Corner::TopRight);
    let ghost s2 = *ras;
    round_corner(ras, r, Corner::BottomRight);
    let ghost s3 = *ras;
    round_corner(ras, r, Corner::BottomLeft);
    proof {
        let ri = r as int;
        let w = pre.spec_width();
        let h = pre.spec_height();
        assert forall|x: int, y: int, ch: int| pre.valid(x, y, ch) implies #[trigger] ras.chan(
            x,
            y,
            ch,
        ) == all_rounded_chan(pre, ri, x, y, ch) by {
            assert(s1.chan(x, y, ch) == rounded_chan(pre, ri, Corner::TopLeft, x, y, ch));
            assert(s2.chan(x, y, ch) == rounded_chan(s1, ri, Corner::TopRight, x, y, ch));
            assert(s3.chan(x, y, ch) == rounded_chan(s2, ri, Corner::BottomRight, x, y, ch));
            assert(ras.chan(x, y, ch) == rounded_chan(s3, ri, Corner::BottomLeft, x, y, ch));
            if ch == 3 {
                assert(s1.chan(x, y, 3) == rounded_chan(pre, ri, Corner::TopLeft, x, y, 3));
                assert(s2.chan(x, y, 3) == rounded_chan(s1, ri, Corner::TopRight, x, y, 3));
                assert(s3.chan(x, y, 3) == rounded_chan(s2, ri, Corner::BottomRight, x, y, 3));
            }
            if in_corner_region(Corner::TopLeft, w, h, ri, x, y) && in_corner_region(
                Corner::TopRight,
                w,
                h,
                ri,
                x,
                y,
            ) {
                lemma_regions_disjoint(Corner::TopLeft, Corner::TopRight, w, h, ri, x, y);
            }
            if in_corner_region(Corner::TopLeft, w, h, ri, x, y) && in_corner_region(
                Corner::BottomRight,
                w,
                h,
                ri,
                x,
                y,
            ) {
                lemma_regions_disjoint(Corner::TopLeft, Corner::BottomRight, w, h, ri, x, y);
            }
            if in_corner_region(Corner::TopLeft, w, h, ri, x, y) && in_corner_region(
                Corner::BottomLeft,
                w,
                h,
                ri,
                x,
                y,
            ) {
                lemma_regions_disjoint(Corner::TopLeft, Corner::BottomLeft, w, h, ri, x, y);
            }
            if in_corner_region(Corner::TopRight, w, h, ri, x, y) && in_corner_region(
                Corner::BottomRight,
                w,
                h,
                ri,
                x,
                y,
            ) {
                lemma_regions_disjoint(Corner::TopRight, Corner::BottomRight, w, h, ri, x, y);
            }
            if in_corner_region(Corner::TopRight, w, h, ri, x, y) && in_corner_region(
                Corner::BottomLeft,
                w,
                h,
                ri,
                x,
                y,
            ) {
                lemma_regions_disjoint(Corner::TopRight, Corner::BottomLeft, w, h, ri, x, y);
            }
            if in_corner_region(Corner::BottomRight, w, h, ri, x, y) && in_corner_region(
                Corner::BottomLeft,
                w,
                h,
                ri,
                x,
                y,
            ) {
                lemma_regions_disjoint(Corner::BottomRight, Corner::BottomLeft, w, h, ri, x, y);
            }
        }
    }
}

/// Validates the radius, then rounds all four corners: succeeds exactly when
/// twice the radius fits in both dimensions (otherwise opposite corner blocks
/// would overlap, which is rejected rather than silently corrupting pixels);
/// on failure the raster is untouched.
pub fn round_corners_checked(ras: &mut Raster, r: u32) -> (res: Result<(), ProcessError>)
    requires
        old(ras).wf(),
    ensures
        final(ras).wf(),
        match res {
            Ok(_) => 2 * (r as int) <= old(ras).spec_width() && 2 * (r as int) <= old(
                ras,
            ).spec_height() && fully_rounded(*old(ras), *final(ras), r as int),
            Err(e) => e == ProcessError::PreconditionViolation && !(2 * (r as int) <= old(
                ras,
            ).spec_width() && 2 * (r as int) <= old(ras).spec_height()) && *final(ras) == *old(
                ras,
            ),
        },
{
    let w = ras.width();
    let h = ras.height();
    if 2 * (r as u64) <= w as u64 && 2 * (r as u64) <= h as u64 {
        round_corners(ras, r);
        Ok(())
    } else {
        Err(ProcessError::PreconditionViolation)
    }
}

} // verus!
