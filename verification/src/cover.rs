//! Sub-pixel coverage of a circular corner arc, in pure integer arithmetic.
//!
//! A corner of radius `r` is clipped against the quarter circle whose center
//! sits, in local coordinates, at `(r, r)`; local pixel `(i, j)` spans the
//! unit square `[i, i+1] x [j, j+1]`, and `(0, 0)` is the outermost corner
//! pixel. Each pixel is subdivided into a 16 x 16 grid of sub-samples, so a
//! pixel's coverage — the number of sub-sample centers inside the circle — is
//! a value in `0 ..= 256`, exactly the resolution of an 8-bit alpha channel.

use vstd::prelude::*;

verus! {

/// Whether the sub-sample at scaled position `(sx, sy)` (sixteenths of a
/// pixel) lies inside the circle of radius `r` centered at scaled `(16r, 16r)`.
/// The sub-sample's center is at `(sx + 1/2, sy + 1/2)`; doubling both sides
/// of the distance comparison keeps everything integral:
/// `(32r - 2sx - 1)^2 + (32r - 2sy - 1)^2 <= (32r)^2 / 4 * 4 = 1024 r^2`.
pub open spec fn sub_inside(r: int, sx: int, sy: int) -> bool {
    let u = 32 * r - 2 * sx - 1;
    let v = 32 * r - 2 * sy - 1;
    u * u + v * v <= 1024 * r * r
}

/// Number of sub-samples `(x0, y0 + d)` with `0 <= d < n` inside the circle:
/// one vertical strip of a pixel's sub-sample grid.
pub open spec fn strip_count(r: int, x0: int, y0: int, n: int) -> int
    decreases n,
{
    if n <= 0 {
        0
    } else {
        strip_count(r, x0, y0, n - 1) + (if sub_inside(r, x0, y0 + (n - 1)) {
            1int
        } else {
            0int
        })
    }
}

/// Number of sub-samples in the `m`-column, `n`-row block anchored at
/// `(x0, y0)` inside the circle.
pub open spec fn grid_count(r: int, x0: int, y0: int, m: int, n: int) -> int
    decreases m,
{
    if m <= 0 {
        0
    } else {
        grid_count(r, x0, y0, m - 1, n) + strip_count(r, x0 + (m - 1), y0, n)
    }
}

/// Coverage of local pixel `(i, j)`: how many of its 256 sub-samples lie
/// inside the circle of radius `r`.
pub open spec fn coverage(r: int, i: int, j: int) -> int {
    grid_count(r, 16 * i, 16 * j, 16, 16)
}

/// A strip counts at least 0 and at most its length.
pub proof fn lemma_strip_bounds(r: int, x0: int, y0: int, n: int)
    requires
        0 <= n,
    ensures
        0 <= strip_count(r, x0, y0, n) <= n,
    decreases n,
{
    if n > 0 {
        lemma_strip_bounds(r, x0, y0, n - 1);
    }
}

/// A block counts at least 0 and at most its area.
pub proof fn lemma_grid_bounds(r: int, x0: int, y0: int, m: int, n: int)
    requires
        0 <= m,
        0 <= n,
    ensures
        0 <= grid_count(r, x0, y0, m, n) <= m * n,
    decreases m,
{
    if m > 0 {
        lemma_grid_bounds(r, x0, y0, m - 1, n);
        lemma_strip_bounds(r, x0 + (m - 1), y0, n);
        assert((m - 1) * n + n == m * n) by (nonlinear_arith);
    } else {
        assert(m * n == 0) by (nonlinear_arith)
            requires
                m == 0,
        ;
    }
}

/// Coverage is a value of the alpha scale.
pub proof fn lemma_coverage_bounds(r: int, i: int, j: int)
    ensures
        0 <= coverage(r, i, j) <= 256,
{
    lemma_grid_bounds(r, 16 * i, 16 * j, 16, 16);
}

/// A sub-sample of a pixel whose far corner is inside the circle is itself
/// inside: with `a = r - i` and `b = r - j`, `a^2 + b^2 <= r^2` puts the whole
/// pixel, hence every sub-sample center, inside.
proof fn lemma_sub_inside_of_inner(r: int, a: int, b: int, sx: int, sy: int) by (nonlinear_arith)
    requires
        1 <= a,
        1 <= b,
        a * a + b * b <= r * r,
        0 <= sx < 16,
        0 <= sy < 16,
    ensures
        (32 * a - 2 * sx - 1) * (32 * a - 2 * sx - 1) + (32 * b - 2 * sy - 1) * (32 * b - 2 * sy
            - 1) <= 1024 * r * r,
{
}

/// A sub-sample of a pixel whose near corner is outside the circle is itself
/// outside: with `c = r - 1 - i` and `d = r - 1 - j`, `c^2 + d^2 >= r^2` puts
/// every sub-sample center strictly outside.
proof fn lemma_sub_outside_of_outer(r: int, c: int, d: int, sx: int, sy: int) by (nonlinear_arith)
    requires
        0 <= c,
        0 <= d,
        c * c + d * d >= r * r,
        0 <= sx < 16,
        0 <= sy < 16,
    ensures
        (32 * (c + 1) - 2 * sx - 1) * (32 * (c + 1) - 2 * sx - 1) + (32 * (d + 1) - 2 * sy - 1) * (
        32 * (d + 1) - 2 * sy - 1) > 1024 * r * r,
{
}

proof fn lemma_strip_full(r: int, i: int, j: int, x0: int, n: int)
    requires
        1 <= r,
        0 <= i < r,
        0 <= j < r,
        (r - i) * (r - i) + (r - j) * (r - j) <= r * r,
        16 * i <= x0 < 16 * i + 16,
        0 <= n <= 16,
    ensures
        strip_count(r, x0, 16 * j, n) == n,
    decreases n,
{
    if n > 0 {
        lemma_strip_full(r, i, j, x0, n - 1);
        lemma_sub_inside_of_inner(r, r - i, r - j, x0 - 16 * i, n - 1);
        assert(sub_inside(r, x0, 16 * j + (n - 1)));
    }
}

proof fn lemma_grid_full(r: int, i: int, j: int, m: int)
    requires
        1 <= r,
        0 <= i < r,
        0 <= j < r,
        (r - i) * (r - i) + (r - j) * (r - j) <= r * r,
        0 <= m <= 16,
    ensures
        grid_count(r, 16 * i, 16 * j, m, 16) == 16 * m,
    decreases m,
{
    if m > 0 {
        lemma_grid_full(r, i, j, m - 1);
        lemma_strip_full(r, i, j, 16 * i + (m - 1), 16);
    }
}

/// A pixel whose far corner is inside the circle has full coverage.
pub proof fn lemma_coverage_full(r: int, i: int, j: int)
    requires
        1 <= r,
        0 <= i < r,
        0 <= j < r,
        (r - i) * (r - i) + (r - j) * (r - j) <= r * r,
    ensures
        coverage(r, i, j) == 256,
{
    lemma_grid_full(r, i, j, 16);
}

proof fn lemma_strip_empty(r: int, i: int, j: int, x0: int, n: int)
    requires
        1 <= r,
        0 <= i < r,
        0 <= j < r,
        (r - 1 - i) * (r - 1 - i) + (r - 1 - j) * (r - 1 - j) >= r * r,
        16 * i <= x0 < 16 * i + 16,
        0 <= n <= 16,
    ensures
        strip_count(r, x0, 16 * j, n) == 0,
    decreases n,
{
    if n > 0 {
        lemma_strip_empty(r, i, j, x0, n - 1);
        lemma_sub_outside_of_outer(r, r - 1 - i, r - 1 - j, x0 - 16 * i, n - 1);
        assert(!sub_inside(r, x0, 16 * j + (n - 1)));
    }
}

proof fn lemma_grid_empty(r: int, i: int, j: int, m: int)
    requires
        1 <= r,
        0 <= i < r,
        0 <= j < r,
        (r - 1 - i) * (r - 1 - i) + (r - 1 - j) * (r - 1 - j) >= r * r,
        0 <= m <= 16,
    ensures
        grid_count(r, 16 * i, 16 * j, m, 16) == 0,
    decreases m,
{
    if m > 0 {
        lemma_grid_empty(r, i, j, m - 1);
        lemma_strip_empty(r, i, j, 16 * i + (m - 1), 16);
    }
}

/// A pixel whose near corner is on or beyond the circle has zero coverage.
pub proof fn lemma_coverage_empty(r: int, i: int, j: int)
    requires
        1 <= r,
        0 <= i < r,
        0 <= j < r,
        (r - 1 - i) * (r - 1 - i) + (r - 1 - j) * (r - 1 - j) >= r * r,
    ensures
        coverage(r, i, j) == 0,
{
    lemma_grid_empty(r, i, j, 16);
}

/// Peeling the top row off a block: the block of height `n` is the block of
/// height `n - 1` plus the horizontal run at height `n - 1`, which mirrors
/// (by the diagonal symmetry of the circle) to a vertical strip.
proof fn lemma_grid_peel_row(r: int, x0: int, y0: int, m: int, n: int)
    requires
        1 <= n,
    ensures
        grid_count(r, x0, y0, m, n) == grid_count(r, x0, y0, m, n - 1) + strip_count(
            r,
            y0 + (n - 1),
            x0,
            m,
        ),
    decreases m,
{
    if m > 0 {
        lemma_grid_peel_row(r, x0, y0, m - 1, n);
        assert(sub_inside(r, x0 + (m - 1), y0 + (n - 1)) == sub_inside(
            r,
            y0 + (n - 1),
            x0 + (m - 1),
        ));
    }
}

/// A block of sub-samples counts the same as its mirror image across the
/// circle's diagonal.
proof fn lemma_grid_transpose(r: int, x0: int, y0: int, m: int, n: int)
    requires
        0 <= m,
        0 <= n,
    ensures
        grid_count(r, x0, y0, m, n) == grid_count(r, y0, x0, n, m),
    decreases n,
{
    if n == 0 {
        lemma_grid_bounds(r, x0, y0, m, 0);
    } else {
        lemma_grid_transpose(r, x0, y0, m, n - 1);
        lemma_grid_peel_row(r, x0, y0, m, n);
    }
}

/// Coverage is symmetric across the corner's diagonal: the mask for local
/// pixel `(i, j)` equals the mask for `(j, i)`.
pub proof fn lemma_coverage_symmetric(r: int, i: int, j: int)
    ensures
        coverage(r, i, j) == coverage(r, j, i),
{
    lemma_grid_transpose(r, 16 * i, 16 * j, 16, 16);
}

/// Counts the sub-samples of local pixel `(i, j)` inside the arc circle.
pub fn coverage_at(r: u32, i: u32, j: u32) -> (c: u16)
    requires
        1 <= r,
        i < r,
        j < r,
    ensures
        c as int == coverage(r as int, i as int, j as int),
        c <= 256,
{
    let ghost ri = r as int;
    let mut total: u16 = 0;
    let mut sx: u32 = 0;
    while sx < 16
        invariant
            1 <= r,
            i < r,
            j < r,
            sx <= 16,
            total as int == grid_count(ri, 16 * (i as int), 16 * (j as int), sx as int, 16),
            total <= 16 * sx,
            ri == r as int,
        decreases 16 - sx,
    {
        let mut sy: u32 = 0;
        let mut col: u16 = 0;
        while sy < 16
            invariant
                1 <= r,
                i < r,
                j < r,
                sx < 16,
                sy <= 16,
                col as int == strip_count(
                    ri,
                    16 * (i as int) + sx as int,
                    16 * (j as int),
                    sy as int,
                ),
                col <= sy,
                ri == r as int,
            decreases 16 - sy,
        {
            let x: u64 = 16 * (i as u64) + (sx as u64);
            let y: u64 = 16 * (j as u64) + (sy as u64);
            let u: u64 = 32 * (r as u64) - 2 * x - 1;
            let v: u64 = 32 * (r as u64) - 2 * y - 1;
            proof {
                assert(u as int <= 0x20_0000_0000 && v as int <= 0x20_0000_0000);
                assert((u as int) * (u as int) + (v as int) * (v as int) <= u128::MAX as int)
                    by (nonlinear_arith)
                    requires
                        0 <= u as int <= 0x20_0000_0000,
                        0 <= v as int <= 0x20_0000_0000,
                ;
                assert(1024 * (r as int) * (r as int) <= u128::MAX as int) by (nonlinear_arith)
                    requires
                        0 <= r as int <= 0xffff_ffff,
                ;
            }
            let lhs: u128 = (u as u128) * (u as u128) + (v as u128) * (v as u128);
            let rhs: u128 = 1024 * (r as u128) * (r as u128);
            if lhs <= rhs {
                assert(sub_inside(ri, x as int, y as int));
                col = col + 1;
            } else {
                assert(!sub_inside(ri, x as int, y as int));
            }
            sy = sy + 1;
        }
        total = total + col;
        sx = sx + 1;
    }
    total
}

} // verus!
