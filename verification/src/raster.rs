//! The in-memory raster: a fixed-size RGBA grid, four bytes per pixel,
//! row-major, addressed by (x, y) and a channel index. The alpha channel is
//! channel 3.

use vstd::prelude::*;
use vstd::pervasive::VecAdditionalExecFns;

verus! {

/// The byte a freshly filled raster holds in channel `c` of every pixel.
pub open spec fn fill_byte(c: int, red: u8, green: u8, blue: u8, alpha: u8) -> u8 {
    if c == 0 {
        red
    } else if c == 1 {
        green
    } else if c == 2 {
        blue
    } else {
        alpha
    }
}

/// An RGBA raster. `data` holds `4 * width * height` bytes, row-major:
/// the byte for channel `c` of pixel `(x, y)` is at `4 * (y * width + x) + c`.
pub struct Raster {
    width: u32,
    height: u32,
    data: Vec<u8>,
}

proof fn lemma_area_assoc(w: int, h: int)
    by (nonlinear_arith)
    ensures
        4 * w * h == 4 * (w * h),
{
}

proof fn lemma_area_bound(w: int, h: int)
    by (nonlinear_arith)
    requires
        0 <= w <= 0xffff_ffff,
        0 <= h <= 0xffff_ffff,
    ensures
        0 <= w * h <= 0xffff_fffe_0000_0001,
{
}

impl Raster {
    /// The structural invariant: the byte buffer covers the grid exactly.
    pub closed spec fn wf(self) -> bool {
        self.data@.len() == 4 * (self.width as int) * (self.height as int)
    }

    pub closed spec fn spec_width(self) -> int {
        self.width as int
    }

    pub closed spec fn spec_height(self) -> int {
        self.height as int
    }

    /// The raw byte content.
    pub closed spec fn bytes(self) -> Seq<u8> {
        self.data@
    }

    /// Index of channel `c` of pixel `(x, y)` in the byte buffer.
    pub open spec fn idx(self, x: int, y: int, c: int) -> int {
        4 * (y * self.spec_width() + x) + c
    }

    /// Whether `(x, y, c)` addresses a channel of the grid.
    pub open spec fn valid(self, x: int, y: int, c: int) -> bool {
        0 <= x < self.spec_width() && 0 <= y < self.spec_height() && 0 <= c < 4
    }

    /// Channel `c` of pixel `(x, y)`.
    pub open spec fn chan(self, x: int, y: int, c: int) -> u8 {
        self.bytes()[self.idx(x, y, c)]
    }

    /// The alpha channel of pixel `(x, y)`.
    pub open spec fn alpha(self, x: int, y: int) -> u8 {
        self.chan(x, y, 3)
    }

    /// A valid channel address lies inside the byte buffer.
    pub proof fn lemma_idx_in_bounds(self, x: int, y: int, c: int)
        requires
            self.wf(),
            self.valid(x, y, c),
        ensures
            0 <= self.idx(x, y, c) < self.bytes().len(),
    {
        let w = self.spec_width();
        let h = self.spec_height();
        assert(0 <= 4 * (y * w + x) + c < 4 * w * h) by (nonlinear_arith)
            requires
                0 <= x < w,
                0 <= y < h,
                0 <= c < 4,
        ;
    }

    /// Distinct channel addresses have distinct byte indices.
    pub proof fn lemma_idx_injective(self, x1: int, y1: int, c1: int, x2: int, y2: int, c2: int)
        requires
            self.valid(x1, y1, c1),
            self.valid(x2, y2, c2),
            self.idx(x1, y1, c1) == self.idx(x2, y2, c2),
        ensures
            x1 == x2 && y1 == y2 && c1 == c2,
    {
        let w = self.spec_width();
        assert(x1 == x2 && y1 == y2 && c1 == c2) by (nonlinear_arith)
            requires
                0 <= x1 < w,
                0 <= c1 < 4,
                0 <= x2 < w,
                0 <= c2 < 4,
                4 * (y1 * w + x1) + c1 == 4 * (y2 * w + x2) + c2,
        ;
    }

    /// Two well-formed rasters of the same dimensions with equal channels
    /// everywhere hold the same bytes.
    pub proof fn lemma_bytes_eq_of_chans_eq(a: Raster, b: Raster)
        requires
            a.wf(),
            b.wf(),
            a.spec_width() == b.spec_width(),
            a.spec_height() == b.spec_height(),
            forall|x: int, y: int, c: int| a.valid(x, y, c) ==> a.chan(x, y, c) == b.chan(x, y, c),
        ensures
            a.bytes() == b.bytes(),
    {
        let w = a.spec_width();
        let h = a.spec_height();
        assert forall|k: int| 0 <= k < a.bytes().len() implies a.bytes()[k] == b.bytes()[k] by {
            assert(w >= 1 && h >= 1) by (nonlinear_arith)
                requires
                    0 <= w,
                    0 <= h,
                    4 * w * h >= 1,
            ;
            let c = k % 4;
            let p = k / 4;
            let x = p % w;
            let y = p / w;
            vstd::arithmetic::div_mod::lemma_fundamental_div_mod(k, 4);
            vstd::arithmetic::div_mod::lemma_mod_bound(k, 4);
            vstd::arithmetic::div_mod::lemma_fundamental_div_mod(p, w);
            vstd::arithmetic::div_mod::lemma_mod_bound(p, w);
            assert(0 <= y < h) by (nonlinear_arith)
                requires
                    1 <= w,
                    p == w * y + x,
                    0 <= x < w,
                    0 <= 4 * p <= 4 * p + c,
                    4 * p + c < 4 * w * h,
                    0 <= c < 4,
            ;
            assert(a.valid(x, y, c));
            assert(y * w == w * y) by (nonlinear_arith);
            assert(a.idx(x, y, c) == k);
            assert(a.chan(x, y, c) == b.chan(x, y, c));
        }
        assert(a.bytes() =~= b.bytes());
    }

    pub fn width(&self) -> (w: u32)
        ensures
            w as int == self.spec_width(),
    {
        self.width
    }

    pub fn height(&self) -> (h: u32)
        ensures
            h as int == self.spec_height(),
    {
        self.height
    }

    /// The raw bytes, for handing the raster back to an encoder.
    pub fn data(&self) -> (d: &Vec<u8>)
        ensures
            d@ == self.bytes(),
    {
        &self.data
    }

    /// A raster filled with one color.
    pub fn new(width: u32, height: u32, red: u8, green: u8, blue: u8, alpha: u8) -> (r: Raster)
        requires
            4 * (width as int) * (height as int) <= usize::MAX as int,
        ensures
            r.wf(),
            r.spec_width() == width as int,
            r.spec_height() == height as int,
            forall|x: int, y: int, c: int|
                r.valid(x, y, c) ==> r.chan(x, y, c) == fill_byte(c, red, green, blue, alpha),
    {
        proof {
            lemma_area_assoc(width as int, height as int);
            lemma_area_bound(width as int, height as int);
        }
        let pixels: u64 = (width as u64) * (height as u64);
        let mut data: Vec<u8> = Vec::new();
        let mut k: u64 = 0;
        while k < pixels
            invariant
                k <= pixels,
                pixels == (width as int) * (height as int),
                data@.len() == 4 * k,
                forall|q: int|
                    0 <= q < data@.len() ==> data@[q] == fill_byte(q % 4, red, green, blue, alpha),
            decreases pixels - k,
        {
            data.push(red);
            data.push(green);
            data.push(blue);
            data.push(alpha);
            k = k + 1;
        }
        let r = Raster { width, height, data };
        proof {
            lemma_area_assoc(width as int, height as int);
            assert(r.wf());
            assert forall|x: int, y: int, c: int| r.valid(x, y, c) implies r.chan(x, y, c)
                == fill_byte(c, red, green, blue, alpha) by {
                r.lemma_idx_in_bounds(x, y, c);
                assert(r.idx(x, y, c) % 4 == c);
            }
        }
        r
    }

    /// Wraps raw RGBA bytes as a raster, when their length covers the grid.
    pub fn from_parts(width: u32, height: u32, data: Vec<u8>) -> (r: Option<Raster>)
        ensures
            match r {
                Some(ras) => ras.wf() && ras.spec_width() == width as int && ras.spec_height()
                    == height as int && ras.bytes() == data@,
                None => data@.len() != 4 * (width as int) * (height as int),
            },
    {
        proof {
            lemma_area_assoc(width as int, height as int);
            lemma_area_bound(width as int, height as int);
        }
        if (data.len() as u128) == 4u128 * ((width as u128) * (height as u128)) {
            Some(Raster { width, height, data })
        } else {
            None
        }
    }

    /// Channel `c` of pixel `(x, y)`.
    pub fn channel_at(&self, x: u32, y: u32, c: u32) -> (v: u8)
        requires
            self.wf(),
            self.valid(x as int, y as int, c as int),
        ensures
            v == self.chan(x as int, y as int, c as int),
    {
        proof {
            self.lemma_idx_in_bounds(x as int, y as int, c as int);
        }
        let n: usize = self.data.len();
        let t64: u64 = 4 * ((y as u64) * (self.width as u64) + (x as u64)) + (c as u64);
        proof {
            // The index is below the byte length, which itself fits a usize.
            assert((t64 as int) < n as int);
        }
        let t: usize = t64 as usize;
        self.data[t]
    }

    /// The alpha channel of pixel `(x, y)`.
    pub fn alpha_at(&self, x: u32, y: u32) -> (v: u8)
        requires
            self.wf(),
            (x as int) < self.spec_width(),
            (y as int) < self.spec_height(),
        ensures
            v == self.alpha(x as int, y as int),
    {
        self.channel_at(x, y, 3)
    }

    /// Overwrites the alpha channel of pixel `(x, y)`.
    pub fn set_alpha(&mut self, x: u32, y: u32, v: u8)
        requires
            old(self).wf(),
            (x as int) < old(self).spec_width(),
            (y as int) < old(self).spec_height(),
        ensures
            final(self).wf(),
            final(self).spec_width() == old(self).spec_width(),
            final(self).spec_height() == old(self).spec_height(),
            final(self).bytes() == old(self).bytes().update(
                old(self).idx(x as int, y as int, 3),
                v,
            ),
            forall|xx: int, yy: int, cc: int|
                old(self).valid(xx, yy, cc) ==> #[trigger] final(self).chan(xx, yy, cc) == (if xx
                    == x as int && yy == y as int && cc == 3 {
                    v
                } else {
                    old(self).chan(xx, yy, cc)
                }),
    {
        proof {
            self.lemma_idx_in_bounds(x as int, y as int, 3);
        }
        let n: usize = self.data.len();
        let t64: u64 = 4 * ((y as u64) * (self.width as u64) + (x as u64)) + 3;
        proof {
            // The index is below the byte length, which itself fits a usize.
            assert((t64 as int) < n as int);
        }
        let t: usize = t64 as usize;
        self.data.set(t, v);
        proof {
            let prev = *old(self);
            assert forall|xx: int, yy: int, cc: int| prev.valid(xx, yy, cc) implies #[trigger] self
                .chan(xx, yy, cc) == (if xx == x as int && yy == y as int && cc == 3 {
                v
            } else {
                prev.chan(xx, yy, cc)
            }) by {
                prev.lemma_idx_in_bounds(xx, yy, cc);
                if prev.idx(xx, yy, cc) == prev.idx(x as int, y as int, 3) {
                    prev.lemma_idx_injective(xx, yy, cc, x as int, y as int, 3);
                }
            }
        }
    }
}

} // verus!
