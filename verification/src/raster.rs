//! The order in which the pixels of an image are produced: row by row from
//! the top of the image down, and within a row from left to right.
//!
//! A pixel is named by its column, counted from the left, and its row,
//! counted from the bottom, so that both grow with the image-plane
//! coordinates of the camera. The top row is therefore the one with the
//! highest number, and it comes first.
use vstd::prelude::*;

verus! {

/// One pixel: its column from the left and its row from the bottom.
#[derive(Clone, Copy, Debug, PartialEq, Eq, Structural)]
pub struct Pixel {
    pub column: usize,
    pub row: usize,
}

/// The pixel grid of an image.
#[derive(Clone, Copy, Debug, PartialEq, Eq, Structural)]
pub struct Raster {
    pub width: usize,
    pub height: usize,
}

impl Raster {
    /// The pixel lies in the grid.
    pub open spec fn contains(self, p: Pixel) -> bool {
        p.column < self.width && p.row < self.height
    }

    /// The number of pixels.
    pub open spec fn count(self) -> nat {
        (self.width * self.height) as nat
    }

    /// The number of pixels that are produced before `p`.
    pub open spec fn position(self, p: Pixel) -> nat {
        ((self.height - 1 - p.row) * self.width + p.column) as nat
    }

    /// The pixel that `k` pixels are produced before.
    pub open spec fn pixel_at(self, k: nat) -> Pixel {
        Pixel {
            column: (k % self.width as nat) as usize,
            row: (self.height - 1 - k / self.width as nat) as usize,
        }
    }

    /// The pixel to start with: the left end of the top row, if the grid has
    /// any pixel.
    pub open spec fn spec_first(self) -> Option<Pixel> {
        if self.width == 0 || self.height == 0 {
            None
        } else {
            Some(Pixel { column: 0, row: (self.height - 1) as usize })
        }
    }

    /// The pixel that follows `p`: its right neighbour, or from the right
    /// end of a row the left end of the row below. Nothing follows the right
    /// end of the bottom row, nor a pixel outside the grid.
    pub open spec fn spec_next(self, p: Pixel) -> Option<Pixel> {
        if !self.contains(p) {
            None
        } else if p.column + 1 < self.width {
            Some(Pixel { column: (p.column + 1) as usize, row: p.row })
        } else if p.row > 0 {
            Some(Pixel { column: 0, row: (p.row - 1) as usize })
        } else {
            None
        }
    }

    /// The grid of an image `width` pixels wide and `height` pixels high.
    pub fn new(width: usize, height: usize) -> (raster: Raster)
        ensures
            raster.width == width,
            raster.height == height,
    {
        Raster { width, height }
    }

    /// The pixel to start with.
    #[verifier::when_used_as_spec(spec_first)]
    pub fn first(self) -> (p: Option<Pixel>)
        ensures
            p == self.spec_first(),
    {
        if self.width == 0 || self.height == 0 {
            None
        } else {
            Some(Pixel { column: 0, row: self.height - 1 })
        }
    }

    /// The pixel that follows `p`.
    #[verifier::when_used_as_spec(spec_next)]
    pub fn next(self, p: Pixel) -> (q: Option<Pixel>)
        ensures
            q == self.spec_next(p),
    {
        if p.column >= self.width || p.row >= self.height {
            None
        } else if p.column + 1 < self.width {
            Some(Pixel { column: p.column + 1, row: p.row })
        } else if p.row > 0 {
            Some(Pixel { column: 0, row: p.row - 1 })
        } else {
            None
        }
    }
}

/// The walk starts at position zero, and with no pixel only where the grid
/// is empty.
pub proof fn lemma_first_is_position_zero(raster: Raster)
    ensures
        raster.spec_first() is None <==> raster.count() == 0,
        match raster.spec_first() {
            Some(p) => raster.contains(p) && raster.position(p) == 0,
            None => true,
        },
{
    if raster.width != 0 && raster.height != 0 {
        assert(raster.width * raster.height > 0) by (nonlinear_arith)
            requires
                raster.width > 0,
                raster.height > 0,
        ;
        assert(0 * raster.width == 0);
    } else {
        assert(raster.width * raster.height == 0) by (nonlinear_arith)
            requires
                raster.width == 0 || raster.height == 0,
        ;
    }
}

/// Each step of the walk stays in the grid and moves one position on, and
/// the walk stops exactly at the last position.
pub proof fn lemma_next_is_position_plus_one(raster: Raster, p: Pixel)
    requires
        raster.contains(p),
    ensures
        raster.position(p) < raster.count(),
        raster.spec_next(p) is None <==> raster.position(p) + 1 == raster.count(),
        match raster.spec_next(p) {
            Some(q) => raster.contains(q) && raster.position(q) == raster.position(p) + 1,
            None => true,
        },
{
    let w = raster.width as int;
    let h = raster.height as int;
    let c = p.column as int;
    let r = p.row as int;
    assert((h - 1 - r) * w + w == (h - r) * w) by (nonlinear_arith);
    assert((h - r) * w <= h * w) by (nonlinear_arith)
        requires
            0 <= r,
            0 <= w,
    ;
    assert((h - 1 - r) * w >= 0) by (nonlinear_arith)
        requires
            r < h,
            0 <= w,
    ;
    if r > 0 {
        assert((h - r) * w + w <= h * w) by (nonlinear_arith)
            requires
                0 < r,
                0 <= w,
        ;
        assert((h - 1 - (r - 1)) * w == (h - r) * w);
    } else {
        assert((h - r) * w == h * w);
    }
}

/// Every position below the pixel count belongs to one pixel of the grid,
/// and that pixel is found by division: the walk leaves no pixel out and
/// takes none twice.
pub proof fn lemma_positions_are_pixels(raster: Raster, k: nat)
    requires
        k < raster.count(),
    ensures
        raster.contains(raster.pixel_at(k)),
        raster.position(raster.pixel_at(k)) == k,
        forall|p: Pixel|
            raster.contains(p) && #[trigger] raster.position(p) == k ==> p == raster.pixel_at(k),
{
    let w = raster.width as int;
    let h = raster.height as int;
    assert(w > 0 && h > 0) by (nonlinear_arith)
        requires
            k < w * h,
            0 <= w,
            0 <= h,
            k >= 0,
    ;
    let q = k as int / w;
    let m = k as int % w;
    assert(k == w * q + m && 0 <= m < w) by {
        vstd::arithmetic::div_mod::lemma_fundamental_div_mod(k as int, w);
        vstd::arithmetic::div_mod::lemma_mod_bound(k as int, w);
    }
    assert(0 <= q < h) by (nonlinear_arith)
        requires
            k == w * q + m,
            0 <= m < w,
            k < w * h,
            k >= 0,
    ;
    assert((h - 1 - (h - 1 - q)) * w + m == k) by (nonlinear_arith)
        requires
            k == w * q + m,
    ;
    assert forall|p: Pixel|
        raster.contains(p) && #[trigger] raster.position(p) == k implies p == raster.pixel_at(
        k,
    ) by {
        let c = p.column as int;
        let r = p.row as int;
        let rows = h - 1 - r;
        assert(rows * w + c == w * q + m);
        assert(rows == q && c == m) by (nonlinear_arith)
            requires
                rows * w + c == w * q + m,
                0 <= c < w,
                0 <= m < w,
                0 <= rows,
                0 <= q,
        ;
    }
}

} // verus!
