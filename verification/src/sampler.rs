use vstd::prelude::*;
use vstd::arithmetic::div_mod::{lemma_div_is_ordered, lemma_div_multiples_vanish};

use crate::color::Color;
use crate::errors::ArtError;

verus! {

/// An owned 2D array of RGB pixels in row-major order.
pub struct PixelBuffer {
    pub width: u32,
    pub height: u32,
    pub pixels: Vec<Color>,
}

/// A requested rectangle in pixel coordinates; its width and height are
/// requests, clipped to the owning buffer's bounds before sampling.
#[derive(Clone, Copy, Debug, PartialEq, Eq, Structural)]
pub struct Region {
    pub x: u32,
    pub y: u32,
    pub width: u32,
    pub height: u32,
}

impl PixelBuffer {
    /// The buffer holds exactly one pixel per coordinate.
    pub open spec fn wf(self) -> bool {
        self.pixels@.len() == self.width * self.height
    }

    /// The pixel at column `x` of row `y`.
    pub open spec fn pixel_at(self, x: int, y: int) -> Color {
        self.pixels@[y * self.width + x]
    }

    /// A buffer filled entirely with one color.
    pub fn new_filled(width: u32, height: u32, fill: Color) -> (r: PixelBuffer)
        requires
            width * height <= usize::MAX,
        ensures
            r.wf(),
            r.width == width,
            r.height == height,
            forall|x: int, y: int|
                0 <= x < width && 0 <= y < height ==> r.pixel_at(x, y) == fill,
    {
        let total: usize = (width as usize) * (height as usize);
        let mut pixels: Vec<Color> = Vec::new();
        let mut i: usize = 0;
        while i < total
            invariant
                i <= total,
                pixels@.len() == i,
                forall|j: int| 0 <= j < i ==> pixels@[j] == fill,
            decreases total - i,
        {
            pixels.push(fill);
            i = i + 1;
        }
        let r = PixelBuffer { width, height, pixels };
        proof {
            assert forall|x: int, y: int|
                0 <= x < width && 0 <= y < height implies r.pixel_at(x, y) == fill by {
                assert(0 <= y * width + x < width * height) by (nonlinear_arith)
                    requires
                        0 <= x < width,
                        0 <= y < height,
                ;
            }
        }
        r
    }

    /// A buffer over an existing row-major pixel vector.
    pub fn from_pixels(width: u32, height: u32, pixels: Vec<Color>) -> (r: PixelBuffer)
        requires
            pixels@.len() == width * height,
        ensures
            r.wf(),
            r.width == width,
            r.height == height,
            r.pixels@ == pixels@,
    {
        PixelBuffer { width, height, pixels }
    }

    /// The pixel at `(x, y)`.
    pub fn get(&self, x: u32, y: u32) -> (r: Color)
        requires
            self.wf(),
            x < self.width,
            y < self.height,
        ensures
            r == self.pixel_at(x as int, y as int),
    {
        let n = self.pixels.len();
        proof {
            assert(0 <= y * self.width + x < self.width * self.height) by (nonlinear_arith)
                requires
                    0 <= x < self.width,
                    0 <= y < self.height,
            ;
        }
        let idx: usize = (y as usize) * (self.width as usize) + (x as usize);
        self.pixels[idx]
    }
}

/// The width of a region once clipped to the buffer: what remains of the
/// request inside `[0, width)`.
pub open spec fn clipped_w(buf: PixelBuffer, reg: Region) -> int {
    if reg.x >= buf.width {
        0
    } else if reg.width <= buf.width - reg.x {
        reg.width as int
    } else {
        buf.width - reg.x
    }
}

/// The height of a region once clipped to the buffer.
pub open spec fn clipped_h(buf: PixelBuffer, reg: Region) -> int {
    if reg.y >= buf.height {
        0
    } else if reg.height <= buf.height - reg.y {
        reg.height as int
    } else {
        buf.height - reg.y
    }
}

/// One channel of a color, selected by `k`: red, green, then blue.
pub open spec fn chan(c: Color, k: int) -> int {
    if k == 0 {
        c.r as int
    } else if k == 1 {
        c.g as int
    } else {
        c.b as int
    }
}

/// The sum of channel `k` over the `w` pixels of row `y` starting at `x0`.
pub open spec fn row_sum(buf: PixelBuffer, y: int, x0: int, w: int, k: int) -> int
    decreases w,
{
    if w <= 0 {
        0
    } else {
        row_sum(buf, y, x0, w - 1, k) + chan(buf.pixel_at(x0 + w - 1, y), k)
    }
}

/// The sum of channel `k` over the `w`-by-`h` rectangle at `(x0, y0)`.
pub open spec fn region_sum(buf: PixelBuffer, x0: int, y0: int, w: int, h: int, k: int) -> int
    decreases h,
{
    if h <= 0 {
        0
    } else {
        region_sum(buf, x0, y0, w, h - 1, k) + row_sum(buf, y0 + h - 1, x0, w, k)
    }
}

/// One channel of the arithmetic mean over the clipped region: the floor of
/// sum over count.
pub open spec fn spec_avg_chan(buf: PixelBuffer, reg: Region, k: int) -> int {
    region_sum(buf, reg.x as int, reg.y as int, clipped_w(buf, reg), clipped_h(buf, reg), k) / (
    clipped_w(buf, reg) * clipped_h(buf, reg))
}

/// The mean color of the clipped region, each channel truncated.
pub open spec fn spec_average(buf: PixelBuffer, reg: Region) -> Color {
    Color {
        r: spec_avg_chan(buf, reg, 0) as u8,
        g: spec_avg_chan(buf, reg, 1) as u8,
        b: spec_avg_chan(buf, reg, 2) as u8,
    }
}

proof fn lemma_row_sum_bounds(buf: PixelBuffer, y: int, x0: int, w: int, k: int)
    requires
        w >= 0,
    ensures
        0 <= row_sum(buf, y, x0, w, k) <= 255 * w,
    decreases w,
{
    if w > 0 {
        lemma_row_sum_bounds(buf, y, x0, w - 1, k);
    }
}

proof fn lemma_region_sum_bounds(buf: PixelBuffer, x0: int, y0: int, w: int, h: int, k: int)
    requires
        w >= 0,
        h >= 0,
    ensures
        0 <= region_sum(buf, x0, y0, w, h, k) <= 255 * w * h,
    decreases h,
{
    if h > 0 {
        lemma_region_sum_bounds(buf, x0, y0, w, h - 1, k);
        lemma_row_sum_bounds(buf, y0 + h - 1, x0, w, k);
        assert(255 * w * (h - 1) + 255 * w == 255 * w * h) by (nonlinear_arith);
    }
}

/// Computes the per-channel arithmetic mean color of the region, after
/// clipping it to the buffer; each channel is the floor of its sum over the
/// clipped pixel count. A region whose clipped area is empty is the caller's
/// error, `EmptyRegion`.
pub fn get_average_color(buffer: &PixelBuffer, region: Region) -> (r: Result<Color, ArtError>)
    requires
        buffer.wf(),
    ensures
        r is Ok <==> clipped_w(*buffer, region) > 0 && clipped_h(*buffer, region) > 0,
        r is Ok ==> r->Ok_0 == spec_average(*buffer, region),
        r is Err ==> r->Err_0 == ArtError::EmptyRegion,
{
    let cw: u32 = if region.x >= buffer.width {
        0
    } else if region.width <= buffer.width - region.x {
        region.width
    } else {
        buffer.width - region.x
    };
    let ch: u32 = if region.y >= buffer.height {
        0
    } else if region.height <= buffer.height - region.y {
        region.height
    } else {
        buffer.height - region.y
    };
    if cw == 0 || ch == 0 {
        return Err(ArtError::EmptyRegion);
    }
    let x0 = region.x;
    let y0 = region.y;
    let mut sr: u128 = 0;
    let mut sg: u128 = 0;
    let mut sb: u128 = 0;
    let mut dy: u32 = 0;
    while dy < ch
        invariant
            buffer.wf(),
            dy <= ch,
            cw == clipped_w(*buffer, region),
            ch == clipped_h(*buffer, region),
            x0 == region.x,
            y0 == region.y,
            x0 + cw <= buffer.width,
            y0 + ch <= buffer.height,
            sr == region_sum(*buffer, x0 as int, y0 as int, cw as int, dy as int, 0),
            sg == region_sum(*buffer, x0 as int, y0 as int, cw as int, dy as int, 1),
            sb == region_sum(*buffer, x0 as int, y0 as int, cw as int, dy as int, 2),
        decreases ch - dy,
    {
        let mut dx: u32 = 0;
        while dx < cw
            invariant
                buffer.wf(),
                dx <= cw,
                dy < ch,
                x0 + cw <= buffer.width,
                y0 + ch <= buffer.height,
                sr == region_sum(*buffer, x0 as int, y0 as int, cw as int, dy as int, 0)
                    + row_sum(*buffer, y0 + dy, x0 as int, dx as int, 0),
                sg == region_sum(*buffer, x0 as int, y0 as int, cw as int, dy as int, 1)
                    + row_sum(*buffer, y0 + dy, x0 as int, dx as int, 1),
                sb == region_sum(*buffer, x0 as int, y0 as int, cw as int, dy as int, 2)
                    + row_sum(*buffer, y0 + dy, x0 as int, dx as int, 2),
            decreases cw - dx,
        {
            proof {
                lemma_region_sum_bounds(*buffer, x0 as int, y0 as int, cw as int, dy as int, 0);
                lemma_region_sum_bounds(*buffer, x0 as int, y0 as int, cw as int, dy as int, 1);
                lemma_region_sum_bounds(*buffer, x0 as int, y0 as int, cw as int, dy as int, 2);
                lemma_row_sum_bounds(*buffer, y0 + dy, x0 as int, dx as int, 0);
                lemma_row_sum_bounds(*buffer, y0 + dy, x0 as int, dx as int, 1);
                lemma_row_sum_bounds(*buffer, y0 + dy, x0 as int, dx as int, 2);
                assert(255 * (cw as int) * (dy as int) + 255 * (dx as int) < u128::MAX - 255)
                    by (nonlinear_arith)
                    requires
                        cw <= u32::MAX,
                        dy <= u32::MAX,
                        dx <= u32::MAX,
                ;
            }
            let p = buffer.get(x0 + dx, y0 + dy);
            sr = sr + (p.r as u128);
            sg = sg + (p.g as u128);
            sb = sb + (p.b as u128);
            dx = dx + 1;
        }
        dy = dy + 1;
    }
    proof {
        assert((cw as int) * (ch as int) <= u128::MAX) by (nonlinear_arith)
            requires
                cw <= u32::MAX,
                ch <= u32::MAX,
        ;
    }
    let area: u128 = (cw as u128) * (ch as u128);
    proof {
        assert(area > 0 && area == (cw as int) * (ch as int)) by (nonlinear_arith)
            requires
                area == (cw as u128) * (ch as u128),
                cw >= 1,
                ch >= 1,
        ;
        lemma_region_sum_bounds(*buffer, x0 as int, y0 as int, cw as int, ch as int, 0);
        lemma_region_sum_bounds(*buffer, x0 as int, y0 as int, cw as int, ch as int, 1);
        lemma_region_sum_bounds(*buffer, x0 as int, y0 as int, cw as int, ch as int, 2);
        assert(255 * (cw as int) * (ch as int) == (area as int) * 255) by (nonlinear_arith)
            requires
                area == (cw as int) * (ch as int),
        ;
        lemma_div_is_ordered(sr as int, (area as int) * 255, area as int);
        lemma_div_is_ordered(sg as int, (area as int) * 255, area as int);
        lemma_div_is_ordered(sb as int, (area as int) * 255, area as int);
        lemma_div_multiples_vanish(255, area as int);
    }
    Ok(Color { r: (sr / area) as u8, g: (sg / area) as u8, b: (sb / area) as u8 })
}

/// Whether every pixel of the clipped region is `c`.
pub open spec fn uniform_region(buf: PixelBuffer, reg: Region, c: Color) -> bool {
    forall|x: int, y: int|
        reg.x <= x < reg.x + clipped_w(buf, reg) && reg.y <= y < reg.y + clipped_h(buf, reg)
            ==> buf.pixel_at(x, y) == c
}

proof fn lemma_row_sum_uniform(buf: PixelBuffer, y: int, x0: int, w: int, k: int, c: Color)
    requires
        w >= 0,
        forall|x: int| x0 <= x < x0 + w ==> buf.pixel_at(x, y) == c,
    ensures
        row_sum(buf, y, x0, w, k) == chan(c, k) * w,
    decreases w,
{
    if w > 0 {
        lemma_row_sum_uniform(buf, y, x0, w - 1, k, c);
        assert(chan(c, k) * (w - 1) + chan(c, k) == chan(c, k) * w) by (nonlinear_arith);
    } else {
        assert(chan(c, k) * 0 == 0) by (nonlinear_arith);
    }
}

proof fn lemma_region_sum_uniform(
    buf: PixelBuffer,
    x0: int,
    y0: int,
    w: int,
    h: int,
    k: int,
    c: Color,
)
    requires
        w >= 0,
        h >= 0,
        forall|x: int, y: int|
            x0 <= x < x0 + w && y0 <= y < y0 + h ==> buf.pixel_at(x, y) == c,
    ensures
        region_sum(buf, x0, y0, w, h, k) == chan(c, k) * w * h,
    decreases h,
{
    if h > 0 {
        lemma_region_sum_uniform(buf, x0, y0, w, h - 1, k, c);
        lemma_row_sum_uniform(buf, y0 + h - 1, x0, w, k, c);
        assert(chan(c, k) * w * (h - 1) + chan(c, k) * w == chan(c, k) * w * h)
            by (nonlinear_arith);
    } else {
        assert(chan(c, k) * w * 0 == 0) by (nonlinear_arith);
    }
}

/// Over a region of uniform color, the average is exactly that color.
pub proof fn lemma_uniform_average(buf: PixelBuffer, reg: Region, c: Color)
    requires
        buf.wf(),
        clipped_w(buf, reg) > 0,
        clipped_h(buf, reg) > 0,
        uniform_region(buf, reg, c),
    ensures
        spec_average(buf, reg) == c,
{
    let w = clipped_w(buf, reg);
    let h = clipped_h(buf, reg);
    assert forall|k: int| 0 <= k < 3 implies spec_avg_chan(buf, reg, k) == chan(c, k) by {
        lemma_region_sum_uniform(buf, reg.x as int, reg.y as int, w, h, k, c);
        assert(chan(c, k) * w * h == (w * h) * chan(c, k)) by (nonlinear_arith);
        assert(w * h > 0) by (nonlinear_arith)
            requires
                w > 0,
                h > 0,
        ;
        lemma_div_multiples_vanish(chan(c, k), w * h);
    }
    assert(spec_avg_chan(buf, reg, 0) == chan(c, 0));
    assert(spec_avg_chan(buf, reg, 1) == chan(c, 1));
    assert(spec_avg_chan(buf, reg, 2) == chan(c, 2));
}

proof fn lemma_row_sum_agree(a: PixelBuffer, b: PixelBuffer, y: int, x0: int, w: int, k: int)
    requires
        forall|x: int| x0 <= x < x0 + w ==> a.pixel_at(x, y) == b.pixel_at(x, y),
    ensures
        row_sum(a, y, x0, w, k) == row_sum(b, y, x0, w, k),
    decreases w,
{
    if w > 0 {
        lemma_row_sum_agree(a, b, y, x0, w - 1, k);
    }
}

proof fn lemma_region_sum_agree(
    a: PixelBuffer,
    b: PixelBuffer,
    x0: int,
    y0: int,
    w: int,
    h: int,
    k: int,
)
    requires
        forall|x: int, y: int|
            x0 <= x < x0 + w && y0 <= y < y0 + h ==> a.pixel_at(x, y) == b.pixel_at(x, y),
    ensures
        region_sum(a, x0, y0, w, h, k) == region_sum(b, x0, y0, w, h, k),
    decreases h,
{
    if h > 0 {
        lemma_region_sum_agree(a, b, x0, y0, w, h - 1, k);
        lemma_row_sum_agree(a, b, y0 + h - 1, x0, w, k);
    }
}

/// The average depends on nothing outside the clipped region: two buffers of
/// the same dimensions that agree on the region's in-bounds pixels have the
/// same average, whatever stands elsewhere.
pub proof fn lemma_average_reads_only_clipped(a: PixelBuffer, b: PixelBuffer, reg: Region)
    requires
        a.width == b.width,
        a.height == b.height,
        forall|x: int, y: int|
            reg.x <= x < reg.x + clipped_w(a, reg) && reg.y <= y < reg.y + clipped_h(a, reg)
                ==> a.pixel_at(x, y) == b.pixel_at(x, y),
    ensures
        spec_average(a, reg) == spec_average(b, reg),
{
    let w = clipped_w(a, reg);
    let h = clipped_h(a, reg);
    assert(clipped_w(b, reg) == w);
    assert(clipped_h(b, reg) == h);
    lemma_region_sum_agree(a, b, reg.x as int, reg.y as int, w, h, 0);
    lemma_region_sum_agree(a, b, reg.x as int, reg.y as int, w, h, 1);
    lemma_region_sum_agree(a, b, reg.x as int, reg.y as int, w, h, 2);
}

} // verus!
