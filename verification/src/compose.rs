use vstd::prelude::*;

use crate::color::Color;
use crate::errors::ArtError;
use crate::picker::{
    emits_at, lemma_advanced_step, lemma_advanced_zero, lemma_emits_in_alphabet,
    lemma_emits_through, picker_advanced, CharPicker,
};
use crate::sampler::{clipped_h, clipped_w, get_average_color, spec_average, PixelBuffer, Region};

verus! {

/// The first width recorded for `c`, scanning from the front.
pub open spec fn lookup_seq(s: Seq<(char, u32)>, c: char) -> Option<u32>
    decreases s.len(),
{
    if s.len() == 0 {
        None
    } else if s[0].0 == c {
        Some(s[0].1)
    } else {
        lookup_seq(s.drop_first(), c)
    }
}

/// A table of cell widths per glyph, in integer pixels, measured by the
/// font collaborator before composition starts.
pub struct GlyphWidths {
    pub entries: Vec<(char, u32)>,
}

impl GlyphWidths {
    /// The width the table holds for `c`, if any.
    pub open spec fn width_of(self, c: char) -> Option<u32> {
        lookup_seq(self.entries@, c)
    }

    /// An empty table.
    pub fn new() -> (r: GlyphWidths)
        ensures
            r.entries@.len() == 0,
    {
        GlyphWidths { entries: Vec::new() }
    }

    /// Records a width; an earlier entry for the same glyph keeps
    /// precedence.
    pub fn insert(&mut self, c: char, w: u32)
        ensures
            final(self).entries@ == old(self).entries@.push((c, w)),
    {
        self.entries.push((c, w));
    }

    /// Looks a glyph's width up.
    pub fn lookup(&self, c: char) -> (r: Option<u32>)
        ensures
            r == self.width_of(c),
    {
        let n = self.entries.len();
        let mut i: usize = 0;
        while i < n
            invariant
                i <= n,
                n == self.entries@.len(),
                forall|j: int| 0 <= j < i ==> (#[trigger] self.entries@[j]).0 != c,
            decreases n - i,
        {
            let e = self.entries[i];
            if e.0 == c {
                proof {
                    lemma_lookup_skip(self.entries@, c, i as int);
                    assert(self.entries@.subrange(i as int, n as int)[0] == self.entries@[
                        i as int
                    ]);
                }
                return Some(e.1);
            }
            i = i + 1;
        }
        proof {
            lemma_lookup_skip(self.entries@, c, n as int);
        }
        None
    }
}

proof fn lemma_lookup_skip(s: Seq<(char, u32)>, c: char, i: int)
    requires
        0 <= i <= s.len(),
        forall|j: int| 0 <= j < i ==> (#[trigger] s[j]).0 != c,
    ensures
        lookup_seq(s, c) == lookup_seq(s.subrange(i, s.len() as int), c),
    decreases i,
{
    if i == 0 {
        assert(s.subrange(0, s.len() as int) =~= s);
    } else {
        let t = s.drop_first();
        assert forall|j: int| 0 <= j < i - 1 implies (#[trigger] t[j]).0 != c by {
            assert(t[j] == s[j + 1]);
        }
        lemma_lookup_skip(t, c, i - 1);
        assert(t.subrange(i - 1, t.len() as int) =~= s.subrange(i, s.len() as int));
    }
}

/// One planned glyph: where it goes, what it is, and the sampled color to
/// paint it in.
#[derive(Clone, Copy, Debug, PartialEq, Eq, Structural)]
pub struct DrawCmd {
    pub x: u32,
    pub y: u32,
    pub glyph: char,
    pub color: Color,
}

/// A finished composition plan: the canvas dimensions, the background to
/// fill it with, and the glyphs to paint over it, in raster order.
pub struct Composition {
    pub width: u32,
    pub height: u32,
    pub background: Color,
    pub cmds: Vec<DrawCmd>,
}

/// The width the table gives a glyph, as a plain integer.
pub open spec fn wval(ws: GlyphWidths, c: char) -> int {
    ws.width_of(c)->0 as int
}

/// One planned cell is sound: it starts inside the source, its glyph has a
/// positive tabled width, its color is the clipped-region average at its
/// position, and its glyph is what the picker emits at that request.
pub open spec fn cell_ok(
    src: PixelBuffer,
    ws: GlyphWidths,
    p0: CharPicker,
    chh: u32,
    i: int,
    c: DrawCmd,
) -> bool {
    &&& c.x < src.width
    &&& c.y < src.height
    &&& ws.width_of(c.glyph) is Some
    &&& wval(ws, c.glyph) >= 1
    &&& c.color == spec_average(
        src,
        Region { x: c.x, y: c.y, width: (wval(ws, c.glyph)) as u32, height: chh },
    )
    &&& emits_at(p0, i, c.glyph)
}

/// How one cell is followed by the next: stepping right by the glyph's
/// width while it stays inside the row, else returning to the left edge one
/// cell height further down.
pub open spec fn step_ok(a: DrawCmd, b: DrawCmd, ws: GlyphWidths, w_img: int, chh: int) -> bool {
    if a.x + wval(ws, a.glyph) < w_img {
        b.x == a.x + wval(ws, a.glyph) && b.y == a.y
    } else {
        b.x == 0 && b.y == a.y + chh
    }
}

/// Every consecutive pair of cells steps as `step_ok` says.
pub open spec fn chained(cmds: Seq<DrawCmd>, ws: GlyphWidths, w_img: int, chh: int) -> bool {
    forall|i: int|
        0 <= i < cmds.len() - 1 ==> step_ok(#[trigger] cmds[i], cmds[i + 1], ws, w_img, chh)
}

/// Whether a cell's unclipped footprint contains the pixel.
pub open spec fn covers(c: DrawCmd, ws: GlyphWidths, chh: int, px: int, py: int) -> bool {
    c.x <= px < c.x + wval(ws, c.glyph) && c.y <= py < c.y + chh
}

/// Whether some planned cell's footprint contains the pixel.
pub open spec fn covered(
    cmds: Seq<DrawCmd>,
    ws: GlyphWidths,
    chh: int,
    px: int,
    py: int,
) -> bool {
    exists|i: int| 0 <= i < cmds.len() && covers(#[trigger] cmds[i], ws, chh, px, py)
}

/// Every pixel of the source lies under some planned cell.
pub open spec fn full_coverage(
    cmds: Seq<DrawCmd>,
    ws: GlyphWidths,
    w_img: int,
    h_img: int,
    chh: int,
) -> bool {
    forall|px: int, py: int|
        0 <= px < w_img && 0 <= py < h_img ==> #[trigger] covered(cmds, ws, chh, px, py)
}

/// The whole plan is sound: every cell is sound for its request index, the
/// cells chain in raster order from the top-left corner, and the last cell
/// reaches both edges. A degenerate source plans nothing.
pub open spec fn plan_ok(
    src: PixelBuffer,
    ws: GlyphWidths,
    p0: CharPicker,
    chh: u32,
    cmds: Seq<DrawCmd>,
) -> bool {
    &&& forall|i: int| 0 <= i < cmds.len() ==> cell_ok(src, ws, p0, chh, i, #[trigger] cmds[i])
    &&& chained(cmds, ws, src.width as int, chh as int)
    &&& (cmds.len() == 0 <==> (src.width == 0 || src.height == 0))
    &&& (cmds.len() > 0 ==> cmds[0].x == 0 && cmds[0].y == 0)
    &&& (cmds.len() > 0 ==> cmds.last().x + wval(ws, cmds.last().glyph) >= src.width
        && cmds.last().y + chh >= src.height)
}

/// Within a sound plan the cursor strictly advances: each cell stands
/// strictly after the one before it in raster order, so a run plans only
/// finitely many cells and never stalls.
pub proof fn lemma_plan_strictly_advances(
    src: PixelBuffer,
    ws: GlyphWidths,
    p0: CharPicker,
    chh: u32,
    cmds: Seq<DrawCmd>,
    i: int,
)
    requires
        chh >= 1,
        plan_ok(src, ws, p0, chh, cmds),
        0 <= i < cmds.len() - 1,
    ensures
        cmds[i].y < cmds[i + 1].y || (cmds[i].y == cmds[i + 1].y && cmds[i].x < cmds[i + 1].x),
{
    assert(cell_ok(src, ws, p0, chh, i, cmds[i]));
    assert(step_ok(cmds[i], cmds[i + 1], ws, src.width as int, chh as int));
}

proof fn lemma_covered_push(
    cmds: Seq<DrawCmd>,
    c: DrawCmd,
    ws: GlyphWidths,
    chh: int,
    px: int,
    py: int,
)
    requires
        covered(cmds, ws, chh, px, py),
    ensures
        covered(cmds.push(c), ws, chh, px, py),
{
    let i = choose|i: int| 0 <= i < cmds.len() && covers(#[trigger] cmds[i], ws, chh, px, py);
    assert(cmds.push(c)[i] == cmds[i]);
    assert(0 <= i < cmds.push(c).len() && covers(cmds.push(c)[i], ws, chh, px, py));
}

/// The loop invariant of the compositor, at cursor `(x, y)`: every planned
/// cell is sound, the cells chain from the top-left corner, the last cell's
/// successor position is the cursor, and every pixel above the cursor's row
/// band, or in the band and left of the cursor, lies under some cell.
pub open spec fn inner_inv(
    src: PixelBuffer,
    ws: GlyphWidths,
    p0: CharPicker,
    chh: u32,
    cmds: Seq<DrawCmd>,
    x: int,
    y: int,
) -> bool {
    &&& forall|i: int| 0 <= i < cmds.len() ==> cell_ok(src, ws, p0, chh, i, #[trigger] cmds[i])
    &&& chained(cmds, ws, src.width as int, chh as int)
    &&& (cmds.len() == 0 ==> x == 0 && y == 0)
    &&& (cmds.len() > 0 ==> cmds[0].x == 0 && cmds[0].y == 0)
    &&& (cmds.len() > 0 ==> ({
        let a = cmds.last();
        if x == 0 {
            a.x + wval(ws, a.glyph) >= src.width && y == a.y + chh
        } else {
            a.y == y && x == a.x + wval(ws, a.glyph)
        }
    }))
    &&& forall|px: int, py: int|
        0 <= px < src.width && 0 <= py < src.height && (py < y || (py < y + chh && px < x))
            ==> #[trigger] covered(cmds, ws, chh as int, px, py)
}

proof fn lemma_plan_extend(
    src: PixelBuffer,
    ws: GlyphWidths,
    p0: CharPicker,
    chh: u32,
    old_cmds: Seq<DrawCmd>,
    cmd: DrawCmd,
    x: int,
    y: int,
)
    requires
        chh >= 1,
        src.width > 0,
        src.height > 0,
        0 <= x < src.width,
        0 <= y < src.height,
        inner_inv(src, ws, p0, chh, old_cmds, x, y),
        cell_ok(src, ws, p0, chh, old_cmds.len() as int, cmd),
        cmd.x == x,
        cmd.y == y,
    ensures
        inner_inv(src, ws, p0, chh, old_cmds.push(cmd), x + wval(ws, cmd.glyph), y),
{
    let cmds = old_cmds.push(cmd);
    let k = old_cmds.len() as int;
    let w = wval(ws, cmd.glyph);
    assert(w >= 1);
    assert(cmds[k] == cmd);
    assert forall|i: int| 0 <= i < cmds.len() implies cell_ok(
        src,
        ws,
        p0,
        chh,
        i,
        #[trigger] cmds[i],
    ) by {
        if i < k {
            assert(cmds[i] == old_cmds[i]);
        }
    }
    assert forall|i: int| 0 <= i < cmds.len() - 1 implies step_ok(
        #[trigger] cmds[i],
        cmds[i + 1],
        ws,
        src.width as int,
        chh as int,
    ) by {
        if i < k - 1 {
            assert(cmds[i] == old_cmds[i]);
            assert(cmds[i + 1] == old_cmds[i + 1]);
        } else {
            let a = old_cmds.last();
            assert(cmds[i] == a);
            assert(cmds[i + 1] == cmd);
        }
    }
    assert forall|px: int, py: int|
        0 <= px < src.width && 0 <= py < src.height && (py < y || (py < y + chh && px < x + w))
        implies #[trigger] covered(cmds, ws, chh as int, px, py) by {
        if py < y || (py < y + chh && px < x) {
            lemma_covered_push(old_cmds, cmd, ws, chh as int, px, py);
        } else {
            assert(covers(cmd, ws, chh as int, px, py));
            assert(0 <= k < cmds.len() && covers(cmds[k], ws, chh as int, px, py));
        }
    }
}

proof fn lemma_row_done(
    src: PixelBuffer,
    ws: GlyphWidths,
    p0: CharPicker,
    chh: u32,
    cmds: Seq<DrawCmd>,
    x: int,
    y: int,
)
    requires
        chh >= 1,
        src.width > 0,
        src.height > 0,
        0 <= y < src.height,
        x >= src.width,
        inner_inv(src, ws, p0, chh, cmds, x, y),
    ensures
        inner_inv(src, ws, p0, chh, cmds, 0, y + chh),
{
    assert(cmds.len() > 0);
    let a = cmds.last();
    assert(a.y == y && x == a.x + wval(ws, a.glyph));
    assert forall|px: int, py: int|
        0 <= px < src.width && 0 <= py < src.height && (py < y + chh || (py < y + 2 * (
        chh as int) && px < 0)) implies #[trigger] covered(cmds, ws, chh as int, px, py) by {
        assert(py < y || (py < y + chh && px < x));
    }
}

proof fn lemma_plan_finish(
    src: PixelBuffer,
    ws: GlyphWidths,
    p0: CharPicker,
    chh: u32,
    cmds: Seq<DrawCmd>,
    y: int,
)
    requires
        chh >= 1,
        src.width > 0,
        src.height > 0,
        y >= src.height,
        inner_inv(src, ws, p0, chh, cmds, 0, y),
    ensures
        plan_ok(src, ws, p0, chh, cmds),
        full_coverage(cmds, ws, src.width as int, src.height as int, chh as int),
{
    assert(cmds.len() > 0);
    let a = cmds.last();
    assert(a.x + wval(ws, a.glyph) >= src.width && y == a.y + chh);
    assert forall|px: int, py: int|
        0 <= px < src.width && 0 <= py < src.height implies #[trigger] covered(
        cmds,
        ws,
        chh as int,
        px,
        py,
    ) by {
        assert(py < y);
    }
}

/// Walks the source in rows of one cell height and columns of per-glyph
/// cell widths, asking the picker for each cell's glyph and the sampler for
/// each cell's color, and plans one glyph per cell over a background-filled
/// canvas of the source's size. A zero cell height or width on a non-empty
/// source is `DegenerateMetrics`; a glyph without a tabled width is
/// `MissingMetrics`.
#[verifier::rlimit(100)]
pub fn compose(
    source: &PixelBuffer,
    widths: &GlyphWidths,
    cell_height: u32,
    background: Color,
    picker: &mut CharPicker,
) -> (r: Result<Composition, ArtError>)
    requires
        source.wf(),
        old(picker).wf(),
    ensures
        final(picker).wf(),
        r is Ok ==> {
            &&& r->Ok_0.width == source.width
            &&& r->Ok_0.height == source.height
            &&& r->Ok_0.background == background
            &&& plan_ok(*source, *widths, *old(picker), cell_height, r->Ok_0.cmds@)
            &&& full_coverage(
                r->Ok_0.cmds@,
                *widths,
                source.width as int,
                source.height as int,
                cell_height as int,
            )
            &&& picker_advanced(*old(picker), *final(picker), r->Ok_0.cmds@.len() as int)
        },
        source.width > 0 && source.height > 0 && cell_height == 0 ==> r == Err::<
            Composition,
            ArtError,
        >(ArtError::DegenerateMetrics),
        r is Err ==> (r->Err_0 == ArtError::DegenerateMetrics || r->Err_0
            == ArtError::MissingMetrics) && source.width > 0 && source.height > 0,
        r == Err::<Composition, ArtError>(ArtError::MissingMetrics) ==> exists|c: char|
            #[trigger] old(picker).alphabet_seq().contains(c) && widths.width_of(c) is None,
        r == Err::<Composition, ArtError>(ArtError::DegenerateMetrics) ==> cell_height == 0
            || exists|c: char|
            #[trigger] old(picker).alphabet_seq().contains(c) && widths.width_of(c) == Some(0u32),
        cell_height >= 1 && (forall|c: char|
            #[trigger] old(picker).alphabet_seq().contains(c) ==> widths.width_of(c) is Some
                && wval(*widths, c) >= 1) ==> r is Ok,
{
    let w_img: u32 = source.width;
    let h_img: u32 = source.height;
    let ghost p0 = *picker;
    proof {
        lemma_advanced_zero(p0);
    }
    let mut cmds: Vec<DrawCmd> = Vec::new();
    if w_img == 0 || h_img == 0 {
        return Ok(Composition { width: w_img, height: h_img, background, cmds });
    }
    if cell_height == 0 {
        return Err(ArtError::DegenerateMetrics);
    }
    let mut y: u64 = 0;
    while y < h_img as u64
        invariant
            source.wf(),
            picker.wf(),
            p0.wf(),
            p0 == *old(picker),
            w_img == source.width,
            h_img == source.height,
            w_img > 0,
            h_img > 0,
            cell_height >= 1,
            y <= h_img as int + cell_height as int,
            picker_advanced(p0, *picker, cmds@.len() as int),
            inner_inv(*source, *widths, p0, cell_height, cmds@, 0, y as int),
        decreases h_img as int + cell_height as int - y as int,
    {
        let mut x: u64 = 0;
        while x < w_img as u64
            invariant
                source.wf(),
                picker.wf(),
                p0.wf(),
                p0 == *old(picker),
                w_img == source.width,
                h_img == source.height,
                w_img > 0,
                h_img > 0,
                cell_height >= 1,
                y < h_img as u64,
                x <= w_img as int + u32::MAX as int,
                picker_advanced(p0, *picker, cmds@.len() as int),
                inner_inv(*source, *widths, p0, cell_height, cmds@, x as int, y as int),
            decreases w_img as int + u32::MAX as int - x as int,
        {
            let ghost pk = *picker;
            let ghost k = cmds@.len() as int;
            let g = picker.next_char();
            proof {
                lemma_emits_through(p0, pk, k, g);
                lemma_advanced_step(p0, pk, *picker, k);
            }
            let w = match widths.lookup(g) {
                Some(w) => w,
                None => {
                    proof {
                        lemma_emits_in_alphabet(p0, k, g);
                    }
                    return Err(ArtError::MissingMetrics);
                },
            };
            if w == 0 {
                proof {
                    lemma_emits_in_alphabet(p0, k, g);
                }
                return Err(ArtError::DegenerateMetrics);
            }
            let cx: u32 = x as u32;
            let cy: u32 = y as u32;
            let region = Region { x: cx, y: cy, width: w, height: cell_height };
            let color = match get_average_color(source, region) {
                Ok(c) => c,
                Err(_) => {
                    // the cell starts inside the source, so its clipped
                    // area is positive and the sampler cannot refuse it
                    proof {
                        assert(clipped_w(*source, region) > 0);
                        assert(clipped_h(*source, region) > 0);
                        assert(false);
                    }
                    return Err(ArtError::MissingMetrics);
                },
            };
            let cmd = DrawCmd { x: cx, y: cy, glyph: g, color };
            let ghost old_cmds = cmds@;
            cmds.push(cmd);
            proof {
                assert(cell_ok(*source, *widths, p0, cell_height, k, cmd));
                lemma_plan_extend(
                    *source,
                    *widths,
                    p0,
                    cell_height,
                    old_cmds,
                    cmd,
                    x as int,
                    y as int,
                );
            }
            x = x + (w as u64);
        }
        proof {
            lemma_row_done(
                *source,
                *widths,
                p0,
                cell_height,
                cmds@,
                x as int,
                y as int,
            );
        }
        y = y + (cell_height as u64);
    }
    proof {
        lemma_plan_finish(*source, *widths, p0, cell_height, cmds@, y as int);
    }
    Ok(Composition { width: w_img, height: h_img, background, cmds })
}

} // verus!
