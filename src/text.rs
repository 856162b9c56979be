use vstd::prelude::*;

use crate::blending::{BlendingMethod, over_view};
use crate::image::{Image, NewImageError, clipped_extent};
use crate::pixel::{AlphaPixel, PixelChannel, channel_with_value, lemma_channel_with_value};

verus! {

/// Why text could not be laid out.
#[derive(Debug, Clone, Copy, PartialEq, Eq, Structural)]
pub enum LayoutError {
    /// Scaled line spacing was asked for, but the font has no line metrics
    /// for the layout's direction.
    MissingLineSpacing,
}

/// Which end of a line the glyphs are placed from.
#[derive(Debug, Clone, Copy, PartialEq, Eq, Structural)]
pub enum LayoutAlign {
    Start,
    End,
}

/// The direction glyphs advance in.
#[derive(Debug, Clone, Copy, PartialEq, Eq, Structural)]
pub enum LayoutDirection {
    LeftToRight,
    TopToBottom,
}

/// A rasterized glyph: a coverage byte per pixel, `width` pixels per row,
/// rows top to bottom.
#[derive(Debug, Clone)]
pub struct GlyphRaster {
    pub glyph: char,
    pub width: usize,
    pub coverage: Vec<u8>,
}

/// The position of the first raster for glyph `c`, if any.
pub open spec fn find_raster(rasters: Seq<GlyphRaster>, c: char) -> Option<int>
    decreases rasters.len(),
{
    if rasters.len() == 0 {
        None
    } else {
        match find_raster(rasters.drop_last(), c) {
            Some(i) => Some(i),
            None => if rasters.last().glyph == c {
                Some(rasters.len() - 1)
            } else {
                None
            },
        }
    }
}

/// Whether the coverage bytes make whole rows of a non-empty width.
pub open spec fn raster_is_grid(r: GlyphRaster) -> bool {
    r.width > 0 && r.coverage@.len() % (r.width as nat) == 0
}

/// Width and height of the glyph drawn for `c`; nothing is drawn for a glyph
/// without a raster.
pub open spec fn glyph_size(rasters: Seq<GlyphRaster>, c: char) -> (int, int) {
    match find_raster(rasters, c) {
        Some(i) => if rasters[i].width == 0 {
            (0, 0)
        } else {
            (rasters[i].width as int, (rasters[i].coverage@.len() / (rasters[i].width as nat)) as int)
        },
        None => (0, 0),
    }
}

/// `(min_x, min_y, max_x, max_y)` over the origin and every placed glyph's
/// box.
pub open spec fn glyph_bounds(
    placements: Seq<(char, isize, isize)>,
    rasters: Seq<GlyphRaster>,
) -> (int, int, int, int)
    decreases placements.len(),
{
    if placements.len() == 0 {
        (0, 0, 0, 0)
    } else {
        let (x0, y0, x1, y1) = glyph_bounds(placements.drop_last(), rasters);
        let (c, x, y) = placements.last();
        let (w, h) = glyph_size(rasters, c);
        (
            if x < x0 { x as int } else { x0 },
            if y < y0 { y as int } else { y0 },
            if x + w > x1 { x + w } else { x1 },
            if y + h > y1 { y + h } else { y1 },
        )
    }
}

/// The glyph pixel for coverage byte `v`: the fill colour with alpha `v`.
pub open spec fn tint<T: PixelChannel>(fill: AlphaPixel<T>, v: u8) -> AlphaPixel<T> {
    AlphaPixel { a: channel_with_value::<T>(v as nat), ..fill }
}

/// The channel values at `(px, py)` of a `width × height` image, transparent
/// at first, after the first `k` placed glyphs are drawn over it in order,
/// each shifted by `(-min_x, -min_y)`, tinted with `fill` and clipped to the
/// image. A glyph whose raster is missing or not a grid is skipped.
pub open spec fn glyph_composite<T: PixelChannel>(
    placements: Seq<(char, isize, isize)>,
    rasters: Seq<GlyphRaster>,
    fill: AlphaPixel<T>,
    min_x: int,
    min_y: int,
    width: nat,
    height: nat,
    k: int,
    px: int,
    py: int,
) -> (nat, nat, nat, nat)
    decreases k,
{
    if k <= 0 {
        (0, 0, 0, 0)
    } else {
        let below = glyph_composite(
            placements,
            rasters,
            fill,
            min_x,
            min_y,
            width,
            height,
            k - 1,
            px,
            py,
        );
        let (c, x, y) = placements[k - 1];
        let ox = x - min_x;
        let oy = y - min_y;
        match find_raster(rasters, c) {
            Some(i) => {
                let r = rasters[i];
                let gh = r.coverage@.len() / (r.width as nat);
                let (ew, eh) = clipped_extent(width, height, ox as nat, oy as nat, r.width as nat, gh);
                if raster_is_grid(r) && 0 <= ox < width && 0 <= oy < height && ox <= px < ox + ew
                    && oy <= py < oy + eh {
                    over_view(
                        tint(fill, r.coverage@[(py - oy) * r.width + (px - ox)])@,
                        below,
                        T::spec_max(),
                    )
                } else {
                    below
                }
            },
            None => below,
        }
    }
}

/// The distinct glyphs of `placements`.
pub fn distinct_glyphs(placements: &[(char, isize, isize)]) -> (r: Vec<char>)
    ensures
        r@.no_duplicates(),
        forall|c: char| r@.contains(c) <==> exists|i: int| 0 <= i < placements@.len() && #[trigger] placements@[i].0 == c,
{
    let mut out: Vec<char> = Vec::new();
    let mut i: usize = 0;
    while i < placements.len()
        invariant
            i <= placements@.len(),
            out@.no_duplicates(),
            forall|c: char| out@.contains(c) <==> exists|j: int| 0 <= j < i && #[trigger] placements@[j].0 == c,
        decreases placements@.len() - i,
    {
        let c = placements[i].0;
        let mut seen = false;
        let mut j: usize = 0;
        while j < out.len()
            invariant
                j <= out@.len(),
                seen <==> exists|k: int| 0 <= k < j && out@[k] == c,
            decreases out@.len() - j,
        {
            if out[j] == c {
                seen = true;
            }
            j += 1;
        }
        let ghost before = out@;
        if !seen {
            out.push(c);
            proof {
                assert forall|a: int, b: int| 0 <= a < b < out@.len() implies out@[a] != out@[b] by {
                    if b == out@.len() - 1 {
                        assert(before.contains(out@[a]));
                    }
                }
            }
        }
        proof {
            assert forall|d: char| out@.contains(d) <==> exists|k: int| 0 <= k < i + 1 && #[trigger] placements@[k].0 == d by {
                if out@.contains(d) {
                    if before.contains(d) {
                        let k = choose|k: int| 0 <= k < i && #[trigger] placements@[k].0 == d;
                        assert(0 <= k < i + 1 && placements@[k].0 == d);
                    } else {
                        assert(d == c);
                        assert(placements@[i as int].0 == d);
                    }
                }
                if exists|k: int| 0 <= k < i + 1 && #[trigger] placements@[k].0 == d {
                    let k = choose|k: int| 0 <= k < i + 1 && #[trigger] placements@[k].0 == d;
                    if k < i {
                        assert(before.contains(d));
                        let m = choose|m: int| 0 <= m < before.len() && before[m] == d;
                        assert(out@[m] == d);
                    } else if seen {
                        let m = choose|m: int| 0 <= m < out@.len() && out@[m] == c;
                        assert(out@[m] == d);
                    } else {
                        assert(out@[out@.len() - 1] == d);
                    }
                }
            }
        }
        i += 1;
    }
    out
}

proof fn lemma_find_raster_extends(s: Seq<GlyphRaster>, c: char, n: int, m: int)
    requires
        0 <= n <= m <= s.len(),
        find_raster(s.subrange(0, n), c) is Some,
    ensures
        find_raster(s.subrange(0, m), c) == find_raster(s.subrange(0, n), c),
    decreases m - n,
{
    if m > n {
        lemma_find_raster_extends(s, c, n, m - 1);
        assert(s.subrange(0, m).drop_last() =~= s.subrange(0, m - 1));
    }
}

proof fn lemma_find_raster_bounds(s: Seq<GlyphRaster>, c: char)
    ensures
        find_raster(s, c) matches Some(i) ==> 0 <= i < s.len() && s[i].glyph == c,
    decreases s.len(),
{
    if s.len() > 0 {
        lemma_find_raster_bounds(s.drop_last(), c);
    }
}

fn find_raster_index(rasters: &[GlyphRaster], c: char) -> (r: Option<usize>)
    ensures
        r matches Some(i) ==> find_raster(rasters@, c) == Some(i as int),
        r is None ==> find_raster(rasters@, c) is None,
{
    let mut i: usize = 0;
    while i < rasters.len()
        invariant
            i <= rasters@.len(),
            find_raster(rasters@.subrange(0, i as int), c) is None,
        decreases rasters@.len() - i,
    {
        proof {
            assert(rasters@.subrange(0, i + 1).drop_last() =~= rasters@.subrange(0, i as int));
        }
        if rasters[i].glyph == c {
            proof {
                lemma_find_raster_extends(rasters@, c, i + 1, rasters@.len() as int);
                assert(rasters@.subrange(0, rasters@.len() as int) =~= rasters@);
            }
            return Some(i);
        }
        i += 1;
    }
    assert(rasters@.subrange(0, i as int) =~= rasters@);
    None
}

fn glyph_extent(rasters: &[GlyphRaster], c: char) -> (r: (usize, usize))
    ensures
        r.0 as int == glyph_size(rasters@, c).0,
        r.1 as int == glyph_size(rasters@, c).1,
{
    proof {
        lemma_find_raster_bounds(rasters@, c);
    }
    match find_raster_index(rasters, c) {
        Some(i) => {
            let w = rasters[i].width;
            if w == 0 {
                (0, 0)
            } else {
                (w, rasters[i].coverage.len() / w)
            }
        },
        None => (0, 0),
    }
}

/// The box spanning the origin and every placed glyph, as
/// `(min_x, min_y, max_x, max_y)`; a glyph without a raster counts as empty.
pub fn glyph_positions(placements: &[(char, isize, isize)], rasters: &[GlyphRaster]) -> (r: (
    i128,
    i128,
    i128,
    i128,
))
    ensures
        (r.0 as int, r.1 as int, r.2 as int, r.3 as int) == glyph_bounds(placements@, rasters@),
        isize::MIN <= r.0 <= 0,
        isize::MIN <= r.1 <= 0,
        0 <= r.2 <= isize::MAX + usize::MAX,
        0 <= r.3 <= isize::MAX + usize::MAX,
{
    let mut min_x: i128 = 0;
    let mut min_y: i128 = 0;
    let mut max_x: i128 = 0;
    let mut max_y: i128 = 0;
    let mut i: usize = 0;
    while i < placements.len()
        invariant
            i <= placements@.len(),
            (min_x as int, min_y as int, max_x as int, max_y as int) == glyph_bounds(
                placements@.subrange(0, i as int),
                rasters@,
            ),
            isize::MIN <= min_x <= 0,
            isize::MIN <= min_y <= 0,
            0 <= max_x <= isize::MAX + usize::MAX,
            0 <= max_y <= isize::MAX + usize::MAX,
        decreases placements@.len() - i,
    {
        let (c, x, y) = placements[i];
        let (w, h) = glyph_extent(rasters, c);
        let x = x as i128;
        let y = y as i128;
        if x < min_x {
            min_x = x;
        }
        if y < min_y {
            min_y = y;
        }
        if x + w as i128 > max_x {
            max_x = x + w as i128;
        }
        if y + h as i128 > max_y {
            max_y = y + h as i128;
        }
        proof {
            let s = placements@.subrange(0, i + 1);
            assert(s.drop_last() =~= placements@.subrange(0, i as int));
            assert(s.last() == placements@[i as int]);
        }
        i += 1;
    }
    assert(placements@.subrange(0, i as int) =~= placements@);
    (min_x, min_y, max_x, max_y)
}

fn tinted_pixels<T: PixelChannel>(fill: AlphaPixel<T>, coverage: &[u8]) -> (r: Vec<AlphaPixel<T>>)
    ensures
        r@.len() == coverage@.len(),
        forall|i: int| 0 <= i < coverage@.len() ==> #[trigger] r@[i] == tint(fill, coverage@[i]),
{
    proof {
        T::lemma_channel_range();
    }
    let mut out: Vec<AlphaPixel<T>> = Vec::with_capacity(coverage.len());
    let mut i: usize = 0;
    while i < coverage.len()
        invariant
            i <= coverage@.len(),
            out@.len() == i,
            forall|j: int| 0 <= j < i ==> #[trigger] out@[j] == tint(fill, coverage@[j]),
        decreases coverage@.len() - i,
    {
        proof {
            T::lemma_channel_range();
        }
        let a = T::from_u64(coverage[i] as u64);
        proof {
            lemma_channel_with_value(a);
        }
        out.push(AlphaPixel { r: fill.r, g: fill.g, b: fill.b, a });
        i += 1;
    }
    out
}

/// Rasterize placed glyphs into one image: the image spans the origin and
/// every glyph's box, starts transparent, and each placement's raster, tinted
/// with `fill` (coverage becomes alpha), is drawn over it in order with the
/// Porter-Duff over operator. Rasters are looked up by glyph. A box zero
/// pixels wide gives the empty image.
///
/// `None` if the spanning box does not fit in memory.
pub fn raster_from_glyphs<T: PixelChannel>(
    fill: AlphaPixel<T>,
    placements: &[(char, isize, isize)],
    rasters: &[GlyphRaster],
) -> (r: Option<Image<T>>)
    ensures
        ({
            let (x0, y0, x1, y1) = glyph_bounds(placements@, rasters@);
            let w = x1 - x0;
            let h = y1 - y0;
            &&& r is Some <==> w <= usize::MAX && h <= usize::MAX && w * h <= usize::MAX
            &&& r matches Some(im) ==> {
                &&& im.spec_width() == w
                &&& im.spec_height() == if w == 0 {
                    0
                } else {
                    h
                }
                &&& forall|px: int, py: int|
                    0 <= px < w && 0 <= py < h ==> (#[trigger] im.spec_pixel_at(px, py))@
                        == glyph_composite(
                        placements@,
                        rasters@,
                        fill,
                        x0,
                        y0,
                        w as nat,
                        h as nat,
                        placements@.len() as int,
                        px,
                        py,
                    )
            }
        }),
{
    let (min_x, min_y, max_x, max_y) = glyph_positions(placements, rasters);
    let span_x = max_x - min_x;
    let span_y = max_y - min_y;
    if span_x > usize::MAX as i128 || span_y > usize::MAX as i128 {
        return None;
    }
    let width = span_x as usize;
    let height = span_y as usize;
    if width.checked_mul(height).is_none() {
        return None;
    }
    if width == 0 {
        return Some(Image::new());
    }
    let ghost x0 = min_x as int;
    let ghost y0 = min_y as int;
    let mut im = Image::new_with_fill(AlphaPixel::transparent(), width, height);
    proof {
        assert forall|px: int, py: int| 0 <= px < width && 0 <= py < height implies (
        #[trigger] im.spec_pixel_at(px, py))@ == glyph_composite(
            placements@,
            rasters@,
            fill,
            min_x as int,
            min_y as int,
            width as nat,
            height as nat,
            0,
            px,
            py,
        ) by {
            crate::image::lemma_index_in_grid(width as int, height as int, px, py);
        }
    }
    let mut k: usize = 0;
    while k < placements.len()
        invariant
            k <= placements@.len(),
            im.spec_width() == width,
            im.spec_height() == height,
            isize::MIN <= min_x <= 0,
            isize::MIN <= min_y <= 0,
            (min_x as int, min_y as int, max_x as int, max_y as int) == glyph_bounds(
                placements@,
                rasters@,
            ),
            width == max_x - min_x,
            height == max_y - min_y,
            forall|px: int, py: int|
                0 <= px < width && 0 <= py < height ==> (#[trigger] im.spec_pixel_at(px, py))@
                    == glyph_composite(
                    placements@,
                    rasters@,
                    fill,
                    min_x as int,
                    min_y as int,
                    width as nat,
                    height as nat,
                    k as int,
                    px,
                    py,
                ),
        decreases placements@.len() - k,
    {
        let (c, x, y) = placements[k];
        let ghost old_im = im;
        let ox = x as i128 - min_x;
        let oy = y as i128 - min_y;
        proof {
            lemma_find_raster_bounds(rasters@, c);
        }
        let found = find_raster_index(rasters, c);
        if let Some(ri) = found {
            let raster = &rasters[ri];
            if raster.width > 0 && raster.coverage.len() % raster.width == 0 && 0 <= ox && ox
                < width as i128 && 0 <= oy && oy < height as i128 {
                let tinted = tinted_pixels(fill, raster.coverage.as_slice());
                let gw = raster.width;
                let ghost cov = raster.coverage@;
                let made = Image::from_pixels(tinted, gw);
                match made {
                    Ok(glyph) => {
                    let _ = im.draw_subimage(&glyph, ox as usize, oy as usize, BlendingMethod::Over);
                    proof {
                        let gh = cov.len() / (gw as nat);
                        assert(gw * gh == cov.len()) by (nonlinear_arith)
                            requires
                                gh == cov.len() / (gw as nat),
                                cov.len() % (gw as nat) == 0,
                                gw > 0,
                        ;
                        assert forall|px: int, py: int|
                            0 <= px < width && 0 <= py < height implies (
                        #[trigger] im.spec_pixel_at(px, py))@ == glyph_composite(
                            placements@,
                            rasters@,
                            fill,
                            min_x as int,
                            min_y as int,
                            width as nat,
                            height as nat,
                            k + 1,
                            px,
                            py,
                        ) by {
                            assert(old_im.spec_contains(px, py));
                            assert((old_im.spec_pixel_at(px, py))@ == glyph_composite(
                                placements@,
                                rasters@,
                                fill,
                                min_x as int,
                                min_y as int,
                                width as nat,
                                height as nat,
                                k as int,
                                px,
                                py,
                            ));
                            let (ew, eh) = clipped_extent(
                                width as nat,
                                height as nat,
                                ox as nat,
                                oy as nat,
                                gw as nat,
                                gh,
                            );
                            if ox <= px < ox + ew && oy <= py < oy + eh {
                                crate::image::lemma_index_in_grid(
                                    gw as int,
                                    gh as int,
                                    px - ox,
                                    py - oy,
                                );
                                assert(glyph.spec_pixel_at(px - ox, py - oy) == tint(
                                    fill,
                                    cov[(py - oy) * gw + (px - ox)],
                                ));
                            }
                        }
                    }
                    },
                    Err(_) => {
                        // The raster was checked to be a grid, so it makes an image.
                        proof {
                            assert(false);
                        }
                    },
                }
            } else {
                proof {
                    assert forall|px: int, py: int|
                        0 <= px < width && 0 <= py < height implies (
                    #[trigger] im.spec_pixel_at(px, py))@ == glyph_composite(
                        placements@,
                        rasters@,
                        fill,
                        min_x as int,
                        min_y as int,
                        width as nat,
                        height as nat,
                        k + 1,
                        px,
                        py,
                    ) by {
                        assert((old_im.spec_pixel_at(px, py))@ == glyph_composite(
                            placements@,
                            rasters@,
                            fill,
                            min_x as int,
                            min_y as int,
                            width as nat,
                            height as nat,
                            k as int,
                            px,
                            py,
                        ));
                    }
                }
            }
        } else {
            proof {
                assert forall|px: int, py: int|
                    0 <= px < width && 0 <= py < height implies (
                #[trigger] im.spec_pixel_at(px, py))@ == glyph_composite(
                    placements@,
                    rasters@,
                    fill,
                    min_x as int,
                    min_y as int,
                    width as nat,
                    height as nat,
                    k + 1,
                    px,
                    py,
                ) by {
                    assert((old_im.spec_pixel_at(px, py))@ == glyph_composite(
                        placements@,
                        rasters@,
                        fill,
                        min_x as int,
                        min_y as int,
                        width as nat,
                        height as nat,
                        k as int,
                        px,
                        py,
                    ));
                }
            }
        }
        k += 1;
    }
    Some(im)
}

/// The index of the first line break at or after `s`, or the text's length.
pub open spec fn line_end_from(text: Seq<char>, s: int) -> int
    decreases text.len() - s,
{
    if s >= text.len() {
        text.len() as int
    } else if text[s] == '\n' {
        s
    } else {
        line_end_from(text, s + 1)
    }
}

/// The `k`-th glyph visited in the line `[s, e)`: from the start, or from the
/// end with end alignment.
pub open spec fn line_glyph(text: Seq<char>, s: int, e: int, align: LayoutAlign, k: int) -> char {
    match align {
        LayoutAlign::Start => text[s + k],
        LayoutAlign::End => text[e - 1 - k],
    }
}

/// The glyphs of the line `[s, e)` from its `taken`-th on, in visiting order,
/// each with its row and whether it is the first visited in its line.
pub open spec fn line_items(
    text: Seq<char>,
    s: int,
    e: int,
    taken: int,
    row: nat,
    align: LayoutAlign,
) -> Seq<(char, nat, bool)> {
    Seq::new(
        (e - s - taken) as nat,
        |k: int| (line_glyph(text, s, e, align, k + taken), row, k + taken == 0),
    )
}

/// The glyphs from the line starting at `s` on, line by line, in visiting
/// order.
pub open spec fn order_from(text: Seq<char>, s: int, row: nat, align: LayoutAlign) -> Seq<
    (char, nat, bool),
>
    decreases text.len() - s,
{
    let e = line_end_from(text, s);
    if s > text.len() || e >= text.len() || e < s {
        line_items(text, s, e, 0, row, align)
    } else {
        line_items(text, s, e, 0, row, align) + order_from(text, e + 1, row + 1, align)
    }
}

/// The order in which text layout visits the glyphs of `text`: line by line,
/// each line from its start, or from its end with end alignment. Each glyph
/// comes with its row and whether it is the first visited in its line.
pub open spec fn layout_order(text: Seq<char>, align: LayoutAlign) -> Seq<(char, nat, bool)> {
    order_from(text, 0, 0, align)
}

/// The number of characters of `text` from `s` on that are not line breaks.
pub open spec fn glyph_count_from(text: Seq<char>, s: int) -> nat
    decreases text.len() - s,
{
    if s >= text.len() {
        0
    } else {
        (if text[s] != '\n' { 1nat } else { 0nat }) + glyph_count_from(text, s + 1)
    }
}

proof fn lemma_line_end_bounds(text: Seq<char>, s: int)
    requires
        0 <= s <= text.len(),
    ensures
        s <= line_end_from(text, s) <= text.len(),
        line_end_from(text, s) < text.len() ==> text[line_end_from(text, s)] == '\n',
        forall|i: int| s <= i < line_end_from(text, s) ==> text[i] != '\n',
    decreases text.len() - s,
{
    if s < text.len() && text[s] != '\n' {
        lemma_line_end_bounds(text, s + 1);
    }
}

proof fn lemma_count_through_line(text: Seq<char>, s: int, e: int)
    requires
        0 <= s <= e <= text.len(),
        forall|i: int| s <= i < e ==> text[i] != '\n',
    ensures
        glyph_count_from(text, s) == (e - s) + glyph_count_from(text, e),
    decreases e - s,
{
    if s < e {
        lemma_count_through_line(text, s + 1, e);
    }
}

proof fn lemma_order_len(text: Seq<char>, s: int, row: nat, align: LayoutAlign)
    requires
        0 <= s <= text.len(),
    ensures
        order_from(text, s, row, align).len() == glyph_count_from(text, s),
    decreases text.len() - s,
{
    let e = line_end_from(text, s);
    lemma_line_end_bounds(text, s);
    lemma_count_through_line(text, s, e);
    if e < text.len() {
        lemma_order_len(text, e + 1, row + 1, align);
    }
}

/// Text layout places one glyph for every character that is not a line
/// break, whatever the alignment.
pub proof fn lemma_layout_places_every_glyph(text: Seq<char>, align: LayoutAlign)
    ensures
        layout_order(text, align).len() == glyph_count_from(text, 0),
{
    lemma_order_len(text, 0, 0, align);
}

/// A forward-only walk over the glyphs of a text in layout order.
pub struct GlyphCursor {
    text: Vec<char>,
    align: LayoutAlign,
    line_start: usize,
    line_end: usize,
    taken: usize,
    row: usize,
}

fn find_line_end(text: &[char], s: usize) -> (e: usize)
    requires
        s <= text@.len(),
    ensures
        e == line_end_from(text@, s as int),
{
    let mut i = s;
    while i < text.len() && text[i] != '\n'
        invariant
            s <= i <= text@.len(),
            line_end_from(text@, s as int) == line_end_from(text@, i as int),
        decreases text@.len() - i,
    {
        i += 1;
    }
    i
}

impl GlyphCursor {
    /// The cursor's state is consistent with its text.
    pub closed spec fn wf(&self) -> bool {
        &&& self.line_start <= self.line_end <= self.text@.len()
        &&& self.line_end == line_end_from(self.text@, self.line_start as int)
        &&& self.taken <= self.line_end - self.line_start
        &&& self.row <= self.line_start
    }

    /// The glyphs still to come, with their rows and first-in-line marks.
    pub closed spec fn rest(&self) -> Seq<(char, nat, bool)> {
        let here = line_items(
            self.text@,
            self.line_start as int,
            self.line_end as int,
            self.taken as int,
            self.row as nat,
            self.align,
        );
        if self.line_end < self.text@.len() {
            here + order_from(self.text@, self.line_end + 1, (self.row + 1) as nat, self.align)
        } else {
            here
        }
    }

    /// A cursor at the first glyph of `text`.
    pub fn new(text: Vec<char>, align: LayoutAlign) -> (c: Self)
        ensures
            c.wf(),
            c.rest() == layout_order(text@, align),
    {
        let line_end = find_line_end(text.as_slice(), 0);
        proof {
            lemma_line_end_bounds(text@, 0);
        }
        let c = GlyphCursor { text, align, line_start: 0, line_end, taken: 0, row: 0 };
        assert(c.rest() =~= layout_order(c.text@, align));
        c
    }

    /// The next glyph, its row, and whether it is the first of its line;
    /// `None` once every glyph has been visited.
    pub fn next(&mut self) -> (r: Option<(char, usize, bool)>)
        requires
            old(self).wf(),
        ensures
            final(self).wf(),
            old(self).rest().len() == 0 ==> r is None && final(self).rest().len() == 0,
            old(self).rest().len() > 0 ==> (r matches Some((c, row, first)) && (c, row as nat, first)
                == old(self).rest()[0] && final(self).rest() == old(self).rest().drop_first()),
    {
        let ghost start = self.rest();
        loop
            invariant
                self.wf(),
                self.rest() == start,
                start == old(self).rest(),
                self.text@ == old(self).text@,
            decreases self.text@.len() - self.line_end,
        {
            let len = self.line_end - self.line_start;
            if self.taken < len {
                let k = self.taken;
                let c = match self.align {
                    LayoutAlign::Start => self.text[self.line_start + k],
                    LayoutAlign::End => self.text[self.line_end - 1 - k],
                };
                let ghost before = self.rest();
                self.taken = k + 1;
                proof {
                    let here = line_items(
                        self.text@,
                        self.line_start as int,
                        self.line_end as int,
                        k as int,
                        self.row as nat,
                        self.align,
                    );
                    let later = line_items(
                        self.text@,
                        self.line_start as int,
                        self.line_end as int,
                        k + 1,
                        self.row as nat,
                        self.align,
                    );
                    assert(later =~= here.drop_first());
                    if self.line_end < self.text@.len() {
                        let tail = order_from(
                            self.text@,
                            self.line_end + 1,
                            (self.row + 1) as nat,
                            self.align,
                        );
                        assert((here + tail).drop_first() =~= later + tail);
                    }
                }
                return Some((c, self.row, k == 0));
            }
            if self.line_end >= self.text.len() {
                assert(self.rest().len() == 0);
                return None;
            }
            let s = self.line_end + 1;
            let e = find_line_end(self.text.as_slice(), s);
            proof {
                lemma_line_end_bounds(self.text@, s as int);
                let empty = line_items(
                    self.text@,
                    self.line_start as int,
                    self.line_end as int,
                    self.taken as int,
                    self.row as nat,
                    self.align,
                );
                assert(empty.len() == 0);
                assert(empty + order_from(self.text@, s as int, (self.row + 1) as nat, self.align)
                    =~= order_from(self.text@, s as int, (self.row + 1) as nat, self.align));
            }
            self.line_start = s;
            self.line_end = e;
            self.taken = 0;
            self.row = self.row + 1;
            proof {
                let here = line_items(
                    self.text@,
                    self.line_start as int,
                    self.line_end as int,
                    0,
                    self.row as nat,
                    self.align,
                );
                if self.line_end < self.text@.len() {
                    assert(self.rest() == here + order_from(
                        self.text@,
                        self.line_end + 1,
                        (self.row + 1) as nat,
                        self.align,
                    ));
                } else {
                    assert(self.rest() == here);
                }
            }
        }
    }
}

} // verus!
