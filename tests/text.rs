use image_template::text::{distinct_glyphs, glyph_positions, raster_from_glyphs, GlyphCursor, GlyphRaster, LayoutAlign};
use image_template::{AlphaPixel, BlendingMethod, PixelBlend};

fn rasters() -> Vec<GlyphRaster> {
    vec![
        // 2×2 glyph 'a'
        GlyphRaster { glyph: 'a', width: 2, coverage: vec![255, 0, 128, 255] },
        // 1×3 glyph 'b'
        GlyphRaster { glyph: 'b', width: 1, coverage: vec![10, 20, 30] },
        // empty glyph ' '
        GlyphRaster { glyph: ' ', width: 0, coverage: vec![] },
    ]
}

#[test]
fn distinct_glyphs_in_first_appearance_order() {
    let placements = [('b', 0, 0), ('a', 1, 1), ('b', 5, 2), (' ', 3, 3), ('a', 0, 0)];
    assert_eq!(distinct_glyphs(&placements), vec!['b', 'a', ' ']);
    assert_eq!(distinct_glyphs(&[]), Vec::<char>::new());
}

#[test]
fn bounds_span_origin_and_glyphs() {
    let placements = [('a', 3, 1), ('b', -2, 4), (' ', 10, -6), ('z', 50, 50)];
    // 'a' spans x 3..5, y 1..3; 'b' spans x -2..-1, y 4..7; ' ' and 'z' are empty
    assert_eq!(glyph_positions(&placements, &rasters()), (-2, -6, 50, 50));
    assert_eq!(glyph_positions(&[('a', 3, 1)], &rasters()), (0, 0, 5, 3));
}

#[test]
fn raster_composites_tinted_glyphs() {
    let fill = AlphaPixel::rgba(200u8, 100, 50, 255);
    let placements = [('a', 1, 0), ('b', 2, -1)];
    let image = raster_from_glyphs(fill, &placements, &rasters()).unwrap();
    // x spans 0..3, y spans -1..2
    assert_eq!(image.get_width(), 3);
    assert_eq!(image.get_height(), 3);
    let clear = AlphaPixel::<u8>::default();
    assert_eq!(image.pixel_at(0, 0).unwrap(), clear);
    // 'a' at (1, 1) in image coordinates
    assert_eq!(image.pixel_at(1, 1).unwrap(), AlphaPixel::rgba(200, 100, 50, 255));
    assert_eq!(image.pixel_at(1, 2).unwrap(), AlphaPixel::rgba(200, 100, 50, 128));
    // 'b' at (2, 0) drawn over 'a' where they overlap
    assert_eq!(image.pixel_at(2, 0).unwrap(), AlphaPixel::rgba(200, 100, 50, 10));
    let a_pixel = AlphaPixel::rgba(200u8, 100, 50, 0);
    let b_pixel = AlphaPixel::rgba(200u8, 100, 50, 20);
    assert_eq!(image.pixel_at(2, 1).unwrap(), BlendingMethod::Over.blend(a_pixel, b_pixel));
    assert_eq!(image.pixel_at(2, 2).unwrap(), BlendingMethod::Over.blend(AlphaPixel::rgba(200u8, 100, 50, 255), AlphaPixel::rgba(200, 100, 50, 30)));
}

#[test]
fn raster_of_nothing_is_empty() {
    let image = raster_from_glyphs(AlphaPixel::<u16>::white(), &[], &rasters()).unwrap();
    assert_eq!(image.get_width(), 0);
    assert_eq!(image.get_height(), 0);
}

#[test]
fn raster_too_large_is_refused() {
    let placements = [('a', isize::MIN, isize::MIN), ('a', isize::MAX - 2, isize::MAX - 2)];
    assert!(raster_from_glyphs(AlphaPixel::<u8>::white(), &placements, &rasters()).is_none());
}

fn walk(text: &str, align: LayoutAlign) -> Vec<(char, usize, bool)> {
    let mut cursor = GlyphCursor::new(text.chars().collect(), align);
    let mut out = Vec::new();
    while let Some(item) = cursor.next() {
        out.push(item);
    }
    assert!(cursor.next().is_none());
    out
}

#[test]
fn cursor_visits_lines_in_order() {
    assert_eq!(
        walk("ab\n\ncd", LayoutAlign::Start),
        vec![('a', 0, true), ('b', 0, false), ('c', 2, true), ('d', 2, false)]
    );
    assert_eq!(
        walk("ab\n\ncd", LayoutAlign::End),
        vec![('b', 0, true), ('a', 0, false), ('d', 2, true), ('c', 2, false)]
    );
    assert_eq!(walk("", LayoutAlign::Start), vec![]);
    assert_eq!(walk("\n\n", LayoutAlign::End), vec![]);
}

#[test]
fn cursor_places_every_non_newline_character_once() {
    let text = "The quick brown fox\njumps over a lazy dog.";
    let expected = text.chars().filter(|c| *c != '\n').count();
    assert_eq!(walk(text, LayoutAlign::Start).len(), expected);
    assert_eq!(walk(text, LayoutAlign::End).len(), expected);
    assert_eq!(walk(text, LayoutAlign::Start), walk(text, LayoutAlign::Start));
}
