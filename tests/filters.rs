use image_template::filters::{AnyFilter, BrightnessFilter, TranslateFilter};
use image_template::layers::{filtered_pixel_at, unfiltered_pixel_at, RectangleLayer};
use image_template::{AlphaPixel, Filter, Rect};

#[test]
fn brightness() {
    let brightness_filter = AnyFilter::Brightness(BrightnessFilter { numerator: 2, denominator: 1 });
    let rectangle: RectangleLayer<u8> = RectangleLayer {
        fill: AlphaPixel::rgba(100, 100, 200, 255),
        rect: Rect { x: 0, y: 0, width: 100, height: 100 },
        filters: vec![brightness_filter]
    };
    assert_eq!(unfiltered_pixel_at(&rectangle, 50, 50).unwrap(), AlphaPixel::rgba(100, 100, 200, 255));
    assert_eq!(filtered_pixel_at(&rectangle, 50, 50).unwrap(), AlphaPixel::rgba(200, 200, 255, 255));
}

#[test]
fn brightness_fractions() {
    let dim = BrightnessFilter { numerator: 1, denominator: 3 };
    assert_eq!(dim.filter_pixel(AlphaPixel::rgba(100u8, 2, 255, 40)), AlphaPixel::rgba(33, 0, 85, 40));
    let unbounded = BrightnessFilter { numerator: 1, denominator: 0 };
    assert_eq!(unbounded.filter_pixel(AlphaPixel::rgba(0u16, 2, 3, 4)), AlphaPixel::rgba(65535, 65535, 65535, 4));
}

#[test]
fn translate_test() {
    let translate_filter = AnyFilter::Translate(TranslateFilter { x: 10, y: -5 });
    let rectangle = RectangleLayer {
        rect: Rect { x: 2, y: 8, width: 5, height: 6 },
        fill: AlphaPixel::<u8>::red(),
        filters: vec![translate_filter]
    };

    let bottom_right_pixel = filtered_pixel_at(&rectangle, 16, 8);

    assert!(bottom_right_pixel.is_some());
    assert_eq!(bottom_right_pixel.unwrap(), AlphaPixel::red());

    assert!(filtered_pixel_at(&rectangle, 3, 9).is_none());
    assert!(filtered_pixel_at(&rectangle, 13, 4).is_some());
}

#[test]
fn translate_wraps_instead_of_failing() {
    let f = TranslateFilter { x: isize::MIN, y: 3 };
    let (x, y) = Filter::<u8>::filter_transform(&f, 5, 1);
    assert_eq!(x, 5usize.wrapping_add(1usize << (usize::BITS - 1)));
    assert_eq!(y, usize::MAX - 1);
}

#[test]
fn filters_apply_in_chain_order() {
    let rectangle = RectangleLayer {
        rect: Rect { x: 0, y: 0, width: 4, height: 4 },
        fill: AlphaPixel::rgba(90u8, 10, 0, 255),
        filters: vec![
            AnyFilter::Translate(TranslateFilter { x: 1, y: 1 }),
            AnyFilter::Brightness(BrightnessFilter { numerator: 3, denominator: 1 }),
            AnyFilter::Translate(TranslateFilter { x: 2, y: 0 }),
            AnyFilter::Brightness(BrightnessFilter { numerator: 1, denominator: 2 }),
        ],
    };
    // (90 * 3) clamps to 255, then halves to 127; 10 * 3 / 2 = 15
    assert_eq!(filtered_pixel_at(&rectangle, 3, 1).unwrap(), AlphaPixel::rgba(127, 15, 0, 255));
    // (2, 1) maps to (-1, 0): outside
    assert!(filtered_pixel_at(&rectangle, 2, 1).is_none());
    assert!(filtered_pixel_at(&rectangle, 6, 4).unwrap() == AlphaPixel::rgba(127, 15, 0, 255));
    assert!(filtered_pixel_at(&rectangle, 7, 4).is_none());
}
