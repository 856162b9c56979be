use image_template::layers::{ImageLayer, RectangleLayer, TextLayer};
use image_template::{AlphaPixel, Canvas, Image, Rect};

#[test]
fn background() {
    let background = AlphaPixel::rgba(100u8, 100, 100, 255);
    let mut canvas = Canvas::from_dimensions(10, 10);
    canvas.background = background;

    for row in 0..10 {
        for col in 0..10 {
            assert_eq!(canvas.combined_pixel_at(col, row), background)
        }
    }
}

fn half_colored_canvas() -> Canvas<u8> {
    let mut canvas: Canvas<u8> = Canvas::from_dimensions(10, 10);
    let top_half_rect = RectangleLayer::new(AlphaPixel::red(), Rect { x: 0, y: 0, width: 10, height: 5 });
    let bottom_half_rect = RectangleLayer::new(AlphaPixel::blue(), Rect { x: 0, y: 5, width: 10, height: 5 });
    canvas.add_layer(top_half_rect);
    canvas.add_layer(bottom_half_rect);
    canvas
}

#[test]
fn canvas_pixel_at() {
    let canvas = half_colored_canvas();

    for row in 0..10 {
        for col in 0..10 {
            assert_eq!(canvas.combined_pixel_at(col, row), if row < 5 { AlphaPixel::red() } else { AlphaPixel::blue() })
        }
    }
}

#[test]
fn flatten() {
    let canvas = half_colored_canvas();
    let image = canvas.flatten();

    for row in 0..10 {
        for col in 0..10 {
            assert_eq!(image.pixel_at(col, row).unwrap(), if row < 5 { AlphaPixel::red() } else { AlphaPixel::blue() })
        }
    }
}

#[test]
fn later_layers_paint_over_earlier_ones() {
    let mut canvas: Canvas<u8> = Canvas::from_dimensions(4, 1);
    canvas.background = AlphaPixel::white();
    canvas.add_layer(RectangleLayer::new(AlphaPixel::red(), Rect { x: 0, y: 0, width: 3, height: 1 }));
    canvas.add_layer(RectangleLayer::new(AlphaPixel::rgba(0, 50, 100, 25), Rect { x: 1, y: 0, width: 3, height: 1 }));
    let image = canvas.flatten();
    assert_eq!(image.get_width(), 4);
    assert_eq!(image.get_height(), 1);
    assert_eq!(image.pixel_at(0, 0).unwrap(), AlphaPixel::red());
    // 25/255 of (0, 50, 100) over red: (230.0, 4.90, 9.80), rounded
    assert_eq!(image.pixel_at(1, 0).unwrap(), AlphaPixel::rgba(230, 5, 10, 255));
    // over white
    assert_eq!(image.pixel_at(3, 0).unwrap(), AlphaPixel::rgba(230, 235, 240, 255));
}

#[test]
fn image_and_text_layers_sample_their_bitmap() {
    let bitmap = Image::from_function(3, 2, |x, y| AlphaPixel::rgba(x as u8, y as u8, 9, 255));
    let mut canvas: Canvas<u8> = Canvas::from_dimensions(8, 8);
    canvas.add_layer(ImageLayer::new(bitmap.clone(), 2, 3));
    canvas.add_layer(TextLayer::from_raster(bitmap, 5, 0));
    assert_eq!(canvas.combined_pixel_at(2, 3), AlphaPixel::rgba(0, 0, 9, 255));
    assert_eq!(canvas.combined_pixel_at(4, 4), AlphaPixel::rgba(2, 1, 9, 255));
    assert_eq!(canvas.combined_pixel_at(5, 4), AlphaPixel::default());
    assert_eq!(canvas.combined_pixel_at(7, 1), AlphaPixel::rgba(2, 1, 9, 255));
    assert_eq!(canvas.combined_pixel_at(1, 3), AlphaPixel::default());
}

#[test]
fn zero_width_canvas_flattens_to_empty_image() {
    let mut canvas: Canvas<u8> = Canvas::from_dimensions(0, 5);
    canvas.add_layer(RectangleLayer::new(AlphaPixel::red(), Rect { x: 0, y: 0, width: 3, height: 3 }));
    let image = canvas.flatten();
    assert_eq!(image.get_width(), 0);
    assert_eq!(image.get_height(), 0);
    assert!(image.get_pixels().is_empty());
}
