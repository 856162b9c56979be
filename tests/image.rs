use image_template::{AlphaPixel, BlendingMethod, Image, NewImageError};

fn generation_function(x: usize, y: usize) -> AlphaPixel<u8> {
    let blue = 255;
    let alpha = 255;
    AlphaPixel::rgba(x as u8, y as u8, blue, alpha)
}

fn create_test_image() -> Image<u8> {
    Image::from_function(255, 255, generation_function)
}

#[test]
/// This tests both `image.pixel_at(...)` and `Image::from_function(...)`
fn image_pixel_at() {
    let image = create_test_image();

    for row in 0..image.get_height() {
        for col in 0..image.get_width() {
            assert_eq!(generation_function(col, row), image.pixel_at(col, row).unwrap())
        }
    }
}

#[test]
fn image_from_pixels_fail() {
    let pixels = vec![AlphaPixel::<u8>::black(); 10];

    let image_error_incorrect_width = Image::from_pixels(pixels.clone(), 3);
    assert!(image_error_incorrect_width.is_err());
    assert_eq!(image_error_incorrect_width.unwrap_err(), NewImageError::IncorrectWidth);

    let image_error_zero_width = Image::from_pixels(pixels, 0);
    assert!(image_error_zero_width.is_err());
    assert_eq!(image_error_zero_width.unwrap_err(), NewImageError::ZeroWidth);
}

#[test]
fn image_from_pixels_valid() {
    let valid_image = Image::<u8>::from_pixels(vec![], 0);
    assert!(valid_image.is_ok());

    let valid_pixels: Vec<AlphaPixel<u8>> = (0..100).map(|i| AlphaPixel { r: i, g: 100 - i, b: 255, a: 255 }).collect();
    let valid_image = Image::from_pixels(valid_pixels, 10);
    assert!(valid_image.is_ok());
}

#[test]
fn from_pixels_height() {
    let image = Image::from_pixels(vec![AlphaPixel::<u8>::red(); 12], 4).unwrap();
    assert_eq!(image.get_width(), 4);
    assert_eq!(image.get_height(), 3);
    assert_eq!(image.get_pixels().len(), 12);
    let empty = Image::<u16>::from_pixels(vec![], 7).unwrap();
    assert_eq!(empty.get_width(), 7);
    assert_eq!(empty.get_height(), 0);
}

#[test]
fn image_contains() {
    let image = Image::from_function(100, 50, |_, _| AlphaPixel::<u8>::black());
    assert!(image.contains(0, 0));
    assert!(image.contains(10, 10));
    assert!(image.contains(99, 49));
    assert!(!image.contains(150, 10));
    assert!(!image.contains(150, 150));
    assert!(!image.contains(100, 50));
}

#[test]
fn image_get_row() {
    let mut image = create_test_image();

    let green_row = Image::new_with_fill(AlphaPixel::green(), 255, 1);
    image.draw_subimage(&green_row, 0, 99, BlendingMethod::Replace).unwrap();

    assert_eq!(image.row(99).unwrap(), [AlphaPixel::green(); 255]);
    assert_eq!(image.row(0).unwrap(), (0..255).map(|i| AlphaPixel { r: i, g: 0, b: 255, a: 255 }).collect::<Vec<AlphaPixel<u8>>>());
    assert_eq!(image.row(50).unwrap(), (0..255).map(|i| AlphaPixel { r: i, g: 50, b: 255, a: 255 }).collect::<Vec<AlphaPixel<u8>>>());
    assert!(image.row(255).is_none());
}

#[test]
fn index_of() {
    let image: Image<u8> = Image::new_with_fill(AlphaPixel::black(), 5, 5);
    assert_eq!(image.index_of(0, 0), Some(0));
    assert_eq!(image.index_of(3, 2), Some(13));
    assert_eq!(image.index_of_unchecked(0, 2), 10);
    assert!(image.index_of(10, 10).is_none());
    assert!(image.index_of(5, 0).is_none());
}

#[test]
fn image_draw_subimage() {
    let mut background_image = Image::<u8>::new_with_fill(AlphaPixel::red(), 100, 100);
    let subimage = Image::new_with_fill(AlphaPixel::blue(), 30, 20);
    background_image.draw_subimage(&subimage, 50, 20, BlendingMethod::Replace);

    assert_eq!(background_image.pixel_at(0, 0).unwrap(), AlphaPixel::red());

    assert_eq!(background_image.pixel_at(49, 30).unwrap(), AlphaPixel::red());
    assert_eq!(background_image.pixel_at(50, 30).unwrap(), AlphaPixel::blue());
    assert_eq!(background_image.pixel_at(79, 30).unwrap(), AlphaPixel::blue());
    assert_eq!(background_image.pixel_at(80, 30).unwrap(), AlphaPixel::red());

    assert_eq!(background_image.pixel_at(65, 19).unwrap(), AlphaPixel::red());
    assert_eq!(background_image.pixel_at(65, 20).unwrap(), AlphaPixel::blue());
    assert_eq!(background_image.pixel_at(65, 39).unwrap(), AlphaPixel::blue());
    assert_eq!(background_image.pixel_at(65, 40).unwrap(), AlphaPixel::red());

    assert_eq!(background_image.pixel_at(99, 99).unwrap(), AlphaPixel::red());
}

#[test]
fn draw_subimage_replace_twice_is_same_as_once() {
    let mut once = Image::<u8>::new_with_fill(AlphaPixel::red(), 100, 100);
    let subimage = Image::new_with_fill(AlphaPixel::blue(), 30, 20);
    once.draw_subimage(&subimage, 50, 20, BlendingMethod::Replace).unwrap();
    let mut twice = once.clone();
    twice.draw_subimage(&subimage, 50, 20, BlendingMethod::Replace).unwrap();
    assert_eq!(once.get_pixels(), twice.get_pixels());
}

#[test]
fn draw_subimage_clips_and_rejects_outside_offsets() {
    let mut background = Image::<u8>::new_with_fill(AlphaPixel::red(), 10, 10);
    let subimage = Image::new_with_fill(AlphaPixel::blue(), 30, 20);
    assert!(background.draw_subimage(&subimage, 8, 9, BlendingMethod::Replace).is_some());
    assert_eq!(background.pixel_at(7, 9).unwrap(), AlphaPixel::red());
    assert_eq!(background.pixel_at(8, 9).unwrap(), AlphaPixel::blue());
    assert_eq!(background.pixel_at(9, 9).unwrap(), AlphaPixel::blue());
    assert_eq!(background.pixel_at(9, 8).unwrap(), AlphaPixel::red());

    let before = background.clone();
    assert!(background.draw_subimage(&subimage, 10, 0, BlendingMethod::Replace).is_none());
    assert!(background.draw_subimage(&subimage, 0, 10, BlendingMethod::Over).is_none());
    assert_eq!(background.get_pixels(), before.get_pixels());
}

#[test]
fn draw_subimage_over_blends() {
    let mut background = Image::<u8>::new_with_fill(AlphaPixel::rgba(255, 255, 255, 255), 4, 4);
    let subimage = Image::new_with_fill(AlphaPixel::rgba(0, 50, 100, 25), 2, 2);
    background.draw_subimage(&subimage, 1, 1, BlendingMethod::Over).unwrap();
    assert_eq!(background.pixel_at(1, 1).unwrap(), AlphaPixel::rgba(230, 235, 240, 255));
    assert_eq!(background.pixel_at(0, 0).unwrap(), AlphaPixel::rgba(255, 255, 255, 255));
}

#[test]
fn bytes_follow_channel_order() {
    let image = Image::from_pixels(vec![AlphaPixel::rgba(1u8, 2, 3, 4), AlphaPixel::rgba(5, 6, 7, 8)], 2).unwrap();
    assert_eq!(image.as_bytes(), vec![1, 2, 3, 4, 5, 6, 7, 8]);

    let wide = Image::from_pixels(vec![AlphaPixel::rgba(0x0102u16, 0x0304, 0xa0b0, 0xffff)], 1).unwrap();
    let bytes = wide.as_bytes();
    assert_eq!(bytes.len(), 8);
    let values: Vec<u16> = bytes.chunks(2).map(|b| u16::from_ne_bytes([b[0], b[1]])).collect();
    assert_eq!(values, vec![0x0102, 0x0304, 0xa0b0, 0xffff]);
}

#[test]
fn zero_width_images_have_no_rows() {
    let filled = Image::<u8>::new_with_fill(AlphaPixel::red(), 0, 5);
    assert_eq!(filled.get_width(), 0);
    assert_eq!(filled.get_height(), 0);
    let sampled = Image::<u8>::from_function(0, 7, |_, _| AlphaPixel::blue());
    assert_eq!(sampled.get_height(), 0);
    assert!(sampled.row(0).is_none());
}
