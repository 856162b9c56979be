use std::mem::{align_of, align_of_val, size_of, size_of_val};

use image_template::pixel::{ColorType, VecCastErrorKind};
use image_template::AlphaPixel;

#[test]
fn pixel_pixel_no_padding() {
    assert_eq!(size_of::<AlphaPixel<u8>>(), 4);
    assert_eq!(size_of::<AlphaPixel<u16>>(), 8);
    assert_eq!(size_of::<AlphaPixel<f32>>(), 16);
}

#[test]
fn pixel_pixel_alignment() {
    assert_eq!(align_of::<AlphaPixel<u8>>(), 1);
    assert_eq!(align_of::<AlphaPixel<u16>>(), 2);
    assert_eq!(align_of::<AlphaPixel<f32>>(), 4);
}

#[test]
fn debug() {
    let pixel1 = AlphaPixel::rgba(255u8, 255, 255, 255);
    assert_eq!("rgba(255, 255, 255, 255)", pixel1.debug_string());

    let pixel2 = AlphaPixel::rgba(1000u16, 10, 1, 0);
    assert_eq!("rgba(1000, 10, 1, 0)", pixel2.debug_string());
}

#[test]
fn create_pixel_macro() {
    assert_eq!(AlphaPixel::rgba(0u8, 0, 0, 255), AlphaPixel { r: 0, g: 0, b: 0, a: 255 });
    assert_eq!(AlphaPixel::rgba(1000u16, 2000, 0, 100), AlphaPixel { r: 1000, g: 2000, b: 0, a: 100 });
}

#[test]
fn color_type() {
    assert_eq!(AlphaPixel::<u8>::color_type(), ColorType::Rgba8);
    assert_eq!(AlphaPixel::<u16>::color_type(), ColorType::Rgba16);
    assert_eq!(AlphaPixel::<f32>::color_type(), ColorType::Rgba32F);
}

#[test]
fn test_channels() {
    // The channels of AlphaPixel<T> occupy exactly the pixel's size and alignment.

    // u8
    let pixel: AlphaPixel<u8> = AlphaPixel::black();
    let channels = pixel.channels();
    assert_eq!(align_of_val(&channels), align_of::<AlphaPixel<u8>>());
    assert_eq!(size_of_val(&channels), size_of::<AlphaPixel<u8>>());
    assert_eq!(channels.len(), 4);
    assert_eq!(channels, [0, 0, 0, 255]);

    // u16
    let pixel: AlphaPixel<u16> = AlphaPixel::black();
    let channels = pixel.channels();
    assert_eq!(align_of_val(&channels), align_of::<AlphaPixel<u16>>());
    assert_eq!(size_of_val(&channels), size_of::<AlphaPixel<u16>>());
    assert_eq!(channels.len(), 4);
    assert_eq!(channels, [0, 0, 0, 65535]);
}

#[test]
fn presets_use_channel_maximum() {
    assert_eq!(AlphaPixel::<u8>::white(), AlphaPixel::rgba(255, 255, 255, 255));
    assert_eq!(AlphaPixel::<u8>::black(), AlphaPixel::rgba(0, 0, 0, 255));
    assert_eq!(AlphaPixel::<u8>::red(), AlphaPixel::rgba(255, 0, 0, 255));
    assert_eq!(AlphaPixel::<u16>::green(), AlphaPixel::rgba(0, 65535, 0, 65535));
    assert_eq!(AlphaPixel::<u16>::blue(), AlphaPixel::rgba(0, 0, 65535, 65535));
    assert_eq!(AlphaPixel::<u8>::default(), AlphaPixel::rgba(0, 0, 0, 0));
}

#[test]
fn hex_string() {
    let pixel: AlphaPixel<u8> = AlphaPixel::red();
    assert_eq!(pixel.as_hex_string(), "ff0000ff");
    let pixel = AlphaPixel::rgba(0x0au8, 0xb3, 0x70, 0x01);
    assert_eq!(pixel.as_hex_string(), "0ab37001");
    let wide = AlphaPixel::rgba(65535u16, 257, 256, 0);
    assert_eq!(wide.as_hex_string(), "ff010100");
}

#[test]
fn different_channel() {
    let pixel_u8: AlphaPixel<u8> = AlphaPixel::red();
    let pixel_u16: AlphaPixel<u16> = pixel_u8.as_different_channel();
    assert_eq!(pixel_u16, AlphaPixel::<u16>::red());

    let p = AlphaPixel::rgba(1u8, 2, 128, 254);
    let wide: AlphaPixel<u16> = p.as_different_channel();
    assert_eq!(wide, AlphaPixel::rgba(257, 514, 32896, 65278));
    let back: AlphaPixel<u8> = wide.as_different_channel();
    assert_eq!(back, p);

    // 254.996, 0.996 and 0.992 round to nearest
    let narrow: AlphaPixel<u8> = AlphaPixel::rgba(65534u16, 256, 255, 0).as_different_channel();
    assert_eq!(narrow, AlphaPixel::rgba(255, 1, 1, 0));
    let half: AlphaPixel<u8> = AlphaPixel::rgba(128u16, 127, 385, 0).as_different_channel();
    assert_eq!(half, AlphaPixel::rgba(0, 0, 1, 0));
}

#[test]
fn same_channel_round_trip() {
    for v in [0u8, 1, 17, 128, 254, 255] {
        let p = AlphaPixel::rgba(v, 255 - v, v / 2, v);
        let q: AlphaPixel<u8> = p.as_different_channel();
        assert_eq!(q, p);
    }
    let p = AlphaPixel::rgba(0u16, 12345, 65535, 3);
    let q: AlphaPixel<u16> = p.as_different_channel();
    assert_eq!(q, p);
}

#[test]
fn luma_and_invert() {
    let p = AlphaPixel::rgba(100u8, 200, 50, 7);
    // (299*100 + 587*200 + 114*50) / 1000 = 153.0
    assert_eq!(p.luma(), 153);
    assert_eq!(AlphaPixel::<u8>::white().luma(), 255);
    // 0.299 * 2 = 0.598 rounds to 1
    assert_eq!(AlphaPixel::rgba(2u8, 0, 0, 0).luma(), 1);
    assert_eq!(AlphaPixel::<u16>::white().luma(), 65535);
    let mut q = p;
    q.invert();
    assert_eq!(q, AlphaPixel::rgba(155, 55, 205, 7));
}

#[test]
fn pixels_from_channel_slices() {
    let components = [255u8, 255, 255, 255];
    let pixel = AlphaPixel::try_from_slice(&components).unwrap();
    assert_eq!(pixel, AlphaPixel::white());
    assert!(AlphaPixel::try_from_slice(&components[0..3]).is_none());

    let components = [255u8, 255, 255, 255, 0, 0, 0, 255, 255, 255, 255, 255, 100];
    let pixel_slice = AlphaPixel::try_pixel_slice_from_channels(&components).unwrap();
    assert_eq!(pixel_slice, [AlphaPixel::white(), AlphaPixel::black(), AlphaPixel::white()]);

    let empty: [u8; 0] = [];
    let empty_pixel_slice = AlphaPixel::try_pixel_slice_from_channels(&empty).unwrap();
    assert_eq!(empty_pixel_slice, []);
}

#[test]
fn pixel_vec_from_channels() {
    let component_vec = vec![255u8, 255, 255, 255, 0, 0, 0, 255];
    let pixel_vec = AlphaPixel::try_pixel_vec_from_channels(component_vec).unwrap();
    assert_eq!(pixel_vec, [AlphaPixel::white(), AlphaPixel::black()]);

    let invalid_component_vec = vec![255u8, 255, 255, 255, 0, 0, 0, 255, 10];
    let err = AlphaPixel::try_pixel_vec_from_channels(invalid_component_vec).unwrap_err();
    assert_eq!(err.kind, VecCastErrorKind::IncorrectLength);
    assert_eq!(err.original_vec, vec![255u8, 255, 255, 255, 0, 0, 0, 255, 10]);

    let exact = AlphaPixel::<u8>::pixel_vec_with_capacity(vec![255u8, 255, 255, 255, 0, 0, 0, 255], 8).unwrap();
    assert_eq!(exact, [AlphaPixel::white(), AlphaPixel::black()]);
    let err = AlphaPixel::<u8>::pixel_vec_with_capacity(vec![1u8, 2, 3, 4], 6).unwrap_err();
    assert_eq!(err.kind, VecCastErrorKind::IncorrectCapacity);
    assert_eq!(err.original_vec, vec![1u8, 2, 3, 4]);

    let mut odd_capacity: Vec<u16> = Vec::with_capacity(7);
    odd_capacity.extend_from_slice(&[1, 2, 3, 4]);
    if odd_capacity.capacity() % 4 != 0 {
        let err = AlphaPixel::try_pixel_vec_from_channels(odd_capacity).unwrap_err();
        assert_eq!(err.kind, VecCastErrorKind::IncorrectCapacity);
        assert_eq!(err.original_vec, vec![1u16, 2, 3, 4]);
    }
}
