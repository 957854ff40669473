use raster_engine::raster::{area, GrayImage, Image, Raster, Rgb, RgbImage};

fn gray(width: u32, height: u32, data: Vec<u8>) -> GrayImage {
    Raster::from_raw(width, height, data).unwrap()
}

#[test]
fn new_image_is_filled() {
    let img: GrayImage = Raster::new(3, 2, 7u8);
    assert_eq!(img.width(), 3);
    assert_eq!(img.height(), 2);
    assert_eq!(img.as_raw(), &vec![7u8; 6]);
}

#[test]
fn empty_images_are_allowed() {
    let img: GrayImage = Raster::new(0, 5, 1u8);
    assert_eq!(img.width(), 0);
    assert_eq!(img.height(), 5);
    assert!(img.into_raw().is_empty());
}

#[test]
fn area_does_not_overflow() {
    assert_eq!(area(3, 4), 12);
    assert_eq!(area(u32::MAX, u32::MAX), 18446744065119617025);
}

#[test]
fn from_raw_checks_the_length() {
    assert!(Raster::from_raw(2, 2, vec![1u8, 2, 3]).is_none());
    assert!(Raster::from_raw(2, 2, vec![1u8, 2, 3, 4, 5]).is_none());
    let img = gray(2, 2, vec![1, 2, 3, 4]);
    assert_eq!(img.get_pixel(0, 0), 1);
    assert_eq!(img.get_pixel(1, 0), 2);
    assert_eq!(img.get_pixel(0, 1), 3);
    assert_eq!(img.get_pixel(1, 1), 4);
}

#[test]
fn pixel_or_fills_outside() {
    let img = gray(2, 2, vec![1, 2, 3, 4]);
    assert_eq!(img.pixel_or(1, 1, 9), 4);
    assert_eq!(img.pixel_or(-1, 0, 9), 9);
    assert_eq!(img.pixel_or(0, -1, 9), 9);
    assert_eq!(img.pixel_or(2, 0, 9), 9);
    assert_eq!(img.pixel_or(0, 2, 9), 9);
}

#[test]
fn with_pixel_replaces_one_pixel() {
    let img = gray(3, 2, vec![0; 6]).with_pixel(2, 1, 8);
    assert_eq!(img.as_raw(), &vec![0, 0, 0, 0, 0, 8]);
    let img = img.with_pixel(0, 0, 5);
    assert_eq!(img.into_raw(), vec![5, 0, 0, 0, 0, 8]);
}

#[test]
fn duplicate_and_clone_copy_the_image() {
    let img = gray(2, 2, vec![1, 2, 3, 4]);
    assert_eq!(img.duplicate(), img);
    assert_eq!(img.clone(), img);
}

#[test]
fn luma_uses_the_perceptual_weights() {
    assert_eq!(Rgb { r: 255, g: 255, b: 255 }.luma(), 255);
    assert_eq!(Rgb { r: 0, g: 0, b: 0 }.luma(), 0);
    assert_eq!(Rgb { r: 255, g: 0, b: 0 }.luma(), 54);
    assert_eq!(Rgb { r: 0, g: 255, b: 0 }.luma(), 182);
    assert_eq!(Rgb { r: 0, g: 0, b: 255 }.luma(), 18);
    assert_eq!(Rgb { r: 10, g: 20, b: 30 }.luma(), 18);
}

#[test]
fn luma_agrees_with_the_image_crate() {
    let samples = [
        (0u8, 0u8, 0u8),
        (255, 255, 255),
        (255, 0, 0),
        (0, 255, 0),
        (0, 0, 255),
        (12, 200, 99),
        (1, 2, 3),
        (254, 1, 128),
    ];
    for (r, g, b) in samples {
        let mut theirs = image::RgbImage::new(1, 1);
        theirs.put_pixel(0, 0, image::Rgb([r, g, b]));
        let expected = image::DynamicImage::ImageRgb8(theirs).to_luma8().get_pixel(0, 0).0[0];
        assert_eq!(Rgb { r, g, b }.luma(), expected);
    }
}

#[test]
fn gray_pixel_repeats_the_luminance() {
    assert_eq!(Rgb::gray(77), Rgb { r: 77, g: 77, b: 77 });
    assert_eq!(Rgb::black(), Rgb { r: 0, g: 0, b: 0 });
}

#[test]
fn to_luma8_reduces_colour_and_keeps_gray() {
    let colour: RgbImage = Raster::from_raw(
        2,
        1,
        vec![Rgb { r: 255, g: 0, b: 0 }, Rgb { r: 0, g: 0, b: 255 }],
    )
    .unwrap();
    assert_eq!(Image::Rgb(colour).to_luma8(), gray(2, 1, vec![54, 18]));
    let plain = gray(2, 1, vec![5, 6]);
    assert_eq!(Image::Gray(plain.clone()).to_luma8(), plain);
}

#[test]
fn to_rgb8_promotes_gray_and_keeps_colour() {
    let plain = gray(2, 1, vec![5, 6]);
    let expected: RgbImage = Raster::from_raw(2, 1, vec![Rgb::gray(5), Rgb::gray(6)]).unwrap();
    assert_eq!(Image::Gray(plain).to_rgb8(), expected);
    assert_eq!(Image::Rgb(expected.clone()).to_rgb8(), expected);
}

#[test]
fn image_reports_its_dimensions() {
    let img = Image::Gray(gray(3, 2, vec![0; 6]));
    assert_eq!(img.width(), 3);
    assert_eq!(img.height(), 2);
    let img = Image::Rgb(Raster::new(4, 5, Rgb::black()));
    assert_eq!(img.width(), 4);
    assert_eq!(img.height(), 5);
}
