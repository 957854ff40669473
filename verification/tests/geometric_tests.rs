use raster_engine::geometric::{
    mirror, mirror_impl, resize, resize_impl, translate, translate_impl,
};
use raster_engine::raster::{GrayImage, Image, Raster, Rgb};

fn plane(width: u32, height: u32, data: Vec<u8>) -> GrayImage {
    Raster::from_raw(width, height, data).unwrap()
}

fn gray(width: u32, height: u32, data: Vec<u8>) -> Image {
    Image::Gray(plane(width, height, data))
}

fn rgb(width: u32, height: u32, data: Vec<(u8, u8, u8)>) -> Image {
    let pixels = data.into_iter().map(|(r, g, b)| Rgb { r, g, b }).collect();
    Image::Rgb(Raster::from_raw(width, height, pixels).unwrap())
}

#[test]
fn translate_moves_right_and_down() {
    let img = plane(3, 2, vec![1, 2, 3, 4, 5, 6]);
    assert_eq!(translate_impl(&img, 1, 0, 0), plane(3, 2, vec![0, 1, 2, 0, 4, 5]));
    assert_eq!(translate_impl(&img, 0, 1, 0), plane(3, 2, vec![0, 0, 0, 1, 2, 3]));
    assert_eq!(translate_impl(&img, 1, 1, 0), plane(3, 2, vec![0, 0, 0, 0, 1, 2]));
}

#[test]
fn translate_moves_left_and_up() {
    let img = plane(3, 2, vec![1, 2, 3, 4, 5, 6]);
    assert_eq!(translate_impl(&img, -1, 0, 0), plane(3, 2, vec![2, 3, 0, 5, 6, 0]));
    assert_eq!(translate_impl(&img, -2, -1, 9), plane(3, 2, vec![6, 9, 9, 9, 9, 9]));
}

#[test]
fn translate_out_of_the_image_leaves_the_background() {
    let img = plane(2, 2, vec![1, 2, 3, 4]);
    assert_eq!(translate_impl(&img, 2, 0, 0), plane(2, 2, vec![0; 4]));
    assert_eq!(translate_impl(&img, 0, -2, 0), plane(2, 2, vec![0; 4]));
    assert_eq!(translate_impl(&img, i32::MAX, i32::MIN, 0), plane(2, 2, vec![0; 4]));
}

#[test]
fn translate_defaults_to_no_movement() {
    let img = gray(2, 2, vec![1, 2, 3, 4]);
    assert_eq!(translate(img.clone(), None, None), img);
    assert_eq!(translate(img.clone(), Some(0), Some(0)), img);
    assert_eq!(translate(img, Some(1), None), gray(2, 2, vec![0, 1, 0, 3]));
}

#[test]
fn translate_keeps_the_colour_format() {
    let img = rgb(2, 1, vec![(1, 2, 3), (4, 5, 6)]);
    assert_eq!(translate(img, Some(1), Some(0)), rgb(2, 1, vec![(0, 0, 0), (1, 2, 3)]));
}

#[test]
fn resize_doubles_by_repeating_pixels() {
    let img = plane(2, 2, vec![1, 2, 3, 4]);
    assert_eq!(
        resize_impl(&img, 4, 4, 0),
        plane(4, 4, vec![1, 1, 2, 2, 1, 1, 2, 2, 3, 3, 4, 4, 3, 3, 4, 4])
    );
}

#[test]
fn resize_samples_at_the_rounded_position() {
    // Source index: round((x + 1) / new * old) - 1, halves rounded up, at least 0.
    let img = plane(4, 1, vec![10, 20, 30, 40]);
    assert_eq!(resize_impl(&img, 2, 1, 0), plane(2, 1, vec![20, 40]));
    assert_eq!(resize_impl(&img, 3, 1, 0), plane(3, 1, vec![10, 30, 40]));
    assert_eq!(resize_impl(&img, 1, 1, 0), plane(1, 1, vec![40]));
    assert_eq!(resize_impl(&img, 8, 1, 0), plane(8, 1, vec![10, 10, 20, 20, 30, 30, 40, 40]));
    let img = plane(3, 1, vec![10, 20, 30]);
    // x = 0: round(1.5) = 2; x = 1: round(3) = 3.
    assert_eq!(resize_impl(&img, 2, 1, 0), plane(2, 1, vec![20, 30]));
}

#[test]
fn resize_to_the_same_size_changes_nothing() {
    let img = plane(3, 2, vec![1, 2, 3, 4, 5, 6]);
    assert_eq!(resize_impl(&img, 3, 2, 0), img);
}

#[test]
fn resize_there_and_back_restores_the_dimensions() {
    let img = plane(3, 2, vec![1, 2, 3, 4, 5, 6]);
    let there = resize_impl(&img, 7, 5, 0);
    assert_eq!((there.width(), there.height()), (7, 5));
    let back = resize_impl(&there, 3, 2, 0);
    assert_eq!((back.width(), back.height()), (3, 2));
    assert_eq!(back, resize_impl(&resize_impl(&img, 7, 5, 0), 3, 2, 0));
}

#[test]
fn enlarging_by_a_whole_factor_and_back_is_exact() {
    let img = plane(3, 2, vec![1, 2, 3, 4, 5, 6]);
    assert_eq!(resize_impl(&resize_impl(&img, 6, 4, 0), 3, 2, 0), img);
}

#[test]
fn resize_to_nothing_and_from_nothing() {
    let img = plane(2, 2, vec![1, 2, 3, 4]);
    assert_eq!(resize_impl(&img, 0, 3, 0), plane(0, 3, vec![]));
    assert_eq!(resize_impl(&img, 3, 0, 0), plane(3, 0, vec![]));
    let empty = plane(0, 0, vec![]);
    assert_eq!(resize_impl(&empty, 2, 1, 7), plane(2, 1, vec![7, 7]));
}

#[test]
fn resize_of_a_single_pixel_fills_the_image() {
    let img = plane(1, 1, vec![9]);
    assert_eq!(resize_impl(&img, 3, 2, 0), plane(3, 2, vec![9; 6]));
}

#[test]
fn resize_defaults_to_the_current_dimensions() {
    let img = gray(2, 2, vec![1, 2, 3, 4]);
    assert_eq!(resize(img.clone(), None, None), img);
    assert_eq!(resize(img.clone(), Some(4), None), gray(4, 2, vec![1, 1, 2, 2, 3, 3, 4, 4]));
    assert_eq!(resize(img, None, Some(1)), gray(2, 1, vec![3, 4]));
}

#[test]
fn resize_keeps_the_colour_format() {
    let img = rgb(1, 1, vec![(1, 2, 3)]);
    assert_eq!(resize(img, Some(2), Some(1)), rgb(2, 1, vec![(1, 2, 3), (1, 2, 3)]));
}

#[test]
fn mirror_x_flips_left_and_right() {
    let img = plane(3, 2, vec![1, 2, 3, 4, 5, 6]);
    assert_eq!(mirror_impl(&img, "x"), plane(3, 2, vec![3, 2, 1, 6, 5, 4]));
}

#[test]
fn mirror_y_flips_top_and_bottom() {
    let img = plane(3, 2, vec![1, 2, 3, 4, 5, 6]);
    assert_eq!(mirror_impl(&img, "y"), plane(3, 2, vec![4, 5, 6, 1, 2, 3]));
}

#[test]
fn mirror_about_another_axis_is_a_copy() {
    let img = plane(3, 2, vec![1, 2, 3, 4, 5, 6]);
    assert_eq!(mirror_impl(&img, "z"), img);
    assert_eq!(mirror_impl(&img, ""), img);
    assert_eq!(mirror_impl(&img, "X"), img);
    assert_eq!(mirror_impl(&img, "xy"), img);
}

#[test]
fn mirroring_twice_gives_the_image_back() {
    let g = gray(3, 2, vec![1, 2, 3, 4, 5, 6]);
    let c = rgb(2, 2, vec![(1, 2, 3), (4, 5, 6), (7, 8, 9), (10, 11, 12)]);
    for axis in ["x", "y", "other"] {
        assert_eq!(mirror(mirror(g.clone(), axis), axis), g);
        assert_eq!(mirror(mirror(c.clone(), axis), axis), c);
    }
}

#[test]
fn mirror_keeps_the_colour_format() {
    let img = rgb(2, 1, vec![(1, 2, 3), (4, 5, 6)]);
    assert_eq!(mirror(img, "x"), rgb(2, 1, vec![(4, 5, 6), (1, 2, 3)]));
}

#[test]
fn transforms_accept_empty_and_single_pixel_images() {
    let empty = plane(0, 0, vec![]);
    assert_eq!(translate_impl(&empty, 3, 3, 0), empty);
    assert_eq!(mirror_impl(&empty, "x"), empty);
    let one = plane(1, 1, vec![5]);
    assert_eq!(mirror_impl(&one, "x"), one);
    assert_eq!(mirror_impl(&one, "y"), one);
    assert_eq!(translate_impl(&one, 0, 0, 0), one);
}

#[test]
fn resample_reads_every_pixel_from_its_source() {
    let img = plane(2, 2, vec![1, 2, 3, 4]);
    let quarter_turn = vec![(0, 1), (0, 0), (1, 1), (1, 0)];
    assert_eq!(
        raster_engine::geometric::resample(&img, &quarter_turn, 0),
        Some(plane(2, 2, vec![3, 1, 4, 2]))
    );
    let outside = vec![(-1, 0), (0, 0), (2, 0), (0, 2)];
    assert_eq!(
        raster_engine::geometric::resample(&img, &outside, 9),
        Some(plane(2, 2, vec![9, 1, 9, 9]))
    );
}

#[test]
fn resample_needs_one_source_per_pixel() {
    let img = plane(2, 2, vec![1, 2, 3, 4]);
    assert_eq!(raster_engine::geometric::resample(&img, &vec![(0, 0)], 0), None);
    assert_eq!(raster_engine::geometric::resample(&img, &vec![(0, 0); 5], 0), None);
    let empty = plane(0, 0, vec![]);
    assert_eq!(raster_engine::geometric::resample(&empty, &Vec::new(), 0), Some(empty));
}

#[test]
fn resize_agrees_with_single_precision_sampling_away_from_ties() {
    // Where the sampling position is not exactly halfway between two pixels, exact
    // arithmetic finds the pixel that single-precision arithmetic finds. At an exact tie
    // the position rounds up.
    for old_w in 1..=64u32 {
        let ramp = plane(old_w, 1, (0..old_w).map(|v| v as u8).collect());
        for width in 1..=64u32 {
            let out = resize_impl(&ramp, width, 1, 0);
            for x in 0..width {
                let doubled = 2 * (x + 1) * old_w;
                let found = out.get_pixel(x, 0) as u32;
                if doubled % (2 * width) == width {
                    let up = (doubled + width) / (2 * width);
                    assert_eq!(found, up.clamp(1, old_w) - 1);
                } else {
                    let expected = ((x + 1) as f32 / width as f32 * old_w as f32)
                        .clamp(1.0, old_w as f32)
                        .round() as u32
                        - 1;
                    assert_eq!(found, expected, "{} -> {} at {}", old_w, width, x);
                }
            }
        }
    }
}
