use raster_engine::fourier_desc::{
    bounding_box, largest_contour, reconstruct, reconstruct_impl, select_largest, truncate_fft,
    Bounds,
};
use raster_engine::raster::{GrayImage, Image, Raster, Rgb};

fn plane(width: u32, height: u32, data: Vec<u8>) -> GrayImage {
    Raster::from_raw(width, height, data).unwrap()
}

fn gray(width: u32, height: u32, data: Vec<u8>) -> Image {
    Image::Gray(plane(width, height, data))
}

#[test]
fn select_largest_takes_the_longest_contour() {
    let contours = vec![vec![(0, 0)], vec![(1, 1), (2, 2), (3, 3)], vec![(4, 4), (5, 5)]];
    assert_eq!(select_largest(&contours), Some(1));
}

#[test]
fn select_largest_takes_the_last_of_equals() {
    let contours = vec![vec![(0, 0), (1, 0)], vec![(5, 5)], vec![(2, 2), (3, 3)]];
    assert_eq!(select_largest(&contours), Some(2));
    let contours: Vec<Vec<(i32, i32)>> = vec![vec![], vec![]];
    assert_eq!(select_largest(&contours), Some(1));
}

#[test]
fn select_largest_of_nothing_is_none() {
    let contours: Vec<Vec<(i32, i32)>> = Vec::new();
    assert_eq!(select_largest(&contours), None);
}

#[test]
fn black_image_has_no_contour() {
    assert!(largest_contour(&gray(4, 4, vec![0; 16])).is_empty());
    assert!(largest_contour(&gray(0, 0, vec![])).is_empty());
}

#[test]
fn image_is_binarized_before_tracing() {
    // Only the centre is above the level: without binarization every pixel would count as
    // foreground and the boundary would run around the whole image.
    let img = gray(3, 3, vec![100, 100, 100, 100, 200, 100, 100, 100, 100]);
    assert_eq!(largest_contour(&img), vec![(1, 1)]);
}

#[test]
fn pixels_at_the_level_are_background() {
    let img = gray(3, 1, vec![128, 129, 127]);
    assert_eq!(largest_contour(&img), vec![(1, 0)]);
}

#[test]
fn largest_contour_follows_the_boundary_of_a_square() {
    let mut data = vec![0u8; 36];
    for y in 1..5 {
        for x in 1..5 {
            data[y * 6 + x] = 255;
        }
    }
    let points = largest_contour(&gray(6, 6, data));
    assert_eq!(points.len(), 12);
    assert_eq!(points[0], (1, 1));
    for (x, y) in &points {
        assert!((1..=4).contains(x) && (1..=4).contains(y));
        assert!(*x == 1 || *x == 4 || *y == 1 || *y == 4);
    }
}

#[test]
fn largest_contour_agrees_with_imageproc() {
    let mut data = vec![0u8; 64];
    for (x, y) in [(1, 1), (2, 1), (1, 2), (5, 5), (6, 5), (5, 6), (6, 6), (4, 6), (6, 4)] {
        data[y * 8 + x] = 200;
    }
    let theirs = image::GrayImage::from_raw(8, 8, data.clone()).unwrap();
    let binary = imageproc::contrast::threshold(&theirs, 128);
    let contours = imageproc::contours::find_contours::<i32>(&binary);
    let mut expected: Vec<(i32, i32)> = Vec::new();
    let mut most = 0;
    for c in &contours {
        if c.points.len() >= most {
            most = c.points.len();
            expected = c.points.iter().map(|p| (p.x, p.y)).collect();
        }
    }
    assert!(!expected.is_empty());
    assert_eq!(largest_contour(&gray(8, 8, data)), expected);
}

#[test]
fn largest_contour_works_on_the_luminance_of_colour() {
    let white = Rgb { r: 255, g: 255, b: 255 };
    let dark = Rgb { r: 100, g: 100, b: 100 };
    let img = Image::Rgb(Raster::from_raw(2, 1, vec![dark, white]).unwrap());
    assert_eq!(largest_contour(&img), vec![(1, 0)]);
}

#[test]
fn bounding_box_of_points() {
    let points = vec![(3, 7), (-2, 5), (4, -1), (0, 0)];
    assert_eq!(
        bounding_box(&points),
        Some(Bounds { min_x: -2, min_y: -1, max_x: 4, max_y: 7 })
    );
    assert_eq!(
        bounding_box(&vec![(5, 6)]),
        Some(Bounds { min_x: 5, min_y: 6, max_x: 5, max_y: 6 })
    );
    assert_eq!(bounding_box(&Vec::new()), None);
}

#[test]
fn truncation_zeroes_the_middle_block() {
    let fd = vec![1, 2, 3, 4, 5, 6, 7, 8];
    assert_eq!(truncate_fft(&fd, 4, 0), vec![1, 2, 0, 0, 0, 0, 7, 8]);
    assert_eq!(truncate_fft(&fd, 2, 0), vec![1, 0, 0, 0, 0, 0, 0, 8]);
    assert_eq!(truncate_fft(&fd, 3, 0), vec![1, 0, 0, 0, 0, 0, 7, 8]);
    assert_eq!(truncate_fft(&fd, 7, 0), vec![1, 2, 3, 0, 5, 6, 7, 8]);
    assert_eq!(truncate_fft(&fd, 0, 0), vec![0; 8]);
    assert_eq!(truncate_fft(&fd, 1, 0), vec![0, 0, 0, 0, 0, 0, 0, 8]);
}

#[test]
fn truncation_to_at_least_the_length_keeps_everything() {
    let fd = vec![1, 2, 3];
    assert_eq!(truncate_fft(&fd, 3, 0), fd);
    assert_eq!(truncate_fft(&fd, 64, 0), fd);
    assert_eq!(truncate_fft(&fd, usize::MAX, 0), fd);
    let none: Vec<i32> = Vec::new();
    assert_eq!(truncate_fft(&none, 0, 0), none);
}

#[test]
fn a_point_is_drawn_as_a_filled_square() {
    let canvas = plane(5, 4, vec![0; 20]);
    let out = reconstruct_impl(&canvas, &vec![(2, 1)]);
    assert_eq!(
        out,
        plane(
            5,
            4,
            vec![
                0, 255, 255, 255, 0, //
                0, 255, 255, 255, 0, //
                0, 255, 255, 255, 0, //
                0, 0, 0, 0, 0,
            ]
        )
    );
}

#[test]
fn squares_are_clipped_to_the_canvas() {
    let canvas = plane(3, 3, vec![0; 9]);
    assert_eq!(
        reconstruct_impl(&canvas, &vec![(0, 0)]),
        plane(3, 3, vec![255, 255, 0, 255, 255, 0, 0, 0, 0])
    );
    assert_eq!(
        reconstruct_impl(&canvas, &vec![(3, 3)]),
        plane(3, 3, vec![0, 0, 0, 0, 0, 0, 0, 0, 255])
    );
    assert_eq!(reconstruct_impl(&canvas, &vec![(-2, 1)]), canvas);
    assert_eq!(reconstruct_impl(&canvas, &vec![(4, 4)]), canvas);
    assert_eq!(reconstruct_impl(&canvas, &vec![(i32::MAX, i32::MIN)]), canvas);
    assert_eq!(reconstruct_impl(&canvas, &vec![(i32::MIN, i32::MAX)]), canvas);
}

#[test]
fn drawing_ignores_what_the_canvas_held() {
    let canvas = plane(2, 2, vec![9, 9, 9, 9]);
    assert_eq!(reconstruct_impl(&canvas, &Vec::new()), plane(2, 2, vec![0; 4]));
}

#[test]
fn squares_of_several_points_overlap() {
    let canvas = plane(5, 1, vec![0; 5]);
    assert_eq!(
        reconstruct_impl(&canvas, &vec![(0, 0), (2, 0), (2, 0)]),
        plane(5, 1, vec![255, 255, 255, 255, 0])
    );
}

#[test]
fn reconstruct_shows_the_boundary_dark_on_light() {
    let img = gray(3, 3, vec![1; 9]);
    assert_eq!(
        reconstruct(&img, &vec![(0, 0)]),
        gray(3, 3, vec![0, 0, 255, 0, 0, 255, 255, 255, 255])
    );
    assert_eq!(reconstruct(&img, &Vec::new()), gray(3, 3, vec![255; 9]));
}

#[test]
fn reconstruct_takes_its_size_from_the_image() {
    let img = Image::Rgb(Raster::new(4, 2, Rgb::black()));
    let out = reconstruct(&img, &vec![(1, 1)]);
    assert_eq!(out, gray(4, 2, vec![0, 0, 0, 255, 0, 0, 0, 255]));
}

#[test]
fn try_largest_contour_accepts_ordinary_images() {
    let img = gray(3, 3, vec![100, 100, 100, 100, 200, 100, 100, 100, 100]);
    assert_eq!(raster_engine::fourier_desc::try_largest_contour(&img), Some(vec![(1, 1)]));
}

#[test]
fn try_largest_contour_refuses_what_cannot_be_traced() {
    let wide: GrayImage = Raster::new(u32::MAX, 0, 0u8);
    assert_eq!(raster_engine::fourier_desc::try_largest_contour(&Image::Gray(wide)), None);
}
