//! Spatial filters: smoothing by mean and median, gradient and Laplacian kernels, and
//! sharpening by adding an edge map back onto the image.
//!
//! Every filter works on the luminance of its input and samples outside the image as zero.

use vstd::prelude::*;
use vstd::relations::{sorted_by, total_ordering};
use vstd::seq_lib::lemma_sorted_unique;
use crate::binary_op::{
    ArithmeticOp, apply_binary_arithmetic, combined, lemma_add_black_is_identity,
};
use crate::raster::{
    GrayImage, Grid, Image, ImageModel, Raster, Rgb, lemma_flat_index, lemma_from_fn_at,
    lemma_from_fn_unique, lemma_from_fn_wf,
};
use crate::text::text_eq;
use crate::utils::{
    apply_kernel_i32_gray, convolved, convolved_at, kernel_is_wide_enough, kernel_row_sum,
    kernel_rows, kernel_sum, kernel_term,
};

verus! {

/// The half-width of the window of a filter of the given size.
pub open spec fn window_offset(kernel_size: u32) -> int {
    kernel_size as int / 2
}

/// The zero-filled sample at position `(s, t)` of the window around `(x, y)`.
pub open spec fn window_sample(g: Grid<u8>, x: int, y: int, offset: int, s: int, t: int) -> u8 {
    g.at_or(x - offset + s, y - offset + t, 0u8)
}

/// The samples of the square window of half-width `offset` around `(x, y)`: all
/// `(2 * offset + 1)^2` of them.
pub open spec fn window_values(g: Grid<u8>, x: int, y: int, offset: int) -> Seq<u8> {
    let side = 2 * offset + 1;
    Seq::new((side * side) as nat, |c: int| window_sample(g, x, y, offset, c / side, c % side))
}

/// The sum of a sequence of samples.
pub open spec fn sample_sum(s: Seq<u8>) -> int
    decreases s.len(),
{
    if s.len() == 0 {
        0
    } else {
        sample_sum(s.drop_last()) + s.last()
    }
}

/// The integer average of the window around `(x, y)`.
pub open spec fn mean_at(g: Grid<u8>, x: int, y: int, offset: int) -> u8 {
    let window = window_values(g, x, y, offset);
    (sample_sum(window) / (window.len() as int)) as u8
}

/// The middle element of the sorted window around `(x, y)`.
pub open spec fn median_at(g: Grid<u8>, x: int, y: int, offset: int) -> u8 {
    let window = window_values(g, x, y, offset);
    window.sort_by(|a: u8, b: u8| a <= b)[window.len() as int / 2]
}

/// The mean-filtered image.
pub open spec fn mean_filtered(g: Grid<u8>, kernel_size: u32) -> Grid<u8> {
    Grid::from_fn(g.width, g.height, |x: int, y: int| mean_at(g, x, y, window_offset(kernel_size)))
}

/// The median-filtered image.
pub open spec fn median_filtered(g: Grid<u8>, kernel_size: u32) -> Grid<u8> {
    Grid::from_fn(
        g.width,
        g.height,
        |x: int, y: int| median_at(g, x, y, window_offset(kernel_size)),
    )
}

/// The sum of a prefix grows by the next sample.
proof fn lemma_sample_sum_step(s: Seq<u8>, c: int)
    requires
        0 <= c < s.len(),
    ensures
        sample_sum(s.take(c + 1)) == sample_sum(s.take(c)) + s[c],
{
    assert(s.take(c + 1).drop_last() =~= s.take(c));
}

/// The mean of the window around `(x, y)`.
fn window_mean(img: &GrayImage, x: u32, y: u32, offset: u32) -> (v: u8)
    requires
        offset <= 0x7FFF_FFFF,
    ensures
        v == mean_at(img@, x as int, y as int, offset as int),
{
    let side: u64 = 2 * (offset as u64) + 1;
    let ghost window = window_values(img@, x as int, y as int, offset as int);
    proof {
        assert(side * side <= 0xFFFF_FFFF * 0xFFFF_FFFF) by (nonlinear_arith)
            requires
                0 <= side <= 0xFFFF_FFFF,
        ;
        assert(side * side >= 1) by (nonlinear_arith)
            requires
                side >= 1,
        ;
    }
    let mut sum: u128 = 0;
    let mut count: u64 = 0;
    let mut s: u64 = 0;
    while s < side
        invariant
            side == 2 * offset + 1,
            window == window_values(img@, x as int, y as int, offset as int),
            window.len() == side * side,
            side * side <= 0xFFFF_FFFF * 0xFFFF_FFFF,
            s <= side,
            count == s * side,
            sum == sample_sum(window.take(count as int)),
            sum <= 255 * count,
        decreases side - s,
    {
        proof {
            assert(s * side + side <= side * side) by (nonlinear_arith)
                requires
                    0 <= s < side,
            ;
        }
        let mut t: u64 = 0;
        while t < side
            invariant
                side == 2 * offset + 1,
                window == window_values(img@, x as int, y as int, offset as int),
                window.len() == side * side,
                side * side <= 0xFFFF_FFFF * 0xFFFF_FFFF,
                s < side,
                s * side + side <= side * side,
                t <= side,
                count == s * side + t,
                sum == sample_sum(window.take(count as int)),
                sum <= 255 * count,
            decreases side - t,
        {
            let v = img.pixel_or(
                x as i64 - offset as i64 + s as i64,
                y as i64 - offset as i64 + t as i64,
                0,
            );
            proof {
                lemma_flat_index(t as int, s as int, side as int, side as int);
                lemma_sample_sum_step(window, count as int);
            }
            sum = sum + v as u128;
            count = count + 1;
            t += 1;
        }
        proof {
            assert((s + 1) * side == s * side + side) by (nonlinear_arith);
        }
        s += 1;
    }
    proof {
        assert(window.take(count as int) =~= window);
        assert(sum / (count as u128) <= 255) by (nonlinear_arith)
            requires
                sum <= 255 * count,
                count >= 1,
        ;
    }
    (sum / (count as u128)) as u8
}

/// Replaces every pixel by the integer average of the square window around it. The window
/// reaches `kernel_size / 2` pixels to every side; samples outside the image count as zero.
pub fn mean_filter(img: &GrayImage, kernel_size: u32) -> (out: GrayImage)
    ensures
        out@ == mean_filtered(img@, kernel_size),
{
    let width = img.width();
    let height = img.height();
    let offset = kernel_size / 2;
    let mut data: Vec<u8> = Vec::new();
    let mut y: u32 = 0;
    while y < height
        invariant
            width == img@.width,
            height == img@.height,
            offset == window_offset(kernel_size),
            y <= height,
            data@.len() == y * width,
            forall|c: int|
                0 <= c < data@.len() ==> data@[c] == mean_at(
                    img@,
                    c % (width as int),
                    c / (width as int),
                    offset as int,
                ),
        decreases height - y,
    {
        let mut x: u32 = 0;
        while x < width
            invariant
                width == img@.width,
                height == img@.height,
                offset == window_offset(kernel_size),
                y < height,
                x <= width,
                data@.len() == y * width + x,
                forall|c: int|
                    0 <= c < data@.len() ==> data@[c] == mean_at(
                        img@,
                        c % (width as int),
                        c / (width as int),
                        offset as int,
                    ),
            decreases width - x,
        {
            let v = window_mean(img, x, y, offset);
            proof {
                lemma_flat_index(x as int, y as int, width as int, height as int);
            }
            data.push(v);
            x += 1;
        }
        proof {
            assert((y + 1) * width == y * width + width) by (nonlinear_arith);
        }
        y += 1;
    }
    proof {
        assert(height * width == width * height) by (nonlinear_arith);
        assert(data@ =~= mean_filtered(img@, kernel_size).cells);
    }
    Raster::from_vec(width, height, data)
}

/// Calls `slice::sort_unstable` on a vector of bytes.
///
/// Taken on trust, not proved: afterwards the vector holds the same bytes, each as often as
/// before, in ascending order.
#[verifier::external_body]
fn sort_samples(samples: &mut Vec<u8>)
    ensures
        final(samples)@.to_multiset() == old(samples)@.to_multiset(),
        sorted_by(final(samples)@, |a: u8, b: u8| a <= b),
{
    samples.sort_unstable();
}

/// The median of the window around `(x, y)`, using `window` as scratch space.
fn window_median(img: &GrayImage, x: u32, y: u32, offset: u32, window: &mut Vec<u8>) -> (v: u8)
    requires
        offset <= 0x7FFF_FFFF,
    ensures
        v == median_at(img@, x as int, y as int, offset as int),
{
    let side: u64 = 2 * (offset as u64) + 1;
    let ghost values = window_values(img@, x as int, y as int, offset as int);
    proof {
        assert(side * side <= 0xFFFF_FFFF * 0xFFFF_FFFF) by (nonlinear_arith)
            requires
                0 <= side <= 0xFFFF_FFFF,
        ;
        assert(side * side >= 1) by (nonlinear_arith)
            requires
                side >= 1,
        ;
    }
    window.clear();
    let mut s: u64 = 0;
    while s < side
        invariant
            side == 2 * offset + 1,
            values == window_values(img@, x as int, y as int, offset as int),
            values.len() == side * side,
            s <= side,
            window@.len() == s * side,
            forall|c: int| 0 <= c < window@.len() ==> window@[c] == values[c],
        decreases side - s,
    {
        proof {
            assert(s * side + side <= side * side) by (nonlinear_arith)
                requires
                    0 <= s < side,
            ;
        }
        let mut t: u64 = 0;
        while t < side
            invariant
                side == 2 * offset + 1,
                values == window_values(img@, x as int, y as int, offset as int),
                values.len() == side * side,
                s < side,
                s * side + side <= side * side,
                t <= side,
                window@.len() == s * side + t,
                forall|c: int| 0 <= c < window@.len() ==> window@[c] == values[c],
            decreases side - t,
        {
            let v = img.pixel_or(
                x as i64 - offset as i64 + s as i64,
                y as i64 - offset as i64 + t as i64,
                0,
            );
            proof {
                lemma_flat_index(t as int, s as int, side as int, side as int);
            }
            window.push(v);
            t += 1;
        }
        proof {
            assert((s + 1) * side == s * side + side) by (nonlinear_arith);
        }
        s += 1;
    }
    assert(window@ =~= values);
    sort_samples(window);
    proof {
        let leq = |a: u8, b: u8| a <= b;
        assert(total_ordering(leq));
        values.lemma_sort_by_ensures(leq);
        lemma_sorted_unique(window@, values.sort_by(leq), leq);
        values.to_multiset_ensures();
        window@.to_multiset_ensures();
    }
    window[window.len() / 2]
}

/// Replaces every pixel by the median of the square window around it: the middle element
/// of the sorted window. The window reaches `kernel_size / 2` pixels to every side; samples
/// outside the image count as zero.
pub fn median_filter(img: &GrayImage, kernel_size: u32) -> (out: GrayImage)
    ensures
        out@ == median_filtered(img@, kernel_size),
{
    let width = img.width();
    let height = img.height();
    let offset = kernel_size / 2;
    let mut window: Vec<u8> = Vec::new();
    let mut data: Vec<u8> = Vec::new();
    let mut y: u32 = 0;
    while y < height
        invariant
            width == img@.width,
            height == img@.height,
            offset == window_offset(kernel_size),
            y <= height,
            data@.len() == y * width,
            forall|c: int|
                0 <= c < data@.len() ==> data@[c] == median_at(
                    img@,
                    c % (width as int),
                    c / (width as int),
                    offset as int,
                ),
        decreases height - y,
    {
        let mut x: u32 = 0;
        while x < width
            invariant
                width == img@.width,
                height == img@.height,
                offset == window_offset(kernel_size),
                y < height,
                x <= width,
                data@.len() == y * width + x,
                forall|c: int|
                    0 <= c < data@.len() ==> data@[c] == median_at(
                        img@,
                        c % (width as int),
                        c / (width as int),
                        offset as int,
                    ),
            decreases width - x,
        {
            let v = window_median(img, x, y, offset, &mut window);
            proof {
                lemma_flat_index(x as int, y as int, width as int, height as int);
            }
            data.push(v);
            x += 1;
        }
        proof {
            assert((y + 1) * width == y * width + width) by (nonlinear_arith);
        }
        y += 1;
    }
    proof {
        assert(height * width == width * height) by (nonlinear_arith);
        assert(data@ =~= median_filtered(img@, kernel_size).cells);
    }
    Raster::from_vec(width, height, data)
}

/// Smooths the luminance of an image with a mean filter.
pub fn mean(img: &Image, kernel_size: u32) -> (out: Image)
    ensures
        out@ == ImageModel::Gray(mean_filtered(img@.to_luma(), kernel_size)),
{
    let gray = img.to_luma8();
    Image::Gray(mean_filter(&gray, kernel_size))
}

/// Smooths the luminance of an image with a median filter.
pub fn median(img: &Image, kernel_size: u32) -> (out: Image)
    ensures
        out@ == ImageModel::Gray(median_filtered(img@.to_luma(), kernel_size)),
{
    let gray = img.to_luma8();
    Image::Gray(median_filter(&gray, kernel_size))
}

/// The all-zero kernel of the given side: convolving with it is a defined no-op that
/// yields black.
pub open spec fn zero_kernel(side: nat) -> Seq<Seq<i32>> {
    Seq::new(side, |i: int| Seq::new(side, |j: int| 0i32))
}

/// The Sobel kernel for a direction: `"h"` or `"v"`; any other selector gives the zero
/// kernel.
pub open spec fn sobel_kernel(direction: Seq<char>) -> Seq<Seq<i32>> {
    if direction == "h"@ {
        seq![seq![-1i32, 0i32, 1i32], seq![-2i32, 0i32, 2i32], seq![-1i32, 0i32, 1i32]]
    } else if direction == "v"@ {
        seq![seq![-1i32, -2i32, -1i32], seq![0i32, 0i32, 0i32], seq![1i32, 2i32, 1i32]]
    } else {
        zero_kernel(3)
    }
}

/// The Prewitt kernel for a direction: `"h"` or `"v"`; any other selector gives the zero
/// kernel.
pub open spec fn prewitt_kernel(direction: Seq<char>) -> Seq<Seq<i32>> {
    if direction == "h"@ {
        seq![seq![-1i32, 0i32, 1i32], seq![-1i32, 0i32, 1i32], seq![-1i32, 0i32, 1i32]]
    } else if direction == "v"@ {
        seq![seq![-1i32, -1i32, -1i32], seq![0i32, 0i32, 0i32], seq![1i32, 1i32, 1i32]]
    } else {
        zero_kernel(3)
    }
}

/// The Roberts cross kernel for a diagonal: `"\\"` or `"/"`; any other selector gives the
/// zero kernel.
pub open spec fn roberts_kernel(direction: Seq<char>) -> Seq<Seq<i32>> {
    if direction == "\\"@ {
        seq![seq![-1i32, 0i32], seq![0i32, 1i32]]
    } else if direction == "/"@ {
        seq![seq![0i32, -1i32], seq![1i32, 0i32]]
    } else {
        zero_kernel(2)
    }
}

/// The discrete Laplacian kernel over 4 or 8 neighbours; any other count gives the zero
/// kernel.
pub open spec fn laplacian_kernel(neighbors: u8) -> Seq<Seq<i32>> {
    if neighbors == 4 {
        seq![seq![0i32, 1i32, 0i32], seq![1i32, -4i32, 1i32], seq![0i32, 1i32, 0i32]]
    } else if neighbors == 8 {
        seq![seq![1i32, 1i32, 1i32], seq![1i32, -8i32, 1i32], seq![1i32, 1i32, 1i32]]
    } else {
        zero_kernel(3)
    }
}

/// The luminance of `img` convolved with `kernel`.
pub open spec fn edge_map(img: ImageModel, kernel: Seq<Seq<i32>>) -> ImageModel {
    ImageModel::Gray(convolved(img.to_luma(), kernel))
}

/// The image with an edge map added back onto it, channel by channel and saturating.
pub open spec fn sharpened(img: ImageModel, kernel: Seq<Seq<i32>>) -> ImageModel {
    ImageModel::Rgb(combined(ArithmeticOp::Add, img.to_rgb(), edge_map(img, kernel).to_rgb()))
}

/// A kernel of three rows of three weights.
fn kernel3(r0: [i32; 3], r1: [i32; 3], r2: [i32; 3]) -> (kernel: Vec<Vec<i32>>)
    ensures
        kernel_rows(kernel@) == seq![r0@, r1@, r2@],
{
    let kernel = vec![
        vec![r0[0], r0[1], r0[2]],
        vec![r1[0], r1[1], r1[2]],
        vec![r2[0], r2[1], r2[2]],
    ];
    assert(kernel_rows(kernel@) =~~= seq![r0@, r1@, r2@]);
    kernel
}

/// A kernel of two rows of two weights.
fn kernel2(r0: [i32; 2], r1: [i32; 2]) -> (kernel: Vec<Vec<i32>>)
    ensures
        kernel_rows(kernel@) == seq![r0@, r1@],
{
    let kernel = vec![vec![r0[0], r0[1]], vec![r1[0], r1[1]]];
    assert(kernel_rows(kernel@) =~~= seq![r0@, r1@]);
    kernel
}

/// Convolves the luminance of an image with a Sobel kernel. The direction is `"h"` or
/// `"v"`; any other selector gives a black image.
pub fn sobel(img: &Image, direction: &str) -> (out: Image)
    ensures
        out@ == edge_map(img@, sobel_kernel(direction@)),
{
    let gray = img.to_luma8();
    let kernel = if text_eq(direction, "h") {
        kernel3([-1, 0, 1], [-2, 0, 2], [-1, 0, 1])
    } else if text_eq(direction, "v") {
        kernel3([-1, -2, -1], [0, 0, 0], [1, 2, 1])
    } else {
        kernel3([0, 0, 0], [0, 0, 0], [0, 0, 0])
    };
    assert(kernel_rows(kernel@) =~~= sobel_kernel(direction@));
    Image::Gray(apply_kernel_i32_gray(&gray, kernel.as_slice()))
}

/// Convolves the luminance of an image with the discrete Laplacian over 4 or 8 neighbours;
/// any other count gives a black image.
pub fn laplacian(img: &Image, neighbors: u8) -> (out: Image)
    ensures
        out@ == edge_map(img@, laplacian_kernel(neighbors)),
{
    let gray = img.to_luma8();
    let kernel = if neighbors == 4 {
        kernel3([0, 1, 0], [1, -4, 1], [0, 1, 0])
    } else if neighbors == 8 {
        kernel3([1, 1, 1], [1, -8, 1], [1, 1, 1])
    } else {
        kernel3([0, 0, 0], [0, 0, 0], [0, 0, 0])
    };
    assert(kernel_rows(kernel@) =~~= laplacian_kernel(neighbors));
    Image::Gray(apply_kernel_i32_gray(&gray, kernel.as_slice()))
}

/// Convolves the luminance of an image with a Prewitt kernel. The direction is `"h"` or
/// `"v"`; any other selector gives a black image.
pub fn prewitt(img: &Image, direction: &str) -> (out: Image)
    ensures
        out@ == edge_map(img@, prewitt_kernel(direction@)),
{
    let gray = img.to_luma8();
    let kernel = if text_eq(direction, "h") {
        kernel3([-1, 0, 1], [-1, 0, 1], [-1, 0, 1])
    } else if text_eq(direction, "v") {
        kernel3([-1, -1, -1], [0, 0, 0], [1, 1, 1])
    } else {
        kernel3([0, 0, 0], [0, 0, 0], [0, 0, 0])
    };
    assert(kernel_rows(kernel@) =~~= prewitt_kernel(direction@));
    Image::Gray(apply_kernel_i32_gray(&gray, kernel.as_slice()))
}

/// Convolves the luminance of an image with a Roberts cross kernel. The diagonal is
/// `"\\"` or `"/"`; any other selector gives a black image.
pub fn roberts(img: &Image, direction: &str) -> (out: Image)
    ensures
        out@ == edge_map(img@, roberts_kernel(direction@)),
{
    let gray = img.to_luma8();
    let kernel = if text_eq(direction, "\\") {
        kernel2([-1, 0], [0, 1])
    } else if text_eq(direction, "/") {
        kernel2([0, -1], [1, 0])
    } else {
        kernel2([0, 0], [0, 0])
    };
    assert(kernel_rows(kernel@) =~~= roberts_kernel(direction@));
    Image::Gray(apply_kernel_i32_gray(&gray, kernel.as_slice()))
}

/// Sharpens an image by adding its Sobel edge map back onto it.
pub fn sobel_sharpen(img: &Image, direction: &str) -> (out: Image)
    ensures
        out@ == sharpened(img@, sobel_kernel(direction@)),
{
    let filtered = sobel(img, direction);
    apply_binary_arithmetic(ArithmeticOp::Add, img, &filtered)
}

/// Sharpens an image by adding its Laplacian back onto it.
pub fn laplacian_sharpen(img: &Image, neighbors: u8) -> (out: Image)
    ensures
        out@ == sharpened(img@, laplacian_kernel(neighbors)),
{
    let filtered = laplacian(img, neighbors);
    apply_binary_arithmetic(ArithmeticOp::Add, img, &filtered)
}

/// Sharpens an image by adding its Prewitt edge map back onto it.
pub fn prewitt_sharpen(img: &Image, direction: &str) -> (out: Image)
    ensures
        out@ == sharpened(img@, prewitt_kernel(direction@)),
{
    let filtered = prewitt(img, direction);
    apply_binary_arithmetic(ArithmeticOp::Add, img, &filtered)
}

/// Sharpens an image by adding its Roberts edge map back onto it.
pub fn roberts_sharpen(img: &Image, direction: &str) -> (out: Image)
    ensures
        out@ == sharpened(img@, roberts_kernel(direction@)),
{
    let filtered = roberts(img, direction);
    apply_binary_arithmetic(ArithmeticOp::Add, img, &filtered)
}

/// In a flat image every zero-filled sample is the common value, or zero outside.
proof fn lemma_flat_sample(g: Grid<u8>, x: int, y: int, cx: int, cy: int)
    requires
        g.wf(),
        g.is_flat(),
        g.in_bounds(cx, cy),
    ensures
        g.at_or(x, y, 0u8) == 0 || g.at_or(x, y, 0u8) == g.at(cx, cy),
{
    lemma_flat_index(cx, cy, g.width as int, g.height as int);
    if g.in_bounds(x, y) {
        lemma_flat_index(x, y, g.width as int, g.height as int);
    }
}

/// The Laplacian of a flat image is black: inside, the neighbours cancel the centre; at the
/// border, where samples are missing, the sum is negative and is limited to zero.
pub proof fn lemma_laplacian_of_flat_is_black(g: Grid<u8>, neighbors: u8)
    requires
        g.wf(),
        g.is_flat(),
    ensures
        convolved(g, laplacian_kernel(neighbors)) == Grid::filled(g.width, g.height, 0u8),
{
    let rows = laplacian_kernel(neighbors);
    let black = Grid::filled(g.width, g.height, 0u8);
    let f = |x: int, y: int| convolved_at(g, rows, x, y);
    assert forall|x: int, y: int| black.in_bounds(x, y) implies black.at(x, y) == f(x, y) by {
        lemma_from_fn_at(g.width, g.height, |x: int, y: int| 0u8, x, y);
        lemma_flat_sample(g, x - 1, y - 1, x, y);
        lemma_flat_sample(g, x - 1, y, x, y);
        lemma_flat_sample(g, x - 1, y + 1, x, y);
        lemma_flat_sample(g, x, y - 1, x, y);
        lemma_flat_sample(g, x, y + 1, x, y);
        lemma_flat_sample(g, x + 1, y - 1, x, y);
        lemma_flat_sample(g, x + 1, y, x, y);
        lemma_flat_sample(g, x + 1, y + 1, x, y);
        let v = g.at(x, y) as int;
        let r0 = kernel_row_sum(g, rows, x, y, 0, 3);
        let r1 = kernel_row_sum(g, rows, x, y, 1, 3);
        let r2 = kernel_row_sum(g, rows, x, y, 2, 3);
        assert(rows.len() == 3 && rows[0].len() == 3 && rows[1].len() == 3 && rows[2].len() == 3);
        assert(r0 == kernel_term(g, rows, x, y, 0, 0) + kernel_term(g, rows, x, y, 0, 1)
            + kernel_term(g, rows, x, y, 0, 2)) by {
            reveal_with_fuel(kernel_row_sum, 4);
        }
        assert(r1 == kernel_term(g, rows, x, y, 1, 0) + kernel_term(g, rows, x, y, 1, 1)
            + kernel_term(g, rows, x, y, 1, 2)) by {
            reveal_with_fuel(kernel_row_sum, 4);
        }
        assert(r2 == kernel_term(g, rows, x, y, 2, 0) + kernel_term(g, rows, x, y, 2, 1)
            + kernel_term(g, rows, x, y, 2, 2)) by {
            reveal_with_fuel(kernel_row_sum, 4);
        }
        assert(kernel_sum(g, rows, x, y, 3) == r0 + r1 + r2) by {
            reveal_with_fuel(kernel_sum, 4);
        }
        assert(kernel_term(g, rows, x, y, 1, 1) == rows[1][1] * v);
        if neighbors == 4 {
            assert(rows[0][0] == 0 && rows[0][1] == 1 && rows[0][2] == 0);
            assert(rows[1][0] == 1 && rows[1][1] == -4 && rows[1][2] == 1);
            assert(rows[2][0] == 0 && rows[2][1] == 1 && rows[2][2] == 0);
            assert(r0 <= v && r2 <= v && r1 <= 2 * v - 4 * v);
        } else if neighbors == 8 {
            assert(rows[0][0] == 1 && rows[0][1] == 1 && rows[0][2] == 1);
            assert(rows[1][0] == 1 && rows[1][1] == -8 && rows[1][2] == 1);
            assert(rows[2][0] == 1 && rows[2][1] == 1 && rows[2][2] == 1);
            assert(r0 <= 3 * v && r2 <= 3 * v && r1 <= 2 * v - 8 * v);
        } else {
            assert(rows[0][0] == 0 && rows[0][1] == 0 && rows[0][2] == 0);
            assert(rows[1][0] == 0 && rows[1][1] == 0 && rows[1][2] == 0);
            assert(rows[2][0] == 0 && rows[2][1] == 0 && rows[2][2] == 0);
            assert(r0 == 0 && r1 == 0 && r2 == 0);
        }
    }
    lemma_from_fn_wf(g.width, g.height, |x: int, y: int| 0u8);
    lemma_from_fn_unique(black, f);
}

/// Laplacian sharpening leaves a flat image as it is, up to its promotion to colour: the
/// Laplacian of a constant field is zero everywhere, and adding zero changes nothing.
pub proof fn lemma_laplacian_sharpen_keeps_flat(img: ImageModel, neighbors: u8)
    requires
        img.wf(),
        img.is_flat(),
    ensures
        sharpened(img, laplacian_kernel(neighbors)) == ImageModel::Rgb(img.to_rgb()),
{
    let luma = img.to_luma();
    let colour = img.to_rgb();
    assert(luma.wf() && luma.is_flat() && colour.wf()) by {
        match img {
            ImageModel::Gray(g) => {},
            ImageModel::Rgb(c) => {
                assert forall|i: int, j: int|
                    0 <= i < luma.cells.len() && 0 <= j < luma.cells.len() implies luma.cells[i]
                    == luma.cells[j] by {
                    assert(c.cells[i] == c.cells[j]);
                }
            },
        }
    }
    lemma_laplacian_of_flat_is_black(luma, neighbors);
    let edges = edge_map(img, laplacian_kernel(neighbors));
    assert(edges.to_rgb().cells =~= Grid::filled(
        colour.width,
        colour.height,
        Rgb::black_spec(),
    ).cells);
    lemma_add_black_is_identity(colour);
}

} // verus!
