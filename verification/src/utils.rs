//! Bounds-safe sampling and the shared convolution driver.
//!
//! Sampling outside an image yields black: near a border a window loses weight instead of
//! wrapping around or failing.

use vstd::prelude::*;
use crate::raster::{Grid, GrayImage, Raster, Rgb, RgbImage, lemma_flat_index, lemma_row_start};

verus! {

/// The largest kernel side that [`apply_kernel_i32_gray`] accepts: with it the sum of all
/// `side * side` products still fits the 64-bit accumulator.
pub const MAX_KERNEL_SIDE: usize = 4096;

/// The larger of two integers.
pub open spec fn max_int(a: int, b: int) -> int {
    if a >= b {
        a
    } else {
        b
    }
}

/// `v` limited to the range of a channel value.
pub open spec fn clamp_channel(v: int) -> u8 {
    if v < 0 {
        0u8
    } else if v > 255 {
        255u8
    } else {
        v as u8
    }
}

/// The per-axis maximum of the dimensions of two images.
pub fn max_dimensions<P: Copy>(img1: &Raster<P>, img2: &Raster<P>) -> (dims: (u32, u32))
    ensures
        dims.0 == max_int(img1@.width as int, img2@.width as int),
        dims.1 == max_int(img1@.height as int, img2@.height as int),
{
    let width = if img1.width() >= img2.width() {
        img1.width()
    } else {
        img2.width()
    };
    let height = if img1.height() >= img2.height() {
        img1.height()
    } else {
        img2.height()
    };
    (width, height)
}

/// The colour pixel at `(x, y)`, or black outside the image.
pub fn get_pixel_rgb(img: &RgbImage, x: u32, y: u32) -> (p: Rgb)
    ensures
        p == img@.at_or(x as int, y as int, Rgb::black_spec()),
{
    img.pixel_or(x as i64, y as i64, Rgb::black())
}

/// The luminance at `(x, y)`, or zero outside the image. The coordinates may be negative.
pub fn get_pixel_grayscale(img: &GrayImage, x: i32, y: i32) -> (v: u8)
    ensures
        v == img@.at_or(x as int, y as int, 0u8),
{
    img.pixel_or(x as i64, y as i64, 0)
}

/// The rows of a kernel as sequences of weights.
pub open spec fn kernel_rows(kernel: Seq<Vec<i32>>) -> Seq<Seq<i32>> {
    Seq::new(kernel.len(), |i: int| kernel[i]@)
}

/// Whether every row of the kernel holds at least as many weights as there are rows.
pub open spec fn kernel_is_wide_enough(rows: Seq<Seq<i32>>) -> bool {
    forall|i: int| 0 <= i < rows.len() ==> (#[trigger] rows[i]).len() >= rows.len()
}

/// The contribution of kernel entry `(i, j)` to the output at `(x, y)`: the weight times the
/// zero-filled sample at offset `(i - k, j - k)`, where `k` is half the kernel side.
pub open spec fn kernel_term(
    g: Grid<u8>,
    rows: Seq<Seq<i32>>,
    x: int,
    y: int,
    i: int,
    j: int,
) -> int {
    let k = rows.len() as int / 2;
    rows[i][j] * g.at_or(x + i - k, y + j - k, 0u8)
}

/// The sum of the contributions of the first `m` entries of kernel row `i`.
pub open spec fn kernel_row_sum(
    g: Grid<u8>,
    rows: Seq<Seq<i32>>,
    x: int,
    y: int,
    i: int,
    m: int,
) -> int
    decreases m,
{
    if m <= 0 {
        0
    } else {
        kernel_row_sum(g, rows, x, y, i, m - 1) + kernel_term(g, rows, x, y, i, m - 1)
    }
}

/// The sum of the contributions of the first `n` kernel rows.
pub open spec fn kernel_sum(g: Grid<u8>, rows: Seq<Seq<i32>>, x: int, y: int, n: int) -> int
    decreases n,
{
    if n <= 0 {
        0
    } else {
        kernel_sum(g, rows, x, y, n - 1) + kernel_row_sum(g, rows, x, y, n - 1, rows.len() as int)
    }
}

/// The convolved value at `(x, y)`: the weighted sum over the whole kernel window, limited
/// to `0..=255`.
pub open spec fn convolved_at(g: Grid<u8>, rows: Seq<Seq<i32>>, x: int, y: int) -> u8 {
    clamp_channel(kernel_sum(g, rows, x, y, rows.len() as int))
}

/// The convolution of `g` with a kernel.
pub open spec fn convolved(g: Grid<u8>, rows: Seq<Seq<i32>>) -> Grid<u8> {
    Grid::from_fn(g.width, g.height, |x: int, y: int| convolved_at(g, rows, x, y))
}

/// The largest magnitude of one product of a weight and a sample: `255 * 2^31`.
const MAX_TERM: i64 = 547608330240;

/// The largest magnitude of the sum of one kernel row: `MAX_KERNEL_SIDE * MAX_TERM`.
const MAX_ROW_SUM: i64 = 2243003720663040;

/// The weighted window sum at `(x, y)`.
fn kernel_sum_at(img: &GrayImage, kernel: &[Vec<i32>], x: u32, y: u32) -> (sum: i64)
    requires
        kernel@.len() <= MAX_KERNEL_SIDE,
        kernel_is_wide_enough(kernel_rows(kernel@)),
    ensures
        sum == kernel_sum(img@, kernel_rows(kernel@), x as int, y as int, kernel@.len() as int),
{
    let n = kernel.len();
    let k: i64 = (n / 2) as i64;
    let ghost rows = kernel_rows(kernel@);
    let mut sum: i64 = 0;
    let mut i: usize = 0;
    while i < n
        invariant
            n == kernel@.len(),
            n <= MAX_KERNEL_SIDE,
            k == n as int / 2,
            rows == kernel_rows(kernel@),
            kernel_is_wide_enough(rows),
            i <= n,
            sum == kernel_sum(img@, rows, x as int, y as int, i as int),
            -(i * MAX_ROW_SUM) <= sum <= i * MAX_ROW_SUM,
        decreases n - i,
    {
        let row = &kernel[i];
        assert(rows[i as int] == row@);
        let mut row_sum: i64 = 0;
        let mut j: usize = 0;
        while j < n
            invariant
                n == kernel@.len(),
                n <= MAX_KERNEL_SIDE,
                k == n as int / 2,
                rows == kernel_rows(kernel@),
                i < n,
                rows[i as int] == row@,
                row@.len() >= n,
                j <= n,
                row_sum == kernel_row_sum(img@, rows, x as int, y as int, i as int, j as int),
                -(j * MAX_TERM) <= row_sum <= j * MAX_TERM,
            decreases n - j,
        {
            let sample = img.pixel_or(x as i64 + i as i64 - k, y as i64 + j as i64 - k, 0);
            let weight = row[j];
            assert(-MAX_TERM <= weight * sample <= MAX_TERM) by (nonlinear_arith)
                requires
                    -2147483648 <= weight <= 2147483647,
                    0 <= sample <= 255,
            ;
            row_sum = row_sum + (weight as i64) * (sample as i64);
            j += 1;
        }
        sum = sum + row_sum;
        i += 1;
    }
    sum
}

/// Convolves a luminance image with an integer kernel.
///
/// The output at `(x, y)` is the sum of `kernel[i][j] * sample(x + i - k, y + j - k)` over the
/// kernel, with `k` half the kernel side and samples outside the image counted as zero; the
/// sum is limited to `0..=255`.
pub fn apply_kernel_i32_gray(img: &GrayImage, kernel: &[Vec<i32>]) -> (out: GrayImage)
    requires
        kernel@.len() <= MAX_KERNEL_SIDE,
        kernel_is_wide_enough(kernel_rows(kernel@)),
    ensures
        out@ == convolved(img@, kernel_rows(kernel@)),
{
    let width = img.width();
    let height = img.height();
    let ghost rows = kernel_rows(kernel@);
    let mut data: Vec<u8> = Vec::new();
    let mut y: u32 = 0;
    while y < height
        invariant
            width == img@.width,
            height == img@.height,
            kernel@.len() <= MAX_KERNEL_SIDE,
            rows == kernel_rows(kernel@),
            kernel_is_wide_enough(rows),
            y <= height,
            data@.len() == y * width,
            forall|c: int|
                    0 <= c < data@.len() ==> data@[c] == convolved_at(
                        img@,
                        rows,
                        c % (width as int),
                        c / (width as int),
                    ),
        decreases height - y,
    {
        let mut x: u32 = 0;
        while x < width
            invariant
                width == img@.width,
                height == img@.height,
                kernel@.len() <= MAX_KERNEL_SIDE,
                rows == kernel_rows(kernel@),
                kernel_is_wide_enough(rows),
                    y < height,
                x <= width,
                data@.len() == y * width + x,
                forall|c: int|
                    0 <= c < data@.len() ==> data@[c] == convolved_at(
                        img@,
                        rows,
                        c % (width as int),
                        c / (width as int),
                    ),
            decreases width - x,
        {
            let sum = kernel_sum_at(img, kernel, x, y);
            let v: u8 = if sum < 0 {
                0
            } else if sum > 255 {
                255
            } else {
                sum as u8
            };
            proof {
                lemma_flat_index(x as int, y as int, width as int, height as int);
            }
            data.push(v);
            x += 1;
        }
        proof {
            assert((y + 1) * width == y * width + width) by (nonlinear_arith);
        }
        y += 1;
    }
    proof {
        assert(height * width == width * height) by (nonlinear_arith);
        assert(data@ =~= convolved(img@, rows).cells);
    }
    Raster::from_vec(width, height, data)
}

} // verus!
