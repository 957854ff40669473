//! The integer stages of Fourier-descriptor contour reconstruction: extracting the longest
//! boundary of a binarized image, choosing the band of descriptors to drop, and rendering
//! the reconstructed boundary.
//!
//! The spectral stage between extraction and rendering works on complex samples and lives
//! with the caller; this module fixes everything around it.

use vstd::prelude::*;
use crate::color::{inverted, invert};
use crate::raster::{
    GrayImage, Grid, Image, ImageModel, Raster, area, lemma_flat_index, lemma_row_start,
    lemma_split_index,
};

verus! {

/// The level at which an image is binarized before its boundaries are traced.
pub const BINARIZE_LEVEL: u8 = 128;

/// The binarization of a pixel sequence: a pixel at or below `level` becomes 0, any other
/// becomes 255.
pub open spec fn thresholded(pixels: Seq<u8>, level: u8) -> Seq<u8> {
    Seq::new(
        pixels.len(),
        |i: int|
            if pixels[i] <= level {
                0u8
            } else {
                255u8
            },
    )
}

/// What boundary tracing finds in a luminance image, given by its dimensions and its pixels
/// in row-major order: the boundaries in the order found, each a sequence of `(x, y)` points.
pub uninterp spec fn traced_contours(width: nat, height: nat, pixels: Seq<u8>) -> Seq<
    Seq<(i32, i32)>,
>;

/// The point sequences of a list of contours.
pub open spec fn contour_rows(contours: Seq<Vec<(i32, i32)>>) -> Seq<Seq<(i32, i32)>> {
    Seq::new(contours.len(), |i: int| contours[i]@)
}

/// Calls `imageproc::contrast::threshold` on a luminance image given as a row-major buffer
/// of one byte per pixel.
///
/// Taken on trust, not proved: pixels with intensity at or below `level` become 0, all
/// others 255, as that function documents.
#[verifier::external_body]
fn threshold(width: u32, height: u32, pixels: Vec<u8>, level: u8) -> (out: Vec<u8>)
    requires
        pixels@.len() == width * height,
    ensures
        out@ == thresholded(pixels@, level),
{
    let img = image::GrayImage::from_raw(width, height, pixels).unwrap();
    imageproc::contrast::threshold(&img, level).into_raw()
}

/// Calls `imageproc::contours::find_contours` with `i32` coordinates on a luminance image
/// given as a row-major buffer of one byte per pixel. That function follows the borders of
/// the regions of non-zero pixels and returns them in the order found; here each point is
/// handed out as an `(x, y)` pair.
///
/// Taken on trust, not proved: the result depends on the arguments alone, which gives it
/// the name [`traced_contours`]. The tracer numbers borders and casts coordinates in 32-bit
/// signed integers, so both dimensions and the pixel count must stay below `i32::MAX`.
#[verifier::external_body]
fn find_contours(width: u32, height: u32, pixels: Vec<u8>) -> (contours: Vec<Vec<(i32, i32)>>)
    requires
        pixels@.len() == width * height,
        width <= i32::MAX,
        height <= i32::MAX,
        width * height < i32::MAX,
    ensures
        contour_rows(contours@) == traced_contours(width as nat, height as nat, pixels@),
{
    let img = image::GrayImage::from_raw(width, height, pixels).unwrap();
    imageproc::contours::find_contours::<i32>(&img)
        .into_iter()
        .map(|c| c.points.into_iter().map(|p| (p.x, p.y)).collect())
        .collect()
}

/// Whether contour `i` is the one to reconstruct: no contour has more points, and every
/// later contour has fewer.
pub open spec fn is_last_largest(rows: Seq<Seq<(i32, i32)>>, i: int) -> bool {
    &&& 0 <= i < rows.len()
    &&& forall|j: int| 0 <= j < rows.len() ==> (#[trigger] rows[j]).len() <= rows[i].len()
    &&& forall|j: int| i < j < rows.len() ==> (#[trigger] rows[j]).len() < rows[i].len()
}

/// At most one contour is the last largest.
pub proof fn lemma_last_largest_unique(rows: Seq<Seq<(i32, i32)>>, i: int, j: int)
    requires
        is_last_largest(rows, i),
        is_last_largest(rows, j),
    ensures
        i == j,
{
    if i < j {
        assert(rows[j].len() < rows[i].len());
        assert(rows[i].len() <= rows[j].len());
    } else if j < i {
        assert(rows[i].len() < rows[j].len());
        assert(rows[j].len() <= rows[i].len());
    }
}

/// The contour with the most points, the last of them where several have as many; no points
/// at all where there is no contour.
pub open spec fn largest_of(rows: Seq<Seq<(i32, i32)>>) -> Seq<(i32, i32)> {
    if rows.len() == 0 {
        Seq::empty()
    } else {
        rows[choose|i: int| is_last_largest(rows, i)]
    }
}

/// Picks the contour with the most points, the last of them where several have as many.
/// There is none to pick exactly when the list is empty.
pub fn select_largest(contours: &Vec<Vec<(i32, i32)>>) -> (best: Option<usize>)
    ensures
        best is None <==> contours@.len() == 0,
        best matches Some(i) ==> is_last_largest(contour_rows(contours@), i as int)
            && contours@[i as int]@ == largest_of(contour_rows(contours@)),
{
    let ghost rows = contour_rows(contours@);
    let mut best: Option<usize> = None;
    let mut k: usize = 0;
    while k < contours.len()
        invariant
            rows == contour_rows(contours@),
            k <= contours@.len(),
            best is None <==> k == 0,
            best matches Some(i) ==> {
                &&& i < k
                &&& forall|j: int| 0 <= j < k ==> (#[trigger] rows[j]).len() <= rows[i as int].len()
                &&& forall|j: int| i < j < k ==> (#[trigger] rows[j]).len() < rows[i as int].len()
            },
        decreases contours@.len() - k,
    {
        assert(rows[k as int] == contours@[k as int]@);
        match best {
            None => {
                best = Some(k);
            },
            Some(i) => {
                assert(rows[i as int] == contours@[i as int]@);
                if contours[k].len() >= contours[i].len() {
                    best = Some(k);
                }
            },
        }
        k += 1;
    }
    proof {
        if let Some(i) = best {
            assert(is_last_largest(rows, i as int));
            let c = choose|c: int| is_last_largest(rows, c);
            lemma_last_largest_unique(rows, i as int, c);
        }
    }
    best
}

/// The longest boundary of the luminance of an image after binarization at
/// [`BINARIZE_LEVEL`]; no points where the binarized image has no boundary.
///
/// The boundary tracer counts in 32-bit signed integers: both dimensions and the pixel
/// count must stay below `i32::MAX`.
pub fn largest_contour(img: &Image) -> (points: Vec<(i32, i32)>)
    requires
        traceable(img@),
    ensures
        points@ == largest_of(
            traced_contours(
                img@.width(),
                img@.height(),
                thresholded(img@.to_luma().cells, BINARIZE_LEVEL),
            ),
        ),
{
    let gray = img.to_luma8();
    let width = gray.width();
    let height = gray.height();
    proof {
        use_type_invariant(&gray);
    }
    let binary = threshold(width, height, gray.into_raw(), BINARIZE_LEVEL);
    let contours = find_contours(width, height, binary);
    match select_largest(&contours) {
        None => Vec::new(),
        Some(i) => {
            let src = &contours[i];
            let mut points: Vec<(i32, i32)> = Vec::new();
            let mut k: usize = 0;
            while k < src.len()
                invariant
                    k <= src@.len(),
                    points@.len() == k,
                    forall|j: int| 0 <= j < k ==> points@[j] == src@[j],
                decreases src@.len() - k,
            {
                points.push(src[k]);
                k += 1;
            }
            assert(points@ =~= src@);
            points
        },
    }
}

/// Whether an image is small enough for boundary tracing: both dimensions and the pixel
/// count stay below `i32::MAX`.
pub open spec fn traceable(img: ImageModel) -> bool {
    img.width() <= i32::MAX && img.height() <= i32::MAX && img.width() * img.height() < i32::MAX
}

/// The longest boundary of an image, if the image is small enough for boundary tracing:
/// `None` exactly when it is not.
pub fn try_largest_contour(img: &Image) -> (points: Option<Vec<(i32, i32)>>)
    ensures
        points is Some <==> traceable(img@),
        points matches Some(found) ==> found@ == largest_of(
            traced_contours(
                img@.width(),
                img@.height(),
                thresholded(img@.to_luma().cells, BINARIZE_LEVEL),
            ),
        ),
{
    let width = img.width();
    let height = img.height();
    if width <= i32::MAX as u32 && height <= i32::MAX as u32 && area(width, height)
        < i32::MAX as u64 {
        Some(largest_contour(img))
    } else {
        None
    }
}

/// The smallest axis-aligned box around a set of points.
#[derive(Clone, Copy, Debug, PartialEq, Eq, Structural)]
pub struct Bounds {
    pub min_x: i32,
    pub min_y: i32,
    pub max_x: i32,
    pub max_y: i32,
}

/// Whether `b` is the bounding box of `points`: every point lies within it, and each of its
/// four sides touches a point.
pub open spec fn is_bounding_box(points: Seq<(i32, i32)>, b: Bounds) -> bool {
    &&& forall|i: int|
        0 <= i < points.len() ==> b.min_x <= (#[trigger] points[i]).0 <= b.max_x && b.min_y
            <= points[i].1 <= b.max_y
    &&& exists|i: int| 0 <= i < points.len() && (#[trigger] points[i]).0 == b.min_x
    &&& exists|i: int| 0 <= i < points.len() && (#[trigger] points[i]).0 == b.max_x
    &&& exists|i: int| 0 <= i < points.len() && (#[trigger] points[i]).1 == b.min_y
    &&& exists|i: int| 0 <= i < points.len() && (#[trigger] points[i]).1 == b.max_y
}

/// The bounding box of a contour; `None` exactly when it has no points.
pub fn bounding_box(points: &Vec<(i32, i32)>) -> (bounds: Option<Bounds>)
    ensures
        bounds is None <==> points@.len() == 0,
        bounds matches Some(b) ==> is_bounding_box(points@, b),
{
    if points.len() == 0 {
        return None;
    }
    let first = points[0];
    let mut b = Bounds { min_x: first.0, min_y: first.1, max_x: first.0, max_y: first.1 };
    let mut k: usize = 1;
    assert(points@.take(1)[0] == first);
    while k < points.len()
        invariant
            1 <= k <= points@.len(),
            is_bounding_box(points@.take(k as int), b),
        decreases points@.len() - k,
    {
        let p = points[k];
        let ghost before = points@.take(k as int);
        let ghost after = points@.take(k + 1);
        let ghost old_b = b;
        if p.0 < b.min_x {
            b.min_x = p.0;
        }
        if p.0 > b.max_x {
            b.max_x = p.0;
        }
        if p.1 < b.min_y {
            b.min_y = p.1;
        }
        if p.1 > b.max_y {
            b.max_y = p.1;
        }
        proof {
            assert(after[k as int] == p);
            assert forall|i: int| 0 <= i < after.len() implies b.min_x <= (#[trigger] after[i]).0
                <= b.max_x && b.min_y <= after[i].1 <= b.max_y by {
                if i < k {
                    assert(after[i] == before[i]);
                }
            }
            let ix0 = choose|i: int|
                0 <= i < before.len() && (#[trigger] before[i]).0 == old_b.min_x;
            let ix1 = choose|i: int|
                0 <= i < before.len() && (#[trigger] before[i]).0 == old_b.max_x;
            let iy0 = choose|i: int|
                0 <= i < before.len() && (#[trigger] before[i]).1 == old_b.min_y;
            let iy1 = choose|i: int|
                0 <= i < before.len() && (#[trigger] before[i]).1 == old_b.max_y;
            assert(after[ix0] == before[ix0] && after[ix1] == before[ix1]);
            assert(after[iy0] == before[iy0] && after[iy1] == before[iy1]);
            let jx0 = if p.0 < old_b.min_x { k as int } else { ix0 };
            let jx1 = if p.0 > old_b.max_x { k as int } else { ix1 };
            let jy0 = if p.1 < old_b.min_y { k as int } else { iy0 };
            let jy1 = if p.1 > old_b.max_y { k as int } else { iy1 };
            assert(after[jx0].0 == b.min_x);
            assert(after[jx1].0 == b.max_x);
            assert(after[jy0].1 == b.min_y);
            assert(after[jy1].1 == b.max_y);
        }
        k += 1;
    }
    proof {
        assert(points@.take(k as int) =~= points@);
    }
    Some(b)
}

/// The descriptors that survive truncation to `n` terms: where the sequence is longer than
/// `n`, the contiguous middle block of `len - n` entries starting at `n / 2` is replaced by
/// `zero`; a sequence of at most `n` entries stays as it is.
pub open spec fn truncated<T>(fd: Seq<T>, n: int, zero: T) -> Seq<T> {
    if n >= fd.len() {
        fd
    } else {
        Seq::new(
            fd.len(),
            |i: int|
                if n / 2 <= i < n / 2 + fd.len() - n {
                    zero
                } else {
                    fd[i]
                },
        )
    }
}

/// Keeps the `n` lowest-frequency entries of an unshifted spectrum and replaces the middle
/// block, the high frequencies, by `zero`. With `n` at least the length nothing is dropped.
pub fn truncate_fft<T: Copy>(fft: &Vec<T>, n: usize, zero: T) -> (out: Vec<T>)
    ensures
        out@ == truncated(fft@, n as int, zero),
{
    let len = fft.len();
    let keep_all = n >= len;
    let l = n / 2;
    let r = if keep_all {
        l
    } else {
        l + (len - n)
    };
    let mut out: Vec<T> = Vec::new();
    let mut i: usize = 0;
    while i < len
        invariant
            len == fft@.len(),
            keep_all == (n >= len),
            l == n / 2,
            !keep_all ==> r == l + len - n,
            i <= len,
            out@.len() == i,
            forall|k: int| 0 <= k < i ==> out@[k] == truncated(fft@, n as int, zero)[k],
        decreases len - i,
    {
        if !keep_all && l <= i && i < r {
            out.push(zero);
        } else {
            out.push(fft[i]);
        }
        i += 1;
    }
    assert(out@ =~= truncated(fft@, n as int, zero));
    out
}

/// Whether the 3 x 3 square stamped at `p` covers `(x, y)`.
pub open spec fn covers(p: (i32, i32), x: int, y: int) -> bool {
    p.0 - 1 <= x <= p.0 + 1 && p.1 - 1 <= y <= p.1 + 1
}

/// Whether one of the first `n` points covers `(x, y)`.
pub open spec fn covered(points: Seq<(i32, i32)>, n: int, x: int, y: int) -> bool {
    exists|i: int| 0 <= i < n && covers(#[trigger] points[i], x, y)
}

/// The rendering of a point sequence on a black canvas: white wherever the 3 x 3 square
/// around one of the points reaches, black elsewhere.
pub open spec fn stamped(width: nat, height: nat, points: Seq<(i32, i32)>) -> Grid<u8> {
    Grid::from_fn(
        width,
        height,
        |x: int, y: int|
            if covered(points, points.len() as int, x, y) {
                255u8
            } else {
                0u8
            },
    )
}

/// Paints the canvas pixel at `(x, y)` white, if there is one.
fn paint(data: &mut Vec<u8>, width: u32, height: u32, x: i64, y: i64)
    requires
        old(data)@.len() == width * height,
    ensures
        final(data)@.len() == old(data)@.len(),
        forall|c: int|
            0 <= c < old(data)@.len() ==> #[trigger] final(data)@[c] == (if c % (width as int)
                == x && c / (width as int) == y {
                255u8
            } else {
                old(data)@[c]
            }),
{
    if 0 <= x && x < width as i64 && 0 <= y && y < height as i64 {
        proof {
            lemma_flat_index(x as int, y as int, width as int, height as int);
            lemma_row_start(y as int, width as int);
        }
        let len = data.len();
        let i = (y as usize) * (width as usize) + (x as usize);
        data.set(i, 255);
        proof {
            assert forall|c: int| 0 <= c < old(data)@.len() implies #[trigger] data@[c] == (if c
                % (width as int) == x && c / (width as int) == y {
                255u8
            } else {
                old(data)@[c]
            }) by {
                lemma_split_index(c, width as int, height as int);
            }
        }
    } else {
        proof {
            assert forall|c: int| 0 <= c < old(data)@.len() implies #[trigger] data@[c] == (if c
                % (width as int) == x && c / (width as int) == y {
                255u8
            } else {
                old(data)@[c]
            }) by {
                lemma_split_index(c, width as int, height as int);
            }
        }
    }
}

/// Paints the 3 x 3 square around `p` white, as far as it lies on the canvas.
fn stamp_square(data: &mut Vec<u8>, width: u32, height: u32, p: (i32, i32))
    requires
        old(data)@.len() == width * height,
    ensures
        final(data)@.len() == old(data)@.len(),
        forall|c: int|
            0 <= c < old(data)@.len() ==> #[trigger] final(data)@[c] == (if covers(
                p,
                c % (width as int),
                c / (width as int),
            ) {
                255u8
            } else {
                old(data)@[c]
            }),
{
    let x = p.0 as i64;
    let y = p.1 as i64;
    paint(data, width, height, x - 1, y - 1);
    paint(data, width, height, x, y - 1);
    paint(data, width, height, x + 1, y - 1);
    paint(data, width, height, x - 1, y);
    paint(data, width, height, x, y);
    paint(data, width, height, x + 1, y);
    paint(data, width, height, x - 1, y + 1);
    paint(data, width, height, x, y + 1);
    paint(data, width, height, x + 1, y + 1);
}

/// Draws a reconstructed boundary: on a black canvas the size of `img`, a filled white
/// 3 x 3 square around every point, clipped to the canvas.
pub fn reconstruct_impl(img: &GrayImage, points: &Vec<(i32, i32)>) -> (out: GrayImage)
    ensures
        out@ == stamped(img@.width, img@.height, points@),
{
    let width = img.width();
    let height = img.height();
    let blank = Raster::new(width, height, 0u8);
    proof {
        use_type_invariant(&blank);
    }
    let mut data = blank.into_raw();
    let mut k: usize = 0;
    while k < points.len()
        invariant
            k <= points@.len(),
            data@.len() == width * height,
            forall|c: int|
                0 <= c < data@.len() ==> #[trigger] data@[c] == (if covered(
                    points@,
                    k as int,
                    c % (width as int),
                    c / (width as int),
                ) {
                    255u8
                } else {
                    0u8
                }),
        decreases points@.len() - k,
    {
        let ghost before = data@;
        stamp_square(&mut data, width, height, points[k]);
        proof {
            assert forall|c: int| 0 <= c < data@.len() implies #[trigger] data@[c] == (if covered(
                points@,
                k + 1,
                c % (width as int),
                c / (width as int),
            ) {
                255u8
            } else {
                0u8
            }) by {
                let x = c % (width as int);
                let y = c / (width as int);
                assert(before[c] == (if covered(points@, k as int, x, y) {
                    255u8
                } else {
                    0u8
                }));
                if covers(points@[k as int], x, y) {
                    assert(covered(points@, k + 1, x, y));
                } else if covered(points@, k as int, x, y) {
                    let i = choose|i: int| 0 <= i < k && covers(#[trigger] points@[i], x, y);
                    assert(0 <= i < k + 1 && covers(points@[i], x, y));
                } else {
                    if covered(points@, k + 1, x, y) {
                        let i = choose|i: int|
                            0 <= i < k + 1 && covers(#[trigger] points@[i], x, y);
                        assert(i < k);
                        assert(false);
                    }
                }
            }
        }
        k += 1;
    }
    proof {
        assert(data@ =~= stamped(width as nat, height as nat, points@).cells);
    }
    Raster::from_vec(width, height, data)
}

/// Renders a reconstructed boundary dark on a light ground: the points are drawn as white
/// 3 x 3 squares on a black canvas the size of `img`, and the canvas is inverted.
pub fn reconstruct(img: &Image, points: &Vec<(i32, i32)>) -> (out: Image)
    ensures
        out@ == inverted(ImageModel::Gray(stamped(img@.width(), img@.height(), points@))),
{
    let canvas = Raster::new(img.width(), img.height(), 0u8);
    invert(Image::Gray(reconstruct_impl(&canvas, points)))
}

} // verus!
