//! The integer side of frequency-domain display: the quadrant swap that moves the zero
//! frequency to the centre of a spectrum.

use vstd::prelude::*;
use vstd::arithmetic::div_mod::lemma_fundamental_div_mod_converse;
use crate::raster::{Grid, Image, ImageModel, Raster, lemma_flat_index, lemma_from_fn_at};

verus! {

/// Where index `i` of an axis of length `n` goes under the shift: `(i + n / 2) mod n`.
pub open spec fn shift_dest(i: int, n: int) -> int {
    (i + n / 2) % n
}

/// Where index `i` of an axis of length `n` comes from under the shift.
pub open spec fn shift_source(i: int, n: int) -> int {
    if i >= n / 2 {
        i - n / 2
    } else {
        i + n - n / 2
    }
}

/// The shifted grid: the cell at `(x, y)` moves to
/// `((x + width / 2) mod width, (y + height / 2) mod height)`.
pub open spec fn shifted<P>(g: Grid<P>) -> Grid<P> {
    Grid::from_fn(
        g.width,
        g.height,
        |x: int, y: int| g.at(shift_source(x, g.width as int), shift_source(y, g.height as int)),
    )
}

/// The shift is a permutation of an axis: every index has a destination in range, and the
/// source of that destination is the index itself.
pub proof fn lemma_shift_source_of_dest(i: int, n: int)
    requires
        0 <= i < n,
    ensures
        0 <= shift_dest(i, n) < n,
        shift_source(shift_dest(i, n), n) == i,
        0 <= shift_source(i, n) < n,
        shift_dest(shift_source(i, n), n) == i,
{
    let h = n / 2;
    if i + h < n {
        lemma_fundamental_div_mod_converse(i + h, n, 0, i + h);
    } else {
        lemma_fundamental_div_mod_converse(i + h, n, 1, i + h - n);
    }
    let s = shift_source(i, n);
    if s + h < n {
        lemma_fundamental_div_mod_converse(s + h, n, 0, s + h);
    } else {
        lemma_fundamental_div_mod_converse(s + h, n, 1, s + h - n);
    }
}

/// The shift moves the cell at `(x, y)` to its destination.
pub proof fn lemma_shifted_forward<P>(g: Grid<P>, x: int, y: int)
    requires
        g.in_bounds(x, y),
    ensures
        g.in_bounds(shift_dest(x, g.width as int), shift_dest(y, g.height as int)),
        shifted(g).at(shift_dest(x, g.width as int), shift_dest(y, g.height as int)) == g.at(
            x,
            y,
        ),
{
    lemma_shift_source_of_dest(x, g.width as int);
    lemma_shift_source_of_dest(y, g.height as int);
    lemma_from_fn_at(
        g.width,
        g.height,
        |x: int, y: int| g.at(shift_source(x, g.width as int), shift_source(y, g.height as int)),
        shift_dest(x, g.width as int),
        shift_dest(y, g.height as int),
    );
}

/// The index that the shift moves to index `i` of an axis of length `n`.
fn source_index(i: u32, n: u32) -> (src: u32)
    requires
        i < n,
    ensures
        src == shift_source(i as int, n as int),
        src < n,
{
    let half = n / 2;
    if i >= half {
        i - half
    } else {
        i + (n - half)
    }
}

/// Swaps the quadrants of a grid so that its first cell lands at the centre: the cell at
/// `(x, y)` moves to `((x + width / 2) mod width, (y + height / 2) mod height)`.
pub fn apply_shift_to_center<P: Copy>(img: &Raster<P>) -> (out: Raster<P>)
    ensures
        out@ == shifted(img@),
{
    let width = img.width();
    let height = img.height();
    let mut data: Vec<P> = Vec::new();
    let mut y: u32 = 0;
    while y < height
        invariant
            width == img@.width,
            height == img@.height,
            y <= height,
            data@.len() == y * width,
            forall|c: int|
                0 <= c < data@.len() ==> data@[c] == img@.at(
                    shift_source(c % (width as int), width as int),
                    shift_source(c / (width as int), height as int),
                ),
        decreases height - y,
    {
        let mut x: u32 = 0;
        while x < width
            invariant
                width == img@.width,
                height == img@.height,
                y < height,
                x <= width,
                data@.len() == y * width + x,
                forall|c: int|
                    0 <= c < data@.len() ==> data@[c] == img@.at(
                        shift_source(c % (width as int), width as int),
                        shift_source(c / (width as int), height as int),
                    ),
            decreases width - x,
        {
            let p = img.get_pixel(source_index(x, width), source_index(y, height));
            proof {
                lemma_flat_index(x as int, y as int, width as int, height as int);
            }
            data.push(p);
            x += 1;
        }
        proof {
            assert((y + 1) * width == y * width + width) by (nonlinear_arith);
        }
        y += 1;
    }
    proof {
        assert(height * width == width * height) by (nonlinear_arith);
        assert(data@ =~= shifted(img@).cells);
    }
    Raster::from_vec(width, height, data)
}

/// Swaps the quadrants of the luminance of an image.
pub fn shift_to_center(img: &Image) -> (out: Image)
    ensures
        out@ == ImageModel::Gray(shifted(img@.to_luma())),
{
    let gray = img.to_luma8();
    Image::Gray(apply_shift_to_center(&gray))
}

} // verus!
