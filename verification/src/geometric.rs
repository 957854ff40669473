//! Geometric transforms: translation, nearest-neighbour resizing and mirroring.
//!
//! Every transform works alike on luminance and colour images and keeps the pixel format.

use vstd::prelude::*;
use crate::raster::{
    Grid, Image, ImageModel, Raster, Rgb, lemma_flat_index, lemma_from_fn_at,
    lemma_from_fn_unique,
};
use crate::text::text_eq;

verus! {

/// The image moved by `(dx, dy)`: the pixel at `(x, y)` comes from `(x - dx, y - dy)`, and is
/// `fill` where that lies outside the image.
pub open spec fn translated<P>(g: Grid<P>, dx: int, dy: int, fill: P) -> Grid<P> {
    Grid::from_fn(g.width, g.height, |x: int, y: int| g.at_or(x - dx, y - dy, fill))
}

/// The source index that nearest-neighbour resizing reads for destination index `i`, when
/// an axis of `old` pixels is resized to `new` pixels: `round((i + 1) / new * old) - 1`,
/// rounding halves up, kept within `0..old`.
pub open spec fn resize_source(i: int, new: int, old: int) -> int {
    let rounded = (2 * (i + 1) * old + new) / (2 * new);
    if rounded < 1 {
        0
    } else if rounded > old {
        old - 1
    } else {
        rounded - 1
    }
}

/// The pixel of the resized image at `(x, y)`; `fill` where the source has no pixels at all.
pub open spec fn resized_at<P>(g: Grid<P>, width: nat, height: nat, fill: P, x: int, y: int) -> P {
    if g.width == 0 || g.height == 0 {
        fill
    } else {
        g.at(
            resize_source(x, width as int, g.width as int),
            resize_source(y, height as int, g.height as int),
        )
    }
}

/// The image resized to `width x height` by nearest-neighbour sampling.
pub open spec fn resized<P>(g: Grid<P>, width: nat, height: nat, fill: P) -> Grid<P> {
    Grid::from_fn(width, height, |x: int, y: int| resized_at(g, width, height, fill, x, y))
}

/// The pixel of the mirrored image at `(x, y)`: `"x"` flips left and right, `"y"` flips top
/// and bottom, any other axis changes nothing.
pub open spec fn mirrored_at<P>(g: Grid<P>, axis: Seq<char>, x: int, y: int) -> P {
    if axis == "x"@ {
        g.at(g.width - 1 - x, y)
    } else if axis == "y"@ {
        g.at(x, g.height - 1 - y)
    } else {
        g.at(x, y)
    }
}

/// The mirrored image.
pub open spec fn mirrored<P>(g: Grid<P>, axis: Seq<char>) -> Grid<P> {
    Grid::from_fn(g.width, g.height, |x: int, y: int| mirrored_at(g, axis, x, y))
}

/// Moves an image by `(x, y)`: every pixel whose destination lies inside the image lands
/// there; what moves out is dropped, and what is uncovered becomes `fill`.
pub fn translate_impl<P: Copy>(image: &Raster<P>, x: i32, y: i32, fill: P) -> (out: Raster<P>)
    ensures
        out@ == translated(image@, x as int, y as int, fill),
{
    let width = image.width();
    let height = image.height();
    let mut data: Vec<P> = Vec::new();
    let mut row: u32 = 0;
    while row < height
        invariant
            width == image@.width,
            height == image@.height,
            row <= height,
            data@.len() == row * width,
            forall|c: int|
                0 <= c < data@.len() ==> data@[c] == image@.at_or(
                    c % (width as int) - x,
                    c / (width as int) - y,
                    fill,
                ),
        decreases height - row,
    {
        let mut col: u32 = 0;
        while col < width
            invariant
                width == image@.width,
                height == image@.height,
                row < height,
                col <= width,
                data@.len() == row * width + col,
                forall|c: int|
                    0 <= c < data@.len() ==> data@[c] == image@.at_or(
                        c % (width as int) - x,
                        c / (width as int) - y,
                        fill,
                    ),
            decreases width - col,
        {
            let p = image.pixel_or(col as i64 - x as i64, row as i64 - y as i64, fill);
            proof {
                lemma_flat_index(col as int, row as int, width as int, height as int);
            }
            data.push(p);
            col += 1;
        }
        proof {
            assert((row + 1) * width == row * width + width) by (nonlinear_arith);
        }
        row += 1;
    }
    proof {
        assert(height * width == width * height) by (nonlinear_arith);
        assert(data@ =~= translated(image@, x as int, y as int, fill).cells);
    }
    Raster::from_vec(width, height, data)
}

/// The source index for destination index `i` when `old` pixels are resized to `new`.
fn source_index(i: u32, new: u32, old: u32) -> (src: u32)
    requires
        i < new,
        old > 0,
    ensures
        src == resize_source(i as int, new as int, old as int),
        src < old,
{
    assert(2 * (i + 1) * old + new <= 2 * 0xFFFF_FFFF * 0xFFFF_FFFF + 0xFFFF_FFFF)
        by (nonlinear_arith)
        requires
            0 <= i < new,
            new <= 0xFFFF_FFFF,
            0 <= old <= 0xFFFF_FFFF,
    ;
    let rounded: u128 = (2 * (i as u128 + 1) * (old as u128) + new as u128) / (2 * (new as u128));
    if rounded < 1 {
        0
    } else if rounded > old as u128 {
        old - 1
    } else {
        (rounded - 1) as u32
    }
}

/// Resizes an image to `width x height` by nearest-neighbour sampling: the destination pixel
/// `(x, y)` reads the source at `round((x + 1) / width * old_width) - 1`, and likewise in
/// `y`, kept within the source. A source without pixels gives an image of `fill`.
pub fn resize_impl<P: Copy>(image: &Raster<P>, width: u32, height: u32, fill: P) -> (out: Raster<P>)
    ensures
        out@ == resized(image@, width as nat, height as nat, fill),
{
    let old_w = image.width();
    let old_h = image.height();
    let mut data: Vec<P> = Vec::new();
    let mut y: u32 = 0;
    while y < height
        invariant
            old_w == image@.width,
            old_h == image@.height,
            y <= height,
            data@.len() == y * width,
            forall|c: int|
                0 <= c < data@.len() ==> data@[c] == resized_at(
                    image@,
                    width as nat,
                    height as nat,
                    fill,
                    c % (width as int),
                    c / (width as int),
                ),
        decreases height - y,
    {
        let mut x: u32 = 0;
        while x < width
            invariant
                old_w == image@.width,
                old_h == image@.height,
                y < height,
                x <= width,
                data@.len() == y * width + x,
                forall|c: int|
                    0 <= c < data@.len() ==> data@[c] == resized_at(
                        image@,
                        width as nat,
                        height as nat,
                        fill,
                        c % (width as int),
                        c / (width as int),
                    ),
            decreases width - x,
        {
            let p = if old_w == 0 || old_h == 0 {
                fill
            } else {
                image.get_pixel(source_index(x, width, old_w), source_index(y, height, old_h))
            };
            proof {
                lemma_flat_index(x as int, y as int, width as int, height as int);
            }
            data.push(p);
            x += 1;
        }
        proof {
            assert((y + 1) * width == y * width + width) by (nonlinear_arith);
        }
        y += 1;
    }
    proof {
        assert(height * width == width * height) by (nonlinear_arith);
        assert(data@ =~= resized(image@, width as nat, height as nat, fill).cells);
    }
    Raster::from_vec(width, height, data)
}

/// Mirrors an image: `"x"` flips left and right, `"y"` flips top and bottom; any other axis
/// gives a copy.
pub fn mirror_impl<P: Copy>(image: &Raster<P>, axis: &str) -> (out: Raster<P>)
    ensures
        out@ == mirrored(image@, axis@),
{
    let width = image.width();
    let height = image.height();
    let flip_x = text_eq(axis, "x");
    let flip_y = !flip_x && text_eq(axis, "y");
    let mut data: Vec<P> = Vec::new();
    let mut y: u32 = 0;
    while y < height
        invariant
            width == image@.width,
            height == image@.height,
            flip_x == (axis@ == "x"@),
            flip_y == (axis@ != "x"@ && axis@ == "y"@),
            y <= height,
            data@.len() == y * width,
            forall|c: int|
                0 <= c < data@.len() ==> data@[c] == mirrored_at(
                    image@,
                    axis@,
                    c % (width as int),
                    c / (width as int),
                ),
        decreases height - y,
    {
        let mut x: u32 = 0;
        while x < width
            invariant
                width == image@.width,
                height == image@.height,
                flip_x == (axis@ == "x"@),
                flip_y == (axis@ != "x"@ && axis@ == "y"@),
                y < height,
                x <= width,
                data@.len() == y * width + x,
                forall|c: int|
                    0 <= c < data@.len() ==> data@[c] == mirrored_at(
                        image@,
                        axis@,
                        c % (width as int),
                        c / (width as int),
                    ),
            decreases width - x,
        {
            let p = if flip_x {
                image.get_pixel(width - 1 - x, y)
            } else if flip_y {
                image.get_pixel(x, height - 1 - y)
            } else {
                image.get_pixel(x, y)
            };
            proof {
                lemma_flat_index(x as int, y as int, width as int, height as int);
            }
            data.push(p);
            x += 1;
        }
        proof {
            assert((y + 1) * width == y * width + width) by (nonlinear_arith);
        }
        y += 1;
    }
    proof {
        assert(height * width == width * height) by (nonlinear_arith);
        assert(data@ =~= mirrored(image@, axis@).cells);
    }
    Raster::from_vec(width, height, data)
}

/// The image in which the pixel at `(x, y)` is read from the source coordinate listed for
/// it, in row-major order, and is `fill` where that coordinate lies outside the image.
pub open spec fn resampled<P>(g: Grid<P>, sources: Seq<(i32, i32)>, fill: P) -> Grid<P> {
    Grid {
        width: g.width,
        height: g.height,
        cells: Seq::new(
            g.cells.len(),
            |i: int| g.at_or(sources[i].0 as int, sources[i].1 as int, fill),
        ),
    }
}

/// Maps an image by inverse lookup: `sources` lists, in row-major order, the coordinate
/// that each destination pixel reads; a pixel whose source lies outside the image becomes
/// `fill`. This is how a rotation is applied once the source coordinates are known.
///
/// `None` exactly when `sources` does not list one coordinate per pixel.
pub fn resample<P: Copy>(image: &Raster<P>, sources: &Vec<(i32, i32)>, fill: P) -> (out: Option<
    Raster<P>,
>)
    ensures
        out is Some <==> sources@.len() == image@.width * image@.height,
        out matches Some(r) ==> r@ == resampled(image@, sources@, fill),
{
    let n = image.as_raw().len();
    proof {
        use_type_invariant(image);
    }
    if sources.len() != n {
        return None;
    }
    let mut data: Vec<P> = Vec::new();
    let mut i: usize = 0;
    while i < n
        invariant
            n == image@.cells.len(),
            n == sources@.len(),
            i <= n,
            data@.len() == i,
            forall|k: int|
                0 <= k < i ==> data@[k] == image@.at_or(
                    sources@[k].0 as int,
                    sources@[k].1 as int,
                    fill,
                ),
        decreases n - i,
    {
        let (x, y) = sources[i];
        data.push(image.pixel_or(x as i64, y as i64, fill));
        i += 1;
    }
    proof {
        assert(data@ =~= resampled(image@, sources@, fill).cells);
    }
    Some(Raster::from_vec(image.width(), image.height(), data))
}

/// The translation of an image of either format; black fills what is uncovered.
pub open spec fn translated_image(img: ImageModel, dx: int, dy: int) -> ImageModel {
    match img {
        ImageModel::Gray(g) => ImageModel::Gray(translated(g, dx, dy, 0u8)),
        ImageModel::Rgb(c) => ImageModel::Rgb(translated(c, dx, dy, Rgb::black_spec())),
    }
}

/// The resizing of an image of either format.
pub open spec fn resized_image(img: ImageModel, width: nat, height: nat) -> ImageModel {
    match img {
        ImageModel::Gray(g) => ImageModel::Gray(resized(g, width, height, 0u8)),
        ImageModel::Rgb(c) => ImageModel::Rgb(resized(c, width, height, Rgb::black_spec())),
    }
}

/// The mirroring of an image of either format.
pub open spec fn mirrored_image(img: ImageModel, axis: Seq<char>) -> ImageModel {
    match img {
        ImageModel::Gray(g) => ImageModel::Gray(mirrored(g, axis)),
        ImageModel::Rgb(c) => ImageModel::Rgb(mirrored(c, axis)),
    }
}

/// The value of an optional offset: zero where none is given.
pub open spec fn offset_or_zero(v: Option<i32>) -> int {
    match v {
        Some(d) => d as int,
        None => 0,
    }
}

/// The value of an optional dimension: `current` where none is given.
pub open spec fn dimension_or(v: Option<u32>, current: nat) -> nat {
    match v {
        Some(d) => d as nat,
        None => current,
    }
}

/// Moves an image by `(x, y)`, each zero where not given. Pixels that leave the image are
/// dropped; what is uncovered is black.
pub fn translate(img: Image, x: Option<i32>, y: Option<i32>) -> (out: Image)
    ensures
        out@ == translated_image(img@, offset_or_zero(x), offset_or_zero(y)),
{
    let dx = match x {
        Some(d) => d,
        None => 0,
    };
    let dy = match y {
        Some(d) => d,
        None => 0,
    };
    match img {
        Image::Gray(g) => Image::Gray(translate_impl(&g, dx, dy, 0)),
        Image::Rgb(c) => Image::Rgb(translate_impl(&c, dx, dy, Rgb::black())),
    }
}

/// Resizes an image by nearest-neighbour sampling. A dimension that is not given stays as
/// it is.
pub fn resize(img: Image, width: Option<u32>, height: Option<u32>) -> (out: Image)
    ensures
        out@ == resized_image(
            img@,
            dimension_or(width, img@.width()),
            dimension_or(height, img@.height()),
        ),
{
    let w = match width {
        Some(d) => d,
        None => img.width(),
    };
    let h = match height {
        Some(d) => d,
        None => img.height(),
    };
    match img {
        Image::Gray(g) => Image::Gray(resize_impl(&g, w, h, 0)),
        Image::Rgb(c) => Image::Rgb(resize_impl(&c, w, h, Rgb::black())),
    }
}

/// Mirrors an image: `"x"` flips left and right, `"y"` flips top and bottom; any other axis
/// gives the image back.
pub fn mirror(img: Image, axis: &str) -> (out: Image)
    ensures
        out@ == mirrored_image(img@, axis@),
{
    match img {
        Image::Gray(g) => Image::Gray(mirror_impl(&g, axis)),
        Image::Rgb(c) => Image::Rgb(mirror_impl(&c, axis)),
    }
}

/// Mirroring twice about the same axis gives the image back, whatever the axis.
pub proof fn lemma_mirror_involution<P>(g: Grid<P>, axis: Seq<char>)
    requires
        g.wf(),
    ensures
        mirrored(mirrored(g, axis), axis) == g,
{
    let once = mirrored(g, axis);
    let f = |x: int, y: int| mirrored_at(once, axis, x, y);
    assert forall|x: int, y: int| g.in_bounds(x, y) implies g.at(x, y) == f(x, y) by {
        let inner = |x: int, y: int| mirrored_at(g, axis, x, y);
        if axis == "x"@ {
            lemma_from_fn_at(g.width, g.height, inner, g.width - 1 - x, y);
        } else if axis == "y"@ {
            lemma_from_fn_at(g.width, g.height, inner, x, g.height - 1 - y);
        } else {
            lemma_from_fn_at(g.width, g.height, inner, x, y);
        }
    }
    lemma_from_fn_unique(g, f);
}

/// Mirroring an image of either format twice about the same axis gives the image back.
pub proof fn lemma_mirror_image_involution(img: ImageModel, axis: Seq<char>)
    requires
        img.wf(),
    ensures
        mirrored_image(mirrored_image(img, axis), axis) == img,
{
    match img {
        ImageModel::Gray(g) => lemma_mirror_involution(g, axis),
        ImageModel::Rgb(c) => lemma_mirror_involution(c, axis),
    }
}

/// Translation is a forward mapping: a pixel whose destination lies inside the image is
/// found there.
pub proof fn lemma_translate_forward<P>(g: Grid<P>, dx: int, dy: int, fill: P, x: int, y: int)
    requires
        g.in_bounds(x, y),
        g.in_bounds(x + dx, y + dy),
    ensures
        translated(g, dx, dy, fill).at(x + dx, y + dy) == g.at(x, y),
{
    lemma_from_fn_at(
        g.width,
        g.height,
        |x: int, y: int| g.at_or(x - dx, y - dy, fill),
        x + dx,
        y + dy,
    );
}

/// Translating by nothing changes nothing.
pub proof fn lemma_translate_zero<P>(g: Grid<P>, fill: P)
    requires
        g.wf(),
    ensures
        translated(g, 0, 0, fill) == g,
{
    lemma_from_fn_unique(g, |x: int, y: int| g.at_or(x - 0, y - 0, fill));
}

/// Along an axis that keeps its length, resizing reads every index from itself.
pub proof fn lemma_resize_source_same(i: int, n: int)
    requires
        0 <= i < n,
    ensures
        resize_source(i, n, n) == i,
{
    assert(2 * (i + 1) * n + n == (2 * n) * (i + 1) + n) by (nonlinear_arith);
    vstd::arithmetic::div_mod::lemma_fundamental_div_mod_converse(
        2 * (i + 1) * n + n,
        2 * n,
        i + 1,
        n,
    );
}

/// Resizing an image to its own dimensions changes nothing.
pub proof fn lemma_resize_same_dimensions<P>(g: Grid<P>, fill: P)
    requires
        g.wf(),
    ensures
        resized(g, g.width, g.height, fill) == g,
{
    let f = |x: int, y: int| resized_at(g, g.width, g.height, fill, x, y);
    assert forall|x: int, y: int| g.in_bounds(x, y) implies g.at(x, y) == f(x, y) by {
        lemma_resize_source_same(x, g.width as int);
        lemma_resize_source_same(y, g.height as int);
    }
    lemma_from_fn_unique(g, f);
}

/// Reducing an axis of `k * n` pixels to `n` reads the last pixel of every block of `k`.
pub proof fn lemma_resize_source_reducing(i: int, n: int, k: int)
    requires
        0 <= i < n,
        k >= 1,
    ensures
        resize_source(i, n, k * n) == (i + 1) * k - 1,
        0 <= (i + 1) * k - 1 < k * n,
{
    let q = (i + 1) * k;
    assert(2 * (i + 1) * (k * n) + n == (2 * n) * q + n) by (nonlinear_arith)
        requires
            q == (i + 1) * k,
    ;
    vstd::arithmetic::div_mod::lemma_fundamental_div_mod_converse(
        2 * (i + 1) * (k * n) + n,
        2 * n,
        q,
        n,
    );
    assert(1 <= q <= k * n) by (nonlinear_arith)
        requires
            q == (i + 1) * k,
            0 <= i < n,
            k >= 1,
    ;
}

/// Enlarging an axis of `n` pixels to `k * n` reads, at the last pixel of block `i`, the
/// pixel `i`.
pub proof fn lemma_resize_source_enlarging(i: int, n: int, k: int)
    requires
        0 <= i < n,
        k >= 1,
    ensures
        resize_source((i + 1) * k - 1, k * n, n) == i,
{
    let j = (i + 1) * k - 1;
    assert(2 * (j + 1) * n + k * n == (2 * (k * n)) * (i + 1) + k * n) by (nonlinear_arith)
        requires
            j + 1 == (i + 1) * k,
    ;
    assert(0 < k * n) by (nonlinear_arith)
        requires
            0 < n,
            k >= 1,
    ;
    vstd::arithmetic::div_mod::lemma_fundamental_div_mod_converse(
        2 * (j + 1) * n + k * n,
        2 * (k * n),
        i + 1,
        k * n,
    );
}

/// Resizing approximates: enlarging an image by whole factors and resizing it back gives
/// exactly the image.
pub proof fn lemma_resize_whole_factor_round_trip<P>(g: Grid<P>, kx: nat, ky: nat, fill: P)
    requires
        g.wf(),
        kx >= 1,
        ky >= 1,
    ensures
        resized(resized(g, kx * g.width, ky * g.height, fill), g.width, g.height, fill) == g,
{
    let w = g.width as int;
    let h = g.height as int;
    let big = resized(g, kx * g.width, ky * g.height, fill);
    let f = |x: int, y: int| resized_at(big, g.width, g.height, fill, x, y);
    assert forall|x: int, y: int| g.in_bounds(x, y) implies g.at(x, y) == f(x, y) by {
        lemma_resize_source_reducing(x, w, kx as int);
        lemma_resize_source_reducing(y, h, ky as int);
        lemma_resize_source_enlarging(x, w, kx as int);
        lemma_resize_source_enlarging(y, h, ky as int);
        lemma_from_fn_at(
            kx * g.width,
            ky * g.height,
            |x: int, y: int| resized_at(g, kx * g.width, ky * g.height, fill, x, y),
            (x + 1) * kx - 1,
            (y + 1) * ky - 1,
        );
    }
    lemma_from_fn_unique(g, f);
}

/// Resizing is exact in its dimensions: the result is well formed and has the dimensions
/// asked for, so resizing there and back gives an image of the dimensions it started with.
pub proof fn lemma_resize_round_trip_dimensions<P>(g: Grid<P>, width: nat, height: nat, fill: P)
    ensures
        resized(g, width, height, fill).wf(),
        resized(g, width, height, fill).width == width,
        resized(g, width, height, fill).height == height,
        resized(resized(g, width, height, fill), g.width, g.height, fill).wf(),
        resized(resized(g, width, height, fill), g.width, g.height, fill).width == g.width,
        resized(resized(g, width, height, fill), g.width, g.height, fill).height == g.height,
{
}

} // verus!
