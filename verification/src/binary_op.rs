//! Per-pixel arithmetic between two colour images.
//!
//! The result spans the per-axis maximum of the two inputs; the smaller image counts as
//! black wherever it has no pixel.

use vstd::prelude::*;
use crate::error::EngineError;
use crate::raster::{
    Grid, Image, ImageModel, Raster, Rgb, RgbImage, lemma_flat_index, lemma_from_fn_at,
    lemma_from_fn_wf, lemma_from_fn_unique, lemma_grid_ext,
};
use crate::text::text_eq;
use crate::utils::{get_pixel_rgb, max_dimensions, max_int};

verus! {

/// The four pixel-arithmetic operators.
#[derive(Clone, Copy, Debug, PartialEq, Eq, Structural)]
pub enum ArithmeticOp {
    Add,
    Sub,
    Mul,
    Div,
}

impl ArithmeticOp {
    /// The operator applied to one pair of channel values.
    ///
    /// * `Add`: the sum, at most 255.
    /// * `Sub`: the difference, at least 0.
    /// * `Mul`: `a * b / 255`, the multiplicative blend.
    /// * `Div`: `a * 255 / b`, at most 255, and 255 where `b` is zero.
    pub open spec fn channel_spec(self, a: u8, b: u8) -> u8 {
        match self {
            ArithmeticOp::Add => if a + b > 255 {
                255u8
            } else {
                (a + b) as u8
            },
            ArithmeticOp::Sub => if a >= b {
                (a - b) as u8
            } else {
                0u8
            },
            ArithmeticOp::Mul => if (a * b) / 255 > 255 {
                255u8
            } else {
                ((a * b) / 255) as u8
            },
            ArithmeticOp::Div => if b == 0 || (a * 255) / (b as int) > 255 {
                255u8
            } else {
                ((a * 255) / (b as int)) as u8
            },
        }
    }

    /// The operator applied to one pair of channel values.
    #[verifier::when_used_as_spec(channel_spec)]
    pub fn channel(self, a: u8, b: u8) -> (c: u8)
        ensures
            c == self.channel_spec(a, b),
    {
        match self {
            ArithmeticOp::Add => {
                let s: u16 = a as u16 + b as u16;
                if s > 255 {
                    255
                } else {
                    s as u8
                }
            },
            ArithmeticOp::Sub => {
                if a >= b {
                    a - b
                } else {
                    0
                }
            },
            ArithmeticOp::Mul => {
                assert(a * b <= 65025) by (nonlinear_arith)
                    requires
                        0 <= a <= 255,
                        0 <= b <= 255,
                ;
                let q: u16 = (a as u16 * b as u16) / 255;
                if q > 255 {
                    255
                } else {
                    q as u8
                }
            },
            ArithmeticOp::Div => {
                if b == 0 {
                    255
                } else {
                    let q: u16 = (a as u16 * 255) / (b as u16);
                    if q > 255 {
                        255
                    } else {
                        q as u8
                    }
                }
            },
        }
    }

    /// The operator applied channel by channel to a pair of pixels.
    pub open spec fn pixel_spec(self, p: Rgb, q: Rgb) -> Rgb {
        Rgb {
            r: self.channel_spec(p.r, q.r),
            g: self.channel_spec(p.g, q.g),
            b: self.channel_spec(p.b, q.b),
        }
    }

    /// The operator applied channel by channel to a pair of pixels.
    #[verifier::when_used_as_spec(pixel_spec)]
    pub fn pixel(self, p: Rgb, q: Rgb) -> (out: Rgb)
        ensures
            out == self.pixel_spec(p, q),
    {
        Rgb { r: self.channel(p.r, q.r), g: self.channel(p.g, q.g), b: self.channel(p.b, q.b) }
    }

    /// The operator that a name stands for: `"add"`, `"sub"`, `"mul"` or `"div"`.
    pub open spec fn named_spec(name: Seq<char>) -> Option<ArithmeticOp> {
        if name == "add"@ {
            Some(ArithmeticOp::Add)
        } else if name == "sub"@ {
            Some(ArithmeticOp::Sub)
        } else if name == "mul"@ {
            Some(ArithmeticOp::Mul)
        } else if name == "div"@ {
            Some(ArithmeticOp::Div)
        } else {
            None
        }
    }

    /// The operator that a name stands for, or `None` for any other name.
    pub fn named(name: &str) -> (op: Option<ArithmeticOp>)
        ensures
            op == ArithmeticOp::named_spec(name@),
    {
        if text_eq(name, "add") {
            Some(ArithmeticOp::Add)
        } else if text_eq(name, "sub") {
            Some(ArithmeticOp::Sub)
        } else if text_eq(name, "mul") {
            Some(ArithmeticOp::Mul)
        } else if text_eq(name, "div") {
            Some(ArithmeticOp::Div)
        } else {
            None
        }
    }
}

/// The pixel of `op(a, b)` at `(x, y)`: the operator applied to the two zero-filled samples.
pub open spec fn combined_at(op: ArithmeticOp, a: Grid<Rgb>, b: Grid<Rgb>, x: int, y: int) -> Rgb {
    op.pixel_spec(a.at_or(x, y, Rgb::black_spec()), b.at_or(x, y, Rgb::black_spec()))
}

/// The image `op(a, b)`: as wide as the wider and as high as the higher of the two inputs.
pub open spec fn combined(op: ArithmeticOp, a: Grid<Rgb>, b: Grid<Rgb>) -> Grid<Rgb> {
    Grid::from_fn(
        max_int(a.width as int, b.width as int) as nat,
        max_int(a.height as int, b.height as int) as nat,
        |x: int, y: int| combined_at(op, a, b, x, y),
    )
}

/// Applies `op` pixel by pixel to two colour images.
pub fn combine(op: ArithmeticOp, img1: &RgbImage, img2: &RgbImage) -> (out: RgbImage)
    ensures
        out@ == combined(op, img1@, img2@),
{
    let (width, height) = max_dimensions(img1, img2);
    let mut data: Vec<Rgb> = Vec::new();
    let mut y: u32 = 0;
    while y < height
        invariant
            width == max_int(img1@.width as int, img2@.width as int),
            height == max_int(img1@.height as int, img2@.height as int),
            y <= height,
            data@.len() == y * width,
            forall|c: int|
                0 <= c < data@.len() ==> data@[c] == combined_at(
                    op,
                    img1@,
                    img2@,
                    c % (width as int),
                    c / (width as int),
                ),
        decreases height - y,
    {
        let mut x: u32 = 0;
        while x < width
            invariant
                width == max_int(img1@.width as int, img2@.width as int),
                height == max_int(img1@.height as int, img2@.height as int),
                y < height,
                x <= width,
                data@.len() == y * width + x,
                forall|c: int|
                    0 <= c < data@.len() ==> data@[c] == combined_at(
                        op,
                        img1@,
                        img2@,
                        c % (width as int),
                        c / (width as int),
                    ),
            decreases width - x,
        {
            let pa = get_pixel_rgb(img1, x, y);
            let pb = get_pixel_rgb(img2, x, y);
            proof {
                lemma_flat_index(x as int, y as int, width as int, height as int);
            }
            data.push(op.pixel(pa, pb));
            x += 1;
        }
        proof {
            assert((y + 1) * width == y * width + width) by (nonlinear_arith);
        }
        y += 1;
    }
    proof {
        assert(height * width == width * height) by (nonlinear_arith);
        assert(data@ =~= combined(op, img1@, img2@).cells);
    }
    Raster::from_vec(width, height, data)
}

/// The saturating sum of two colour images.
pub fn add(img1: &RgbImage, img2: &RgbImage) -> (out: RgbImage)
    ensures
        out@ == combined(ArithmeticOp::Add, img1@, img2@),
{
    combine(ArithmeticOp::Add, img1, img2)
}

/// The saturating difference of two colour images.
pub fn sub(img1: &RgbImage, img2: &RgbImage) -> (out: RgbImage)
    ensures
        out@ == combined(ArithmeticOp::Sub, img1@, img2@),
{
    combine(ArithmeticOp::Sub, img1, img2)
}

/// The multiplicative blend of two colour images.
pub fn mul(img1: &RgbImage, img2: &RgbImage) -> (out: RgbImage)
    ensures
        out@ == combined(ArithmeticOp::Mul, img1@, img2@),
{
    combine(ArithmeticOp::Mul, img1, img2)
}

/// The scaled quotient of two colour images; a zero divisor gives 255.
pub fn div(img1: &RgbImage, img2: &RgbImage) -> (out: RgbImage)
    ensures
        out@ == combined(ArithmeticOp::Div, img1@, img2@),
{
    combine(ArithmeticOp::Div, img1, img2)
}

/// Applies `op` to two images of any format, each promoted to colour first.
pub fn apply_binary_arithmetic(op: ArithmeticOp, img1: &Image, img2: &Image) -> (out: Image)
    ensures
        out@ == ImageModel::Rgb(combined(op, img1@.to_rgb(), img2@.to_rgb())),
{
    let a = img1.to_rgb8();
    let b = img2.to_rgb8();
    Image::Rgb(combine(op, &a, &b))
}

/// Applies the operator called `op` to two images of any format.
///
/// Fails with [`EngineError::InvalidOperation`], carrying the name, exactly when `op` is none
/// of `"add"`, `"sub"`, `"mul"` and `"div"`.
pub fn binary_op(img1: &Image, img2: &Image, op: &str) -> (res: Result<Image, EngineError>)
    ensures
        match ArithmeticOp::named_spec(op@) {
            Some(o) => res matches Ok(out) && out@ == ImageModel::Rgb(
                combined(o, img1@.to_rgb(), img2@.to_rgb()),
            ),
            None => res matches Err(EngineError::InvalidOperation { operation }) && operation@
                == op@,
        },
{
    match ArithmeticOp::named(op) {
        Some(o) => Ok(apply_binary_arithmetic(o, img1, img2)),
        None => Err(EngineError::InvalidOperation { operation: op.to_owned() }),
    }
}

/// Adding a black image of the same size changes nothing.
pub proof fn lemma_add_black_is_identity(img: Grid<Rgb>)
    requires
        img.wf(),
    ensures
        combined(ArithmeticOp::Add, img, Grid::filled(img.width, img.height, Rgb::black_spec()))
            == img,
{
    let black = Grid::filled(img.width, img.height, Rgb::black_spec());
    let f = |x: int, y: int| combined_at(ArithmeticOp::Add, img, black, x, y);
    assert forall|x: int, y: int| img.in_bounds(x, y) implies img.at(x, y) == f(x, y) by {
        lemma_from_fn_at(img.width, img.height, |x: int, y: int| Rgb::black_spec(), x, y);
    }
    lemma_from_fn_unique(img, f);
}

/// Dividing an image by itself gives white everywhere: equal non-zero channels divide to
/// 255, and a zero divisor gives 255 by definition.
pub proof fn lemma_div_by_self_is_white(img: Grid<Rgb>)
    requires
        img.wf(),
    ensures
        combined(ArithmeticOp::Div, img, img) == Grid::filled(
            img.width,
            img.height,
            Rgb { r: 255, g: 255, b: 255 },
        ),
{
    let white = Rgb { r: 255, g: 255, b: 255 };
    let out = combined(ArithmeticOp::Div, img, img);
    let all_white = Grid::filled(img.width, img.height, white);
    assert forall|x: int, y: int| out.in_bounds(x, y) implies out.at(x, y) == all_white.at(
        x,
        y,
    ) by {
        lemma_from_fn_at(
            img.width,
            img.height,
            |x: int, y: int| combined_at(ArithmeticOp::Div, img, img, x, y),
            x,
            y,
        );
        lemma_from_fn_at(img.width, img.height, |x: int, y: int| white, x, y);
        let p = img.at(x, y);
        lemma_channel_div_by_self(p.r);
        lemma_channel_div_by_self(p.g);
        lemma_channel_div_by_self(p.b);
    }
    lemma_from_fn_wf(
        img.width,
        img.height,
        |x: int, y: int| combined_at(ArithmeticOp::Div, img, img, x, y),
    );
    lemma_from_fn_wf(img.width, img.height, |x: int, y: int| white);
    lemma_grid_ext(out, all_white);
}

/// A channel value divided by itself is 255.
pub proof fn lemma_channel_div_by_self(a: u8)
    ensures
        ArithmeticOp::Div.channel_spec(a, a) == 255,
{
    if a != 0 {
        assert((a * 255) / (a as int) == 255) by (nonlinear_arith)
            requires
                0 < a,
        ;
    }
}

} // verus!
