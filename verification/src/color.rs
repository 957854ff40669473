//! Tone and colour mapping: luminance reduction, binarization, inversion, tone curves and
//! histogram equalization.

use vstd::prelude::*;
use crate::raster::{GrayImage, Grid, Image, ImageModel, Raster, Rgb, RgbImage, area};

verus! {

/// A threshold on the unit interval, held as an exact fraction `num / den`.
#[derive(Clone, Copy, Debug, PartialEq, Eq)]
pub struct Ratio {
    num: i32,
    den: u32,
}

impl Ratio {
    #[verifier::type_invariant]
    spec fn positive_denominator(self) -> bool {
        self.den > 0
    }

    /// The numerator.
    pub closed spec fn num(self) -> int {
        self.num as int
    }

    /// The denominator.
    pub closed spec fn den(self) -> int {
        self.den as int
    }

    /// Whether the luminance `v`, as a fraction of full scale, is strictly greater than this
    /// ratio: `v / 255 > num / den`, decided without rounding.
    pub open spec fn exceeded_by(self, v: u8) -> bool {
        v * self.den() > 255 * self.num()
    }

    /// One half has numerator 1 and denominator 2.
    pub proof fn lemma_half()
        ensures
            Ratio::half_spec().num() == 1,
            Ratio::half_spec().den() == 2,
    {
    }

    /// The fraction `num / den`; `None` exactly when `den` is zero.
    pub fn new(num: i32, den: u32) -> (r: Option<Ratio>)
        ensures
            r is Some <==> den != 0,
            r matches Some(q) ==> q.num() == num && q.den() == den,
    {
        if den == 0 {
            None
        } else {
            Some(Ratio { num, den })
        }
    }

    /// One half, the default threshold.
    pub closed spec fn half_spec() -> Ratio {
        Ratio { num: 1, den: 2 }
    }

    /// One half, the default threshold.
    #[verifier::when_used_as_spec(half_spec)]
    pub fn half() -> (r: Ratio)
        ensures
            r == Ratio::half_spec(),
            r.num() == 1,
            r.den() == 2,
    {
        Ratio { num: 1, den: 2 }
    }

    /// Whether the luminance `v`, as a fraction of full scale, is strictly greater than this
    /// ratio.
    pub fn is_exceeded_by(&self, v: u8) -> (b: bool)
        ensures
            b == self.exceeded_by(v),
    {
        assert(0 <= v * self.den <= 255 * 0xFFFF_FFFF) by (nonlinear_arith)
            requires
                0 <= v <= 255,
                0 <= self.den <= 0xFFFF_FFFF,
        ;
        (v as i64) * (self.den as i64) > 255 * (self.num as i64)
    }
}

/// The binarized luminance: white where `v / 255` is strictly greater than the threshold,
/// black elsewhere.
pub open spec fn binarized_value(threshold: Ratio, v: u8) -> u8 {
    if threshold.exceeded_by(v) {
        255u8
    } else {
        0u8
    }
}

/// The threshold that `to_binary` uses: the one given, or one half.
pub open spec fn threshold_or_half(threshold: Option<Ratio>) -> Ratio {
    match threshold {
        Some(given) => given,
        None => Ratio::half_spec(),
    }
}

/// The binarized luminance of an image.
pub open spec fn binarized(img: ImageModel, threshold: Ratio) -> ImageModel {
    ImageModel::Gray(img.to_luma().map(|v: u8| binarized_value(threshold, v)))
}

/// The inverted channel value.
pub open spec fn inverted_value(v: u8) -> u8 {
    (255 - v) as u8
}

/// The inverted pixel: every channel inverted.
pub open spec fn inverted_pixel(p: Rgb) -> Rgb {
    Rgb { r: inverted_value(p.r), g: inverted_value(p.g), b: inverted_value(p.b) }
}

/// The inverted image, of the same format.
pub open spec fn inverted(img: ImageModel) -> ImageModel {
    match img {
        ImageModel::Gray(g) => ImageModel::Gray(g.map(|v: u8| inverted_value(v))),
        ImageModel::Rgb(c) => ImageModel::Rgb(c.map(|p: Rgb| inverted_pixel(p))),
    }
}

/// The pixel whose channels are looked up in a tone curve.
pub open spec fn curved_pixel(curve: Seq<u8>, p: Rgb) -> Rgb {
    Rgb { r: curve[p.r as int], g: curve[p.g as int], b: curve[p.b as int] }
}

/// The image with every channel value `v` replaced by `curve[v]`, of the same format.
pub open spec fn curved(img: ImageModel, curve: Seq<u8>) -> ImageModel {
    match img {
        ImageModel::Gray(g) => ImageModel::Gray(g.map(|v: u8| curve[v as int])),
        ImageModel::Rgb(c) => ImageModel::Rgb(c.map(|p: Rgb| curved_pixel(curve, p))),
    }
}

/// Reduces an image to its luminance.
pub fn to_gray(img: Image) -> (out: Image)
    ensures
        out@ == ImageModel::Gray(img@.to_luma()),
{
    Image::Gray(img.to_luma8())
}

/// Binarizes the luminance of an image: a pixel becomes white (255) where its luminance,
/// as a fraction of 255, is strictly greater than the threshold, and black (0) elsewhere.
/// Without a threshold, one half is used.
pub fn to_binary(img: Image, threshold: Option<Ratio>) -> (out: Image)
    ensures
        out@ == binarized(img@, threshold_or_half(threshold)),
{
    let t = match threshold {
        Some(given) => given,
        None => Ratio::half(),
    };
    let gray = img.to_luma8();
    let src = gray.as_raw();
    let mut data: Vec<u8> = Vec::new();
    let mut i: usize = 0;
    while i < src.len()
        invariant
            i <= src@.len(),
            data@.len() == i,
            forall|k: int| 0 <= k < i ==> data@[k] == binarized_value(t, #[trigger] src@[k]),
        decreases src@.len() - i,
    {
        data.push(
            if t.is_exceeded_by(src[i]) {
                255
            } else {
                0
            },
        );
        i += 1;
    }
    proof {
        use_type_invariant(&gray);
        assert(data@ =~= gray@.map(|v: u8| binarized_value(t, v)).cells);
    }
    Image::Gray(Raster::from_vec(gray.width(), gray.height(), data))
}

/// A luminance image with every value inverted.
fn invert_plane(img: &GrayImage) -> (out: GrayImage)
    ensures
        out@ == img@.map(|v: u8| inverted_value(v)),
{
    let src = img.as_raw();
    let mut data: Vec<u8> = Vec::new();
    let mut i: usize = 0;
    while i < src.len()
        invariant
            i <= src@.len(),
            data@.len() == i,
            forall|k: int| 0 <= k < i ==> data@[k] == inverted_value(#[trigger] src@[k]),
        decreases src@.len() - i,
    {
        data.push(255 - src[i]);
        i += 1;
    }
    proof {
        use_type_invariant(img);
        assert(data@ =~= img@.map(|v: u8| inverted_value(v)).cells);
    }
    Raster::from_vec(img.width(), img.height(), data)
}

/// A colour image with every channel inverted.
fn invert_planes(img: &RgbImage) -> (out: RgbImage)
    ensures
        out@ == img@.map(|p: Rgb| inverted_pixel(p)),
{
    let src = img.as_raw();
    let mut data: Vec<Rgb> = Vec::new();
    let mut i: usize = 0;
    while i < src.len()
        invariant
            i <= src@.len(),
            data@.len() == i,
            forall|k: int| 0 <= k < i ==> data@[k] == inverted_pixel(#[trigger] src@[k]),
        decreases src@.len() - i,
    {
        let p = src[i];
        data.push(Rgb { r: 255 - p.r, g: 255 - p.g, b: 255 - p.b });
        i += 1;
    }
    proof {
        use_type_invariant(img);
        assert(data@ =~= img@.map(|p: Rgb| inverted_pixel(p)).cells);
    }
    Raster::from_vec(img.width(), img.height(), data)
}

/// Inverts every channel of an image, `v` to `255 - v`, keeping its format.
pub fn invert(img: Image) -> (out: Image)
    ensures
        out@ == inverted(img@),
{
    match img {
        Image::Gray(g) => Image::Gray(invert_plane(&g)),
        Image::Rgb(c) => Image::Rgb(invert_planes(&c)),
    }
}

/// Promotes an image to colour and inverts every channel.
pub fn invert_rgb(img: Image) -> (out: Image)
    ensures
        out@ == inverted(ImageModel::Rgb(img@.to_rgb())),
{
    Image::Rgb(invert_planes(&img.to_rgb8()))
}

/// Reduces an image to its luminance and inverts it.
pub fn invert_gray(img: Image) -> (out: Image)
    ensures
        out@ == inverted(ImageModel::Gray(img@.to_luma())),
{
    Image::Gray(invert_plane(&img.to_luma8()))
}

/// Replaces every channel value `v` of an image by `curve[v]`, keeping its format.
///
/// A power-law tone mapping is the curve `v -> round(255 * (v / 255) ^ exponent)`.
pub fn apply_tone_curve(img: Image, curve: &[u8; 256]) -> (out: Image)
    ensures
        out@ == curved(img@, curve@),
{
    match img {
        Image::Gray(g) => {
            let src = g.as_raw();
            let mut data: Vec<u8> = Vec::new();
            let mut i: usize = 0;
            while i < src.len()
                invariant
                    i <= src@.len(),
                    data@.len() == i,
                    forall|k: int| 0 <= k < i ==> data@[k] == curve@[(#[trigger] src@[k]) as int],
                decreases src@.len() - i,
            {
                data.push(curve[src[i] as usize]);
                i += 1;
            }
            proof {
                use_type_invariant(&g);
                assert(data@ =~= g@.map(|v: u8| curve@[v as int]).cells);
            }
            Image::Gray(Raster::from_vec(g.width(), g.height(), data))
        },
        Image::Rgb(c) => {
            let src = c.as_raw();
            let mut data: Vec<Rgb> = Vec::new();
            let mut i: usize = 0;
            while i < src.len()
                invariant
                    i <= src@.len(),
                    data@.len() == i,
                    forall|k: int|
                        0 <= k < i ==> data@[k] == curved_pixel(curve@, #[trigger] src@[k]),
                decreases src@.len() - i,
            {
                let p = src[i];
                data.push(
                    Rgb { r: curve[p.r as usize], g: curve[p.g as usize], b: curve[p.b as usize] },
                );
                i += 1;
            }
            proof {
                use_type_invariant(&c);
                assert(data@ =~= c@.map(|p: Rgb| curved_pixel(curve@, p)).cells);
            }
            Image::Rgb(Raster::from_vec(c.width(), c.height(), data))
        },
    }
}

/// What histogram equalization makes of a luminance image, given by its dimensions and its
/// pixels in row-major order: the pixels of the equalized image.
pub uninterp spec fn equalized_histogram(width: nat, height: nat, pixels: Seq<u8>) -> Seq<u8>;

/// Calls `imageproc::contrast::equalize_histogram` on a luminance image given as a row-major
/// buffer. That function remaps every pixel through the cumulative distribution of the
/// image's intensities, computed in single precision.
///
/// Taken on trust, not proved: the result depends on the arguments alone, which gives it
/// the name [`equalized_histogram`], and it holds as many pixels as the input. The buffer
/// must hold one byte per pixel, and no more than `u32::MAX` of them: the histogram counts
/// in 32 bits.
#[verifier::external_body]
fn equalize_histogram(width: u32, height: u32, pixels: Vec<u8>) -> (out: Vec<u8>)
    requires
        pixels@.len() == width * height,
        pixels@.len() <= u32::MAX,
    ensures
        out@ == equalized_histogram(width as nat, height as nat, pixels@),
        out@.len() == pixels@.len(),
{
    let img = image::GrayImage::from_raw(width, height, pixels).unwrap();
    imageproc::contrast::equalize_histogram(&img).into_raw()
}

/// The luminance of an image with its histogram equalized.
pub open spec fn equalized(img: ImageModel) -> ImageModel {
    ImageModel::Gray(
        Grid {
            width: img.width(),
            height: img.height(),
            cells: equalized_histogram(img.width(), img.height(), img.to_luma().cells),
        },
    )
}

/// Equalizes the histogram of the luminance of an image.
///
/// The image may hold at most `u32::MAX` pixels.
pub fn hist_equalize(img: Image) -> (out: Image)
    requires
        img@.width() * img@.height() <= u32::MAX,
    ensures
        out@ == equalized(img@),
{
    let gray = img.to_luma8();
    let width = gray.width();
    let height = gray.height();
    proof {
        use_type_invariant(&gray);
    }
    let out = equalize_histogram(width, height, gray.into_raw());
    Image::Gray(Raster::from_vec(width, height, out))
}

/// Equalizes the histogram of the luminance of an image, if the image is small enough for
/// it: `None` exactly when the image holds more than `u32::MAX` pixels.
pub fn try_hist_equalize(img: Image) -> (out: Option<Image>)
    ensures
        out is Some <==> img@.width() * img@.height() <= u32::MAX,
        out matches Some(equal) ==> equal@ == equalized(img@),
{
    if area(img.width(), img.height()) <= u32::MAX as u64 {
        Some(hist_equalize(img))
    } else {
        None
    }
}

/// Inverting twice gives the image back.
pub proof fn lemma_invert_involution(img: ImageModel)
    ensures
        inverted(inverted(img)) == img,
{
    match img {
        ImageModel::Gray(g) => {
            assert(g.map(|v: u8| inverted_value(v)).map(|v: u8| inverted_value(v)).cells
                =~= g.cells);
        },
        ImageModel::Rgb(c) => {
            assert(c.map(|p: Rgb| inverted_pixel(p)).map(|p: Rgb| inverted_pixel(p)).cells
                =~= c.cells);
        },
    }
}

} // verus!
