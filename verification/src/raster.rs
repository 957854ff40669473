//! The raster abstraction: a `width x height` grid of pixels stored row by row.

use vstd::prelude::*;

verus! {

/// A three-channel colour pixel, eight bits per channel.
#[derive(Clone, Copy, Debug, PartialEq, Eq, Structural)]
pub struct Rgb {
    pub r: u8,
    pub g: u8,
    pub b: u8,
}

/// The mathematical model of a raster: its dimensions and its cells in row-major order.
pub struct Grid<P> {
    pub width: nat,
    pub height: nat,
    pub cells: Seq<P>,
}

impl<P> Grid<P> {
    /// The cell sequence has exactly one entry per coordinate.
    pub open spec fn wf(self) -> bool {
        self.cells.len() == self.width * self.height
    }

    /// Whether `(x, y)` names a cell of this grid.
    pub open spec fn in_bounds(self, x: int, y: int) -> bool {
        0 <= x < self.width && 0 <= y < self.height
    }

    /// The cell at column `x` of row `y`.
    pub open spec fn at(self, x: int, y: int) -> P
        recommends
            self.in_bounds(x, y),
    {
        self.cells[y * self.width + x]
    }

    /// The cell at `(x, y)`, or `fill` where `(x, y)` lies outside the grid.
    pub open spec fn at_or(self, x: int, y: int, fill: P) -> P {
        if self.in_bounds(x, y) {
            self.at(x, y)
        } else {
            fill
        }
    }

    /// The grid of the given dimensions whose cell at `(x, y)` is `f(x, y)`.
    pub open spec fn from_fn(width: nat, height: nat, f: spec_fn(int, int) -> P) -> Grid<P> {
        Grid {
            width,
            height,
            cells: Seq::new(width * height, |i: int| f(i % (width as int), i / (width as int))),
        }
    }

    /// Whether all cells hold the same value.
    pub open spec fn is_flat(self) -> bool {
        forall|i: int, j: int|
            0 <= i < self.cells.len() && 0 <= j < self.cells.len() ==> self.cells[i]
                == self.cells[j]
    }

    /// The grid of the same dimensions whose cells are the images of this grid's cells under `f`.
    pub open spec fn map<Q>(self, f: spec_fn(P) -> Q) -> Grid<Q> {
        Grid {
            width: self.width,
            height: self.height,
            cells: Seq::new(self.cells.len(), |i: int| f(self.cells[i])),
        }
    }

    /// The grid of the given dimensions with every cell equal to `fill`.
    pub open spec fn filled(width: nat, height: nat, fill: P) -> Grid<P> {
        Grid::from_fn(width, height, |x: int, y: int| fill)
    }
}

/// The row-major position of an in-bounds coordinate is in range, and the coordinate can be
/// read back from it.
pub proof fn lemma_flat_index(x: int, y: int, width: int, height: int)
    requires
        0 <= x < width,
        0 <= y < height,
    ensures
        0 <= y * width + x < width * height,
        (y * width + x) % width == x,
        (y * width + x) / width == y,
{
    assert(y * width + x < width * height) by (nonlinear_arith)
        requires
            0 <= x < width,
            0 <= y < height,
    {
        assert((y + 1) * width <= height * width);
    }
    assert(0 <= y * width) by (nonlinear_arith)
        requires
            0 <= y,
            0 < width,
    ;
    vstd::arithmetic::div_mod::lemma_fundamental_div_mod_converse(y * width + x, width, y, x);
}

/// A row never starts before position zero.
pub proof fn lemma_row_start(y: int, width: int)
    requires
        0 <= y,
        0 <= width,
    ensures
        0 <= y * width,
{
    assert(0 <= y * width) by (nonlinear_arith)
        requires
            0 <= y,
            0 <= width,
    ;
}

/// Every position of a row-major sequence splits into an in-bounds coordinate.
pub proof fn lemma_split_index(i: int, width: int, height: int)
    requires
        0 <= i < width * height,
        0 <= width,
        0 <= height,
    ensures
        0 < width,
        0 <= i % width < width,
        0 <= i / width < height,
        (i / width) * width + i % width == i,
{
    assert(0 < width) by (nonlinear_arith)
        requires
            0 <= i < width * height,
            0 <= width,
    ;
    vstd::arithmetic::div_mod::lemma_fundamental_div_mod(i, width);
    vstd::arithmetic::div_mod::lemma_mod_bound(i, width);
    let q = i / width;
    assert(width * q == q * width) by (nonlinear_arith);
    assert(0 <= q < height) by (nonlinear_arith)
        requires
            0 <= i < width * height,
            0 < width,
            q * width + i % width == i,
            0 <= i % width < width,
    ;
}

/// `from_fn` builds a well-formed grid.
pub proof fn lemma_from_fn_wf<P>(width: nat, height: nat, f: spec_fn(int, int) -> P)
    ensures
        Grid::from_fn(width, height, f).wf(),
{
}

/// `from_fn` places `f(x, y)` at `(x, y)`.
pub proof fn lemma_from_fn_at<P>(width: nat, height: nat, f: spec_fn(int, int) -> P, x: int, y: int)
    requires
        0 <= x < width,
        0 <= y < height,
    ensures
        Grid::from_fn(width, height, f).wf(),
        Grid::from_fn(width, height, f).at(x, y) == f(x, y),
{
    lemma_flat_index(x, y, width as int, height as int);
}

/// A well-formed grid whose cell at every `(x, y)` is `f(x, y)` is the grid that `from_fn`
/// builds from `f`.
pub proof fn lemma_from_fn_unique<P>(g: Grid<P>, f: spec_fn(int, int) -> P)
    requires
        g.wf(),
        forall|x: int, y: int| g.in_bounds(x, y) ==> g.at(x, y) == f(x, y),
    ensures
        Grid::from_fn(g.width, g.height, f) == g,
{
    let h = Grid::from_fn(g.width, g.height, f);
    assert forall|i: int| 0 <= i < g.cells.len() implies h.cells[i] == g.cells[i] by {
        lemma_split_index(i, g.width as int, g.height as int);
        let x = i % (g.width as int);
        let y = i / (g.width as int);
        assert(g.in_bounds(x, y));
        assert(g.at(x, y) == f(x, y));
    }
    assert(h.cells =~= g.cells);
}

/// Two well-formed grids of the same dimensions that agree at every coordinate are equal.
pub proof fn lemma_grid_ext<P>(a: Grid<P>, b: Grid<P>)
    requires
        a.wf(),
        b.wf(),
        a.width == b.width,
        a.height == b.height,
        forall|x: int, y: int| a.in_bounds(x, y) ==> a.at(x, y) == b.at(x, y),
    ensures
        a == b,
{
    assert forall|i: int| 0 <= i < a.cells.len() implies a.cells[i] == b.cells[i] by {
        lemma_split_index(i, a.width as int, a.height as int);
        let x = i % (a.width as int);
        let y = i / (a.width as int);
        assert(a.in_bounds(x, y));
        assert(a.at(x, y) == b.at(x, y));
    }
    assert(a.cells =~= b.cells);
}

/// The number of pixels of a `width x height` image.
pub fn area(width: u32, height: u32) -> (n: u64)
    ensures
        n == width * height,
{
    assert(width * height <= 0xFFFF_FFFF * 0xFFFF_FFFF) by (nonlinear_arith)
        requires
            0 <= width <= 0xFFFF_FFFF,
            0 <= height <= 0xFFFF_FFFF,
    ;
    (width as u64) * (height as u64)
}

/// A raster image: `width * height` pixels of type `P`, stored row by row.
#[derive(Debug, PartialEq, Eq)]
pub struct Raster<P> {
    width: u32,
    height: u32,
    data: Vec<P>,
}

/// A single-channel luminance image.
pub type GrayImage = Raster<u8>;

/// A three-channel colour image.
pub type RgbImage = Raster<Rgb>;

impl<P> View for Raster<P> {
    type V = Grid<P>;

    closed spec fn view(&self) -> Grid<P> {
        Grid { width: self.width as nat, height: self.height as nat, cells: self.data@ }
    }
}

impl<P> Raster<P> {
    /// Every image holds exactly one pixel per coordinate.
    #[verifier::type_invariant]
    pub open spec fn well_formed(self) -> bool {
        self@.wf()
    }
}

impl<P: Copy> Raster<P> {
    /// Creates an image of the given dimensions with every pixel equal to `fill`.
    pub fn new(width: u32, height: u32, fill: P) -> (img: Self)
        ensures
            img@ == Grid::filled(width as nat, height as nat, fill),
    {
        let n: u64 = area(width, height);
        let mut data: Vec<P> = Vec::new();
        let mut i: u64 = 0;
        while i < n
            invariant
                i <= n,
                data@.len() == i,
                forall|k: int| 0 <= k < i ==> data@[k] == fill,
            decreases n - i,
        {
            data.push(fill);
            i += 1;
        }
        assert(data@ =~= Grid::filled(width as nat, height as nat, fill).cells);
        Raster { width, height, data }
    }

    /// Wraps a row-major pixel buffer; `None` unless it holds exactly `width * height` pixels.
    pub fn from_raw(width: u32, height: u32, data: Vec<P>) -> (img: Option<Self>)
        ensures
            img is Some <==> data@.len() == width * height,
            img matches Some(r) ==> r@ == (Grid {
                width: width as nat,
                height: height as nat,
                cells: data@,
            }),
    {
        if data.len() as u64 == area(width, height) {
            Some(Raster { width, height, data })
        } else {
            None
        }
    }

    /// The number of columns.
    pub fn width(&self) -> (w: u32)
        ensures
            w == self@.width,
    {
        self.width
    }

    /// The number of rows.
    pub fn height(&self) -> (h: u32)
        ensures
            h == self@.height,
    {
        self.height
    }

    /// The pixel at column `x` of row `y`.
    pub fn get_pixel(&self, x: u32, y: u32) -> (p: P)
        requires
            self@.in_bounds(x as int, y as int),
        ensures
            p == self@.at(x as int, y as int),
    {
        let len = self.data.len();
        proof {
            use_type_invariant(self);
            lemma_flat_index(x as int, y as int, self.width as int, self.height as int);
            lemma_row_start(y as int, self.width as int);
        }
        self.data[(y as usize) * (self.width as usize) + (x as usize)]
    }

    /// A copy of this image.
    pub fn duplicate(&self) -> (img: Self)
        ensures
            img@ == self@,
    {
        let mut data: Vec<P> = Vec::new();
        let mut i: usize = 0;
        while i < self.data.len()
            invariant
                i <= self.data@.len(),
                data@.len() == i,
                forall|k: int| 0 <= k < i ==> data@[k] == self.data@[k],
            decreases self.data@.len() - i,
        {
            data.push(self.data[i]);
            i += 1;
        }
        proof {
            use_type_invariant(self);
            assert(data@ =~= self.data@);
        }
        Raster { width: self.width, height: self.height, data }
    }

    /// The pixel at `(x, y)`, or `fill` where `(x, y)` lies outside the image.
    pub fn pixel_or(&self, x: i64, y: i64, fill: P) -> (p: P)
        ensures
            p == self@.at_or(x as int, y as int, fill),
    {
        if 0 <= x && x < self.width as i64 && 0 <= y && y < self.height as i64 {
            self.get_pixel(x as u32, y as u32)
        } else {
            fill
        }
    }

    /// This image with the pixel at column `x` of row `y` replaced by `p`.
    pub fn with_pixel(self, x: u32, y: u32, p: P) -> (img: Self)
        requires
            self@.in_bounds(x as int, y as int),
        ensures
            img@.width == self@.width,
            img@.height == self@.height,
            img@.cells == self@.cells.update(y * self@.width + x, p),
    {
        proof {
            use_type_invariant(&self);
        }
        let Raster { width, height, mut data } = self;
        let len = data.len();
        proof {
            lemma_flat_index(x as int, y as int, width as int, height as int);
            lemma_row_start(y as int, width as int);
        }
        let i = (y as usize) * (width as usize) + (x as usize);
        data.set(i, p);
        Raster { width, height, data }
    }

    /// Wraps a row-major pixel buffer that is known to hold `width * height` pixels.
    pub(crate) fn from_vec(width: u32, height: u32, data: Vec<P>) -> (img: Self)
        requires
            data@.len() == width * height,
        ensures
            img@ == (Grid { width: width as nat, height: height as nat, cells: data@ }),
    {
        Raster { width, height, data }
    }

    /// The pixels in row-major order.
    pub fn as_raw(&self) -> (data: &Vec<P>)
        ensures
            data@ == self@.cells,
    {
        &self.data
    }

    /// Gives up the image for its pixels in row-major order.
    pub fn into_raw(self) -> (data: Vec<P>)
        ensures
            data@ == self@.cells,
    {
        self.data
    }
}

impl<P: Copy> Clone for Raster<P> {
    fn clone(&self) -> (img: Self)
        ensures
            img@ == self@,
    {
        self.duplicate()
    }
}

impl Rgb {
    /// The pixel with all channels zero.
    pub open spec fn black_spec() -> Rgb {
        Rgb { r: 0, g: 0, b: 0 }
    }

    /// The pixel with all channels zero.
    #[verifier::when_used_as_spec(black_spec)]
    pub fn black() -> (p: Rgb)
        ensures
            p == Rgb::black_spec(),
    {
        Rgb { r: 0, g: 0, b: 0 }
    }

    /// The gray pixel of the given luminance.
    pub open spec fn gray_spec(v: u8) -> Rgb {
        Rgb { r: v, g: v, b: v }
    }

    /// The gray pixel of the given luminance: all three channels equal to `v`.
    #[verifier::when_used_as_spec(gray_spec)]
    pub fn gray(v: u8) -> (p: Rgb)
        ensures
            p == Rgb::gray_spec(v),
    {
        Rgb { r: v, g: v, b: v }
    }

    /// The luminance of this pixel: the integer part of `0.2126 r + 0.7152 g + 0.0722 b`.
    pub open spec fn luma_spec(self) -> u8 {
        ((2126 * self.r + 7152 * self.g + 722 * self.b) / 10000) as u8
    }

    /// The luminance of this pixel under the usual perceptual weighting.
    #[verifier::when_used_as_spec(luma_spec)]
    pub fn luma(self) -> (v: u8)
        ensures
            v == self.luma_spec(),
    {
        let l: u32 = 2126 * (self.r as u32) + 7152 * (self.g as u32) + 722 * (self.b as u32);
        (l / 10000) as u8
    }
}

/// An image of either pixel format.
#[derive(Clone, Debug, PartialEq, Eq)]
pub enum Image {
    /// One luminance channel per pixel.
    Gray(GrayImage),
    /// Three colour channels per pixel.
    Rgb(RgbImage),
}

/// The mathematical model of an [`Image`].
pub enum ImageModel {
    Gray(Grid<u8>),
    Rgb(Grid<Rgb>),
}

impl ImageModel {
    /// The number of columns.
    pub open spec fn width(self) -> nat {
        match self {
            ImageModel::Gray(g) => g.width,
            ImageModel::Rgb(c) => c.width,
        }
    }

    /// The number of rows.
    pub open spec fn height(self) -> nat {
        match self {
            ImageModel::Gray(g) => g.height,
            ImageModel::Rgb(c) => c.height,
        }
    }

    /// Whether the image holds exactly one pixel per coordinate.
    pub open spec fn wf(self) -> bool {
        match self {
            ImageModel::Gray(g) => g.wf(),
            ImageModel::Rgb(c) => c.wf(),
        }
    }

    /// Whether all pixels are alike.
    pub open spec fn is_flat(self) -> bool {
        match self {
            ImageModel::Gray(g) => g.is_flat(),
            ImageModel::Rgb(c) => c.is_flat(),
        }
    }

    /// The luminance reduction: a gray image stays as it is, a colour pixel gives its luma.
    pub open spec fn to_luma(self) -> Grid<u8> {
        match self {
            ImageModel::Gray(g) => g,
            ImageModel::Rgb(c) => c.map(|p: Rgb| p.luma_spec()),
        }
    }

    /// The colour promotion: a colour image stays as it is, a luminance is copied to all
    /// three channels.
    pub open spec fn to_rgb(self) -> Grid<Rgb> {
        match self {
            ImageModel::Gray(g) => g.map(|v: u8| Rgb::gray_spec(v)),
            ImageModel::Rgb(c) => c,
        }
    }
}

/// No overflow or underflow escapes an operation: in every image, every channel of every
/// pixel lies within `0..=255`.
pub proof fn lemma_channels_in_range(img: ImageModel)
    ensures
        match img {
            ImageModel::Gray(g) => forall|i: int|
                0 <= i < g.cells.len() ==> 0 <= #[trigger] g.cells[i] <= 255,
            ImageModel::Rgb(c) => forall|i: int|
                0 <= i < c.cells.len() ==> {
                    &&& 0 <= (#[trigger] c.cells[i]).r <= 255
                    &&& 0 <= c.cells[i].g <= 255
                    &&& 0 <= c.cells[i].b <= 255
                },
        },
{
}

impl View for Image {
    type V = ImageModel;

    open spec fn view(&self) -> ImageModel {
        match self {
            Image::Gray(g) => ImageModel::Gray(g@),
            Image::Rgb(c) => ImageModel::Rgb(c@),
        }
    }
}

impl Image {
    /// The number of columns.
    pub fn width(&self) -> (w: u32)
        ensures
            w == self@.width(),
    {
        match self {
            Image::Gray(g) => g.width(),
            Image::Rgb(c) => c.width(),
        }
    }

    /// The number of rows.
    pub fn height(&self) -> (h: u32)
        ensures
            h == self@.height(),
    {
        match self {
            Image::Gray(g) => g.height(),
            Image::Rgb(c) => c.height(),
        }
    }

    /// The luminance reduction of this image.
    pub fn to_luma8(&self) -> (out: GrayImage)
        ensures
            out@ == self@.to_luma(),
    {
        match self {
            Image::Gray(g) => g.duplicate(),
            Image::Rgb(c) => {
                let src = c.as_raw();
                let mut data: Vec<u8> = Vec::new();
                let mut i: usize = 0;
                while i < src.len()
                    invariant
                        i <= src@.len(),
                        data@.len() == i,
                        forall|k: int| 0 <= k < i ==> data@[k] == (#[trigger] src@[k]).luma_spec(),
                    decreases src@.len() - i,
                {
                    data.push(src[i].luma());
                    i += 1;
                }
                proof {
                    use_type_invariant(c);
                    assert(data@ =~= c@.map(|p: Rgb| p.luma_spec()).cells);
                }
                Raster::from_vec(c.width(), c.height(), data)
            },
        }
    }

    /// The colour promotion of this image.
    pub fn to_rgb8(&self) -> (out: RgbImage)
        ensures
            out@ == self@.to_rgb(),
    {
        match self {
            Image::Rgb(c) => c.duplicate(),
            Image::Gray(g) => {
                let src = g.as_raw();
                let mut data: Vec<Rgb> = Vec::new();
                let mut i: usize = 0;
                while i < src.len()
                    invariant
                        i <= src@.len(),
                        data@.len() == i,
                        forall|k: int|
                            0 <= k < i ==> data@[k] == Rgb::gray_spec(#[trigger] src@[k]),
                    decreases src@.len() - i,
                {
                    data.push(Rgb::gray(src[i]));
                    i += 1;
                }
                proof {
                    use_type_invariant(g);
                    assert(data@ =~= g@.map(|v: u8| Rgb::gray_spec(v)).cells);
                }
                Raster::from_vec(g.width(), g.height(), data)
            },
        }
    }
}

} // verus!
