//! The image model: a rectangular grid of 3-channel pixels, stored row by row.

use vstd::prelude::*;
use crate::Error;

verus! {

/// Largest width or height the library accepts. Keeping both dimensions at or
/// below this bound keeps every difference sum comfortably inside a `u64` and
/// every cross-multiplied comparison inside a `u128`.
pub const MAX_DIM: usize = 4294967295;

/// One pixel: a 3-channel color sample, one byte per channel.
#[derive(Clone, Copy, PartialEq, Eq, Structural, Debug)]
pub struct Pixel {
    pub r: u8,
    pub g: u8,
    pub b: u8,
}

/// The mathematical value of an [`Img`]: a width and a sequence of rows.
#[verifier::ext_equal]
pub struct ImgV {
    pub width: int,
    pub rows: Seq<Seq<Pixel>>,
}

impl ImgV {
    pub open spec fn height(self) -> int {
        self.rows.len() as int
    }

    /// Well-formed: both dimensions at least 1 and at most [`MAX_DIM`], and
    /// every row exactly `width` pixels long.
    pub open spec fn wf(self) -> bool {
        &&& 1 <= self.width <= MAX_DIM
        &&& 1 <= self.rows.len() <= MAX_DIM
        &&& forall|y: int| 0 <= y < self.rows.len() ==> (#[trigger] self.rows[y]).len() == self.width
    }

    /// The pixel at column `x` of row `y`.
    pub open spec fn pix(self, x: int, y: int) -> Pixel {
        self.rows[y][x]
    }
}

/// The rectangular sub-region of `img` that starts at column `x0` and row
/// `y0` and is `w` columns wide and `h` rows tall.
pub open spec fn crop_spec(img: ImgV, x0: int, y0: int, w: int, h: int) -> ImgV {
    ImgV {
        width: w,
        rows: Seq::new(h as nat, |j: int| img.rows[y0 + j].subrange(x0, x0 + w)),
    }
}

/// A raster image: a grid of [`Pixel`]s with at least one row and one column.
#[derive(PartialEq, Eq, Debug)]
pub struct Img {
    width: usize,
    rows: Vec<Vec<Pixel>>,
}

impl View for Img {
    type V = ImgV;

    closed spec fn view(&self) -> ImgV {
        ImgV {
            width: self.width as int,
            rows: self.rows@.map_values(|row: Vec<Pixel>| row@),
        }
    }
}

impl Img {
    pub open spec fn wf(self) -> bool {
        self@.wf()
    }

    /// Builds an image from its rows. This is the point where a decoded
    /// picture enters the library, and the only place malformed input is
    /// rejected: zero dimensions, a row whose length differs from `width`,
    /// or a dimension beyond [`MAX_DIM`].
    pub fn new(width: usize, rows: Vec<Vec<Pixel>>) -> (result: Result<Img, Error>)
        ensures
            match result {
                Ok(img) => {
                    &&& img@.width == width as int
                    &&& img@.rows == rows@.map_values(|row: Vec<Pixel>| row@)
                    &&& img.wf()
                },
                Err(e) => {
                    &&& e == Error::MalformedImage
                    &&& !(ImgV {
                        width: width as int,
                        rows: rows@.map_values(|row: Vec<Pixel>| row@),
                    }).wf()
                },
            },
    {
        if width < 1 || width > MAX_DIM || rows.len() < 1 || rows.len() > MAX_DIM {
            return Err(Error::MalformedImage);
        }
        let ghost rows_view = rows@.map_values(|row: Vec<Pixel>| row@);
        let mut y: usize = 0;
        while y < rows.len()
            invariant
                0 <= y <= rows.len(),
                forall|j: int| 0 <= j < y ==> (#[trigger] rows@[j])@.len() == width as int,
                rows_view == rows@.map_values(|row: Vec<Pixel>| row@),
            decreases rows.len() - y,
        {
            if rows[y].len() != width {
                proof {
                    assert(rows_view[y as int] == rows@[y as int]@);
                }
                return Err(Error::MalformedImage);
            }
            y += 1;
        }
        let img = Img { width, rows };
        proof {
            assert(forall|j: int| 0 <= j < img@.rows.len()
                ==> (#[trigger] img@.rows[j]).len() == width as int);
        }
        Ok(img)
    }

    pub fn width(&self) -> (w: usize)
        ensures
            w as int == self@.width,
    {
        self.width
    }

    pub fn height(&self) -> (h: usize)
        ensures
            h as int == self@.height(),
    {
        self.rows.len()
    }

    /// Read access to the pixel at column `x` of row `y`.
    pub fn pixel(&self, x: usize, y: usize) -> (p: Pixel)
        requires
            self.wf(),
            x < self@.width,
            y < self@.height(),
        ensures
            p == self@.pix(x as int, y as int),
    {
        proof {
            assert(self@.rows[y as int] == self.rows@[y as int]@);
        }
        self.rows[y][x]
    }

    /// Borrow row `y` whole.
    pub fn row(&self, y: usize) -> (r: &Vec<Pixel>)
        requires
            y < self@.height(),
        ensures
            r@ == self@.rows[y as int],
    {
        &self.rows[y]
    }

    /// Copies out the rectangular region that starts at `(x0, y0)` and is
    /// `w` wide and `h` tall, as an independently owned image.
    pub fn crop(&self, x0: usize, y0: usize, w: usize, h: usize) -> (sub: Img)
        requires
            self.wf(),
            1 <= w,
            1 <= h,
            x0 + w <= self@.width,
            y0 + h <= self@.height(),
        ensures
            sub@ == crop_spec(self@, x0 as int, y0 as int, w as int, h as int),
            sub.wf(),
    {
        let mut rows: Vec<Vec<Pixel>> = Vec::new();
        let mut j: usize = 0;
        while j < h
            invariant
                0 <= j <= h,
                self.wf(),
                1 <= w,
                x0 + w <= self@.width,
                y0 + h <= self@.height(),
                rows@.len() == j as int,
                forall|t: int| 0 <= t < j
                    ==> (#[trigger] rows@[t])@ == self@.rows[y0 + t].subrange(
                        x0 as int,
                        x0 + w,
                    ),
            decreases h - j,
        {
            let mut row: Vec<Pixel> = Vec::new();
            let mut i: usize = 0;
            while i < w
                invariant
                    0 <= i <= w,
                    self.wf(),
                    x0 + w <= self@.width,
                    y0 + j < self@.height(),
                    row@.len() == i as int,
                    forall|s: int| 0 <= s < i ==> #[trigger] row@[s] == self@.rows[y0 + j as int][x0 + s],
                decreases w - i,
            {
                proof {
                    assert(self@.rows[y0 + j as int] == self.rows@[y0 + j as int]@);
                }
                row.push(self.rows[y0 + j][x0 + i]);
                i += 1;
            }
            proof {
                assert(row@ =~= self@.rows[y0 + j as int].subrange(x0 as int, x0 + w));
            }
            rows.push(row);
            j += 1;
        }
        let sub = Img { width: w, rows };
        proof {
            assert(sub@ =~~= crop_spec(self@, x0 as int, y0 as int, w as int, h as int));
        }
        sub
    }
}

} // verus!
