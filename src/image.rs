use vstd::prelude::*;

use crate::ppm::{ppm, ppm_header, ppm_pixels, push_header, push_pixel};

verus! {

/// `n / d` rounded to the nearest integer, halves rounded up.
pub open spec fn round_div(n: nat, d: nat) -> nat
    recommends
        d > 0,
{
    (2 * n + d) / (2 * d)
}

/// Height of an image `width` pixels wide whose width-to-height ratio is
/// `aspect_w : aspect_h`: the rounded quotient, but never less than one row.
pub open spec fn height_for(width: nat, aspect_w: nat, aspect_h: nat) -> nat
    recommends
        aspect_w > 0,
{
    let h = round_div(width * aspect_h, aspect_w);
    if h < 1 {
        1
    } else {
        h
    }
}

/// Number of rows of an image `width` pixels wide with aspect ratio
/// `aspect_w : aspect_h`.
pub fn image_height(width: u64, aspect_w: u64, aspect_h: u64) -> (r: u64)
    requires
        aspect_w > 0,
        height_for(width as nat, aspect_w as nat, aspect_h as nat) <= u64::MAX,
    ensures
        r == height_for(width as nat, aspect_w as nat, aspect_h as nat),
{
    proof {
        assert((width as int) * (aspect_h as int) <= (u64::MAX as int) * (u64::MAX as int))
            by (nonlinear_arith)
            requires
                width <= u64::MAX,
                aspect_h <= u64::MAX,
        ;
    }
    let n: u128 = (width as u128) * (aspect_h as u128);
    let d: u128 = aspect_w as u128;
    let q: u128 = n / d;
    let rem: u128 = n % d;
    proof {
        assert(q <= n) by (nonlinear_arith)
            requires
                d > 0,
                q == n / d,
        ;
    }
    let h: u128 = if 2 * rem >= d { q + 1 } else { q };
    proof {
        assert(h == round_div(n as nat, d as nat)) by (nonlinear_arith)
            requires
                d > 0,
                q == n / d,
                rem == n % d,
                2 * rem >= d ==> h == q + 1,
                2 * rem < d ==> h == q,
        ;
    }
    if h < 1 {
        1
    } else {
        h as u64
    }
}

/// The black pixel.
pub open spec fn black() -> Rgb {
    Rgb { r: 0, g: 0, b: 0 }
}

/// A pixel's red, green and blue intensities, each from 0 to 255.
#[derive(Clone, Copy, Debug, PartialEq, Eq, Structural)]
pub struct Rgb {
    pub r: u8,
    pub g: u8,
    pub b: u8,
}

/// The pixel in row `row` and column `col` of a row-major grid `width` wide.
pub open spec fn cell(pixels: Seq<Rgb>, width: nat, row: int, col: int) -> Rgb {
    pixels[row * width + col]
}

/// An image as a mathematical value: its size and its pixels, row by row
/// from the top, each row from left to right.
pub struct ImageModel {
    pub width: nat,
    pub height: nat,
    pub pixels: Seq<Rgb>,
}

impl ImageModel {
    /// Holds one pixel for each row and column, and no more than memory can.
    pub open spec fn wf(self) -> bool {
        &&& self.pixels.len() == self.width * self.height
        &&& self.width * self.height <= usize::MAX
    }

    pub open spec fn at(self, row: int, col: int) -> Rgb {
        cell(self.pixels, self.width, row, col)
    }
}

/// A raster image of `width * height` pixels, stored row-major.
pub struct Image {
    width: u64,
    height: u64,
    pixels: Vec<Rgb>,
}

impl View for Image {
    type V = ImageModel;

    closed spec fn view(&self) -> ImageModel {
        ImageModel { width: self.width as nat, height: self.height as nat, pixels: self.pixels@ }
    }
}

proof fn lemma_cell_index(width: nat, height: nat, row: int, col: int)
    requires
        0 <= row < height,
        0 <= col < width,
    ensures
        0 <= row * width + col < height * width,
        height * width == width * height,
        (row + 1) * width <= height * width,
        row * width + col < (row + 1) * width,
{
    assert(0 <= row * width + col < height * width) by (nonlinear_arith)
        requires
            0 <= row < height,
            0 <= col < width,
    ;
    assert(height * width == width * height) by (nonlinear_arith);
    assert((row + 1) * width <= height * width) by (nonlinear_arith)
        requires
            0 <= row < height,
    ;
    assert(row * width + col < (row + 1) * width) by (nonlinear_arith)
        requires
            0 <= col < width,
    ;
}

impl Image {
    /// Builds the `width` by `height` image whose pixel in row `row` and
    /// column `col` is what `shade(row, col)` returns. The rows are shaded
    /// from the top, each from left to right.
    pub fn from_shader<F: Fn(u64, u64) -> Rgb>(width: u64, height: u64, shade: F) -> (r: Image)
        requires
            width * height <= usize::MAX,
            forall|row: u64, col: u64| row < height && col < width ==> call_requires(shade, (row, col)),
        ensures
            r@.width == width,
            r@.height == height,
            r@.wf(),
            forall|row: u64, col: u64|
                row < height && col < width ==> call_ensures(
                    shade,
                    (row, col),
                    #[trigger] r@.at(row as int, col as int),
                ),
    {
        let mut pixels: Vec<Rgb> = Vec::new();
        let mut row: u64 = 0;
        while row < height
            invariant
                row <= height,
                width * height <= usize::MAX,
                forall|i: u64, j: u64| i < height && j < width ==> call_requires(shade, (i, j)),
                pixels@.len() == row * width,
                forall|i: u64, j: u64|
                    i < row && j < width ==> call_ensures(
                        shade,
                        (i, j),
                        #[trigger] cell(pixels@, width as nat, i as int, j as int),
                    ),
            decreases height - row,
        {
            let mut col: u64 = 0;
            while col < width
                invariant
                    row < height,
                    col <= width,
                    width * height <= usize::MAX,
                    forall|i: u64, j: u64| i < height && j < width ==> call_requires(shade, (i, j)),
                    pixels@.len() == row * width + col,
                    forall|i: u64, j: u64|
                        i < row && j < width ==> call_ensures(
                            shade,
                            (i, j),
                            #[trigger] cell(pixels@, width as nat, i as int, j as int),
                        ),
                    forall|j: u64|
                        j < col ==> call_ensures(
                            shade,
                            (row, j),
                            #[trigger] cell(pixels@, width as nat, row as int, j as int),
                        ),
                decreases width - col,
            {
                proof {
                    lemma_cell_index(width as nat, height as nat, row as int, col as int);
                }
                let c = shade(row, col);
                let ghost before = pixels@;
                pixels.push(c);
                proof {
                    assert forall|i: u64, j: u64| i < row && j < width implies call_ensures(
                        shade,
                        (i, j),
                        cell(pixels@, width as nat, i as int, j as int),
                    ) by {
                        lemma_cell_index(width as nat, row as nat, i as int, j as int);
                        assert(cell(pixels@, width as nat, i as int, j as int) == cell(
                            before,
                            width as nat,
                            i as int,
                            j as int,
                        ));
                    }
                    assert forall|j: u64| j <= col implies cell(pixels@, width as nat, row as int, j as int)
                        == if j < col { cell(before, width as nat, row as int, j as int) } else { c } by {
                        lemma_cell_index(width as nat, height as nat, row as int, j as int);
                    }
                }
                col = col + 1;
            }
            proof {
                assert(pixels@.len() == (row + 1) * width) by (nonlinear_arith)
                    requires
                        pixels@.len() == row * width + width,
                ;
                assert forall|i: u64, j: u64| i <= row && j < width implies call_ensures(
                    shade,
                    (i, j),
                    cell(pixels@, width as nat, i as int, j as int),
                ) by {
                    if i == row {
                        assert(call_ensures(shade, (row, j), cell(pixels@, width as nat, row as int, j as int)));
                    }
                }
            }
            row = row + 1;
        }
        proof {
            assert(pixels@.len() == width * height) by (nonlinear_arith)
                requires
                    pixels@.len() == height * width,
            ;
        }
        Image { width, height, pixels }
    }

    /// A black image of `width` by `height` pixels.
    pub fn new(width: u64, height: u64) -> (r: Image)
        requires
            width * height <= usize::MAX,
        ensures
            r@.width == width,
            r@.height == height,
            r@.pixels == Seq::new((width * height) as nat, |k: int| black()),
            r@.wf(),
    {
        let n: usize = (width as u128 * height as u128) as usize;
        let mut pixels: Vec<Rgb> = Vec::new();
        while pixels.len() < n
            invariant
                n == width * height,
                pixels@.len() <= n,
                forall|k: int| 0 <= k < pixels@.len() ==> #[trigger] pixels@[k] == black(),
            decreases n - pixels@.len(),
        {
            pixels.push(Rgb { r: 0, g: 0, b: 0 });
        }
        assert(pixels@ =~= Seq::new((width * height) as nat, |k: int| black()));
        Image { width, height, pixels }
    }

    /// Number of columns.
    pub fn width(&self) -> (r: u64)
        ensures
            r == self@.width,
    {
        self.width
    }

    /// Number of rows.
    pub fn height(&self) -> (r: u64)
        ensures
            r == self@.height,
    {
        self.height
    }

    /// The pixel in row `row` and column `col`.
    pub fn pixel(&self, row: u64, col: u64) -> (r: Rgb)
        requires
            self@.wf(),
            row < self@.height,
            col < self@.width,
        ensures
            r == self@.at(row as int, col as int),
    {
        proof {
            lemma_cell_index(self.width as nat, self.height as nat, row as int, col as int);
        }
        let k: u64 = row * self.width + col;
        self.pixels[k as usize]
    }

    /// Replaces the pixel in row `row` and column `col` by `p`.
    pub fn set_pixel(&mut self, row: u64, col: u64, p: Rgb)
        requires
            old(self)@.wf(),
            row < old(self)@.height,
            col < old(self)@.width,
        ensures
            final(self)@.width == old(self)@.width,
            final(self)@.height == old(self)@.height,
            final(self)@.pixels == old(self)@.pixels.update(
                row * old(self)@.width + col,
                p,
            ),
            final(self)@.wf(),
    {
        proof {
            lemma_cell_index(self.width as nat, self.height as nat, row as int, col as int);
        }
        let k: u64 = row * self.width + col;
        self.pixels.set(k as usize, p);
    }

    /// The image as a plain-text PPM file: the header, then one line per
    /// pixel, row by row from the top.
    pub fn to_ppm(&self) -> (r: Vec<u8>)
        ensures
            r@ == ppm(self@),
    {
        let mut out: Vec<u8> = Vec::new();
        push_header(&mut out, self.width, self.height);
        let mut k: usize = 0;
        while k < self.pixels.len()
            invariant
                k <= self.pixels@.len(),
                out@ == ppm_header(self.width as nat, self.height as nat) + ppm_pixels(
                    self.pixels@.subrange(0, k as int),
                ),
            decreases self.pixels@.len() - k,
        {
            let ghost done = out@;
            push_pixel(&mut out, self.pixels[k]);
            proof {
                let s = self.pixels@.subrange(0, k + 1);
                assert(s.drop_last() =~= self.pixels@.subrange(0, k as int));
                assert(out@ =~= done + crate::ppm::ppm_pixel(self.pixels@[k as int]));
            }
            k = k + 1;
        }
        assert(self.pixels@.subrange(0, k as int) =~= self.pixels@);
        out
    }
}

} // verus!
