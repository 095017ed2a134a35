use vstd::prelude::*;

use crate::image::{height_for, Image, Rgb};

verus! {

/// Width part of the aspect ratio of the rendered image.
pub const ASPECT_W: u64 = 16;

/// Height part of the aspect ratio of the rendered image.
pub const ASPECT_H: u64 = 9;

/// Number of rows of the rendered image at the given width.
pub open spec fn render_height(width: nat) -> nat {
    height_for(width, ASPECT_W as nat, ASPECT_H as nat)
}

/// Renders the 16:9 image `width` pixels wide: the pixel in row `row` and
/// column `col` is what `shade(row, col)` returns, and the rows are shaded
/// from the top, each from left to right.
pub fn generate_img<F: Fn(u64, u64) -> Rgb>(width: u64, shade: F) -> (r: Image)
    requires
        width * render_height(width as nat) <= usize::MAX,
        forall|row: u64, col: u64|
            row < render_height(width as nat) && col < width ==> call_requires(shade, (row, col)),
    ensures
        r@.wf(),
        r@.width == width,
        r@.height == render_height(width as nat),
        forall|row: u64, col: u64|
            row < r@.height && col < width ==> call_ensures(
                shade,
                (row, col),
                #[trigger] r@.at(row as int, col as int),
            ),
{
    let ghost h = render_height(width as nat);
    proof {
        if width > 0 {
            assert(h <= width * h) by (nonlinear_arith)
                requires
                    width > 0,
            ;
        }
    }
    let height = crate::image::image_height(width, ASPECT_W, ASPECT_H);
    Image::from_shader(width, height, shade)
}

} // verus!
