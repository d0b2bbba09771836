//! The pixel grid.
//!
//! A grid is an `image::DynamicImage`. Verus cannot look inside one, so this
//! module names what a grid holds and states, for the four operations a mosaic
//! needs, what each does to it. Those four statements are taken on trust from
//! the `image` crate; everything else in this crate is proved from them.

use vstd::prelude::*;
use image::{DynamicImage, GenericImage, GenericImageView, Rgba};
use crate::color::Color;

verus! {

#[verifier::external_type_specification]
#[verifier::external_body]
pub struct ExDynamicImage(DynamicImage);

/// Width and height of a grid, in pixels.
pub uninterp spec fn grid_extent(img: DynamicImage) -> (nat, nat);

/// The pixels of a grid: red, green, blue and alpha of the pixel in column `x`
/// and row `y`, under the key `(x, y)`, as `get_pixel` reads them.
pub uninterp spec fn grid_pixels(img: DynamicImage) -> Map<(int, int), (u8, u8, u8, u8)>;

/// Whether a grid stores each pixel as four 8-bit channels, so that a pixel
/// written to it is read back unchanged.
pub uninterp spec fn grid_is_rgba8(img: DynamicImage) -> bool;

/// The width of a grid.
pub open spec fn grid_width(img: DynamicImage) -> nat {
    grid_extent(img).0
}

/// The height of a grid.
pub open spec fn grid_height(img: DynamicImage) -> nat {
    grid_extent(img).1
}

/// Whether `(x, y)` is a pixel of the grid.
pub open spec fn in_grid(img: DynamicImage, x: int, y: int) -> bool {
    0 <= x < grid_width(img) && 0 <= y < grid_height(img)
}

/// The colour of the pixel in column `x` and row `y`.
pub open spec fn pixel_at(img: DynamicImage, x: int, y: int) -> Color {
    let p = grid_pixels(img)[(x, y)];
    Color { red: p.0, green: p.1, blue: p.2, alpha: p.3 }
}

/// Whether a buffer of `width` by `height` pixels of four bytes each is no
/// larger than a vector can be.
pub open spec fn fits_in_memory(width: int, height: int) -> bool {
    4 * width * height <= isize::MAX
}

/// Tells whether a buffer of `width` by `height` pixels of four bytes each is
/// no larger than a vector can be.
pub fn buffer_fits(width: u32, height: u32) -> (fits: bool)
    ensures
        fits == fits_in_memory(width as int, height as int),
{
    assert(4 * width * height <= 4 * 0xffff_ffff * 0xffff_ffff) by (nonlinear_arith)
        requires
            width <= 0xffff_ffff,
            height <= 0xffff_ffff,
    ;
    let bytes: u128 = 4 * (width as u128) * (height as u128);
    bytes <= isize::MAX as u128
}

/// `GenericImageView::dimensions` on a `DynamicImage`: the width and the
/// height of the buffer inside it. Taken on trust.
#[verifier::external_body]
pub(crate) fn dimensions(img: &DynamicImage) -> (d: (u32, u32))
    ensures
        d.0 == grid_width(*img),
        d.1 == grid_height(*img),
{
    img.dimensions()
}

/// `GenericImageView::get_pixel` on a `DynamicImage`: the pixel at `(x, y)`,
/// converted to 8-bit RGBA. It panics outside the grid, which the
/// precondition rules out. Taken on trust.
#[verifier::external_body]
pub(crate) fn get_pixel(img: &DynamicImage, x: u32, y: u32) -> (c: Color)
    requires
        in_grid(*img, x as int, y as int),
    ensures
        c == pixel_at(*img, x as int, y as int),
{
    let p = img.get_pixel(x, y);
    Color { red: p.0[0], green: p.0[1], blue: p.0[2], alpha: p.0[3] }
}

/// `DynamicImage::new_rgba8`: a grid of the given size that stores 8-bit RGBA
/// and whose every channel is zero. It panics where the buffer would be
/// larger than a vector can be, which the precondition rules out. Taken on
/// trust.
#[verifier::external_body]
pub(crate) fn new_rgba8(width: u32, height: u32) -> (img: DynamicImage)
    requires
        fits_in_memory(width as int, height as int),
    ensures
        grid_extent(img) == (width as nat, height as nat),
        grid_is_rgba8(img),
        forall|x: int, y: int| #[trigger]
            in_grid(img, x, y) ==> grid_pixels(img)[(x, y)] == (0u8, 0u8, 0u8, 0u8),
{
    DynamicImage::new_rgba8(width, height)
}

/// `GenericImage::put_pixel` on a `DynamicImage` that stores 8-bit RGBA: the
/// pixel at `(x, y)` becomes `c`, every other pixel and the size stay. It
/// panics outside the grid, which the precondition rules out. Taken on trust.
#[verifier::external_body]
pub(crate) fn put_pixel(img: &mut DynamicImage, x: u32, y: u32, c: Color)
    requires
        grid_is_rgba8(*old(img)),
        in_grid(*old(img), x as int, y as int),
    ensures
        grid_is_rgba8(*final(img)),
        grid_extent(*final(img)) == grid_extent(*old(img)),
        grid_pixels(*final(img)) == grid_pixels(*old(img)).insert(
            (x as int, y as int),
            (c.red, c.green, c.blue, c.alpha),
        ),
{
    img.put_pixel(x, y, Rgba([c.red, c.green, c.blue, c.alpha]));
}

/// Makes a grid of the given size that stores 8-bit RGBA, every channel of
/// every pixel zero; none where its buffer would be larger than a vector can
/// be.
pub fn blank_grid(width: u32, height: u32) -> (r: Option<DynamicImage>)
    ensures
        r is Some <==> fits_in_memory(width as int, height as int),
        r matches Some(img) ==> {
            &&& grid_is_rgba8(img)
            &&& grid_width(img) == width
            &&& grid_height(img) == height
            &&& forall|x: int, y: int|
                in_grid(img, x, y) ==> #[trigger] pixel_at(img, x, y) == (Color {
                    red: 0,
                    green: 0,
                    blue: 0,
                    alpha: 0,
                })
        },
{
    if buffer_fits(width, height) {
        Some(new_rgba8(width, height))
    } else {
        None
    }
}

/// Reads the pixel in column `x` and row `y`; none outside the grid.
pub fn pixel(img: &DynamicImage, x: u32, y: u32) -> (r: Option<Color>)
    ensures
        in_grid(*img, x as int, y as int) ==> r == Some(pixel_at(*img, x as int, y as int)),
        !in_grid(*img, x as int, y as int) ==> r is None,
{
    let (width, height) = dimensions(img);
    if x < width && y < height {
        Some(get_pixel(img, x, y))
    } else {
        None
    }
}

} // verus!
