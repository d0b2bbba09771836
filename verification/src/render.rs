//! The mosaic: every block of a grid painted in one flat colour.

use vstd::prelude::*;
use image::DynamicImage;
use crate::average::{average_color, average_of, block_pixels, Rect};
use crate::color::Color;
use crate::error::MosaicError;
use crate::grid::{
    dimensions, fits_in_memory, grid_extent, grid_height, grid_is_rgba8, grid_pixels, grid_width,
    in_grid, new_rgba8, pixel_at, put_pixel,
};
use crate::palette::{
    lemma_nearest_is_unique, nearest, nearest_index, reference_bricks, reference_palette,
    ColorBrick,
};
use crate::tiling::{
    block_at, block_count, block_rect, crop_bounds, cropped, lemma_block_index, lemma_block_span,
    lemma_cropped_is_aligned, BLOCK_SIZE,
};

verus! {

/// What becomes of the alpha channel where a block takes a brick's colour.
#[derive(Clone, Copy, Debug, PartialEq, Eq, Structural)]
pub enum AlphaPolicy {
    /// The block keeps the alpha of its mean colour.
    Carry,
    /// The block is fully opaque.
    Opaque,
}

/// How the colour of a block is chosen from its mean colour.
#[derive(Debug)]
pub enum Mode {
    /// The block takes its mean colour, all four channels.
    Plain,
    /// The block takes the RGB triple of the nearest brick of a palette.
    Palette { bricks: Vec<ColorBrick>, alpha: AlphaPolicy },
}

/// A [`Mode`] as contracts see it.
pub enum FillRule {
    Plain,
    Palette { bricks: Seq<ColorBrick>, alpha: AlphaPolicy },
}

impl View for Mode {
    type V = FillRule;

    open spec fn view(&self) -> FillRule {
        match *self {
            Mode::Plain => FillRule::Plain,
            Mode::Palette { bricks, alpha } => FillRule::Palette { bricks: bricks@, alpha },
        }
    }
}

impl FillRule {
    /// Whether the rule gives every mean colour a fill colour: all but a
    /// palette without bricks do.
    pub open spec fn is_usable(self) -> bool {
        match self {
            FillRule::Plain => true,
            FillRule::Palette { bricks, alpha } => bricks.len() > 0,
        }
    }

    /// The colour in which a block of mean colour `average` is painted.
    pub open spec fn fill(self, average: Color) -> Color {
        match self {
            FillRule::Plain => average,
            FillRule::Palette { bricks, alpha } => Color::from_rgb(
                bricks[nearest_index(average.rgb(), bricks)].color,
                match alpha {
                    AlphaPolicy::Carry => average.alpha,
                    AlphaPolicy::Opaque => 255u8,
                },
            ),
        }
    }
}

/// The rule of the reference mosaic: the reference palette, alpha carried over.
pub open spec fn reference_rule() -> FillRule {
    FillRule::Palette { bricks: reference_bricks(), alpha: AlphaPolicy::Carry }
}

/// The colour of the pixel `(x, y)` of the mosaic of `source` with blocks of
/// side `b`: the fill colour of the mean of the block that `(x, y)` lies in.
pub open spec fn mosaic_pixel(source: DynamicImage, b: int, rule: FillRule, x: int, y: int) -> Color {
    rule.fill(average_of(block_pixels(source, block_rect(x / b, y / b, b))))
}

/// Whether `out` is the mosaic of `source` with blocks of side `b`: it has
/// the size of `source` cropped to whole blocks, and each of its pixels has
/// the colour that [`mosaic_pixel`] gives.
pub open spec fn is_mosaic_of(out: DynamicImage, source: DynamicImage, b: int, rule: FillRule) -> bool {
    &&& grid_is_rgba8(out)
    &&& grid_width(out) == cropped(grid_width(source) as int, b)
    &&& grid_height(out) == cropped(grid_height(source) as int, b)
    &&& forall|x: int, y: int|
        in_grid(out, x, y) ==> #[trigger] pixel_at(out, x, y) == mosaic_pixel(source, b, rule, x, y)
}

/// Whether a grid holds at least one whole block of side `b`.
pub open spec fn has_blocks(source: DynamicImage, b: int) -> bool {
    cropped(grid_width(source) as int, b) > 0 && cropped(grid_height(source) as int, b) > 0
}

/// In palette mode the RGB triple of a fill colour is that of one of the
/// bricks of the palette, whatever the mean colour was.
pub proof fn lemma_palette_fill_is_brick(bricks: Seq<ColorBrick>, alpha: AlphaPolicy, average: Color)
    requires
        bricks.len() > 0,
    ensures
        exists|k: int|
            0 <= k < bricks.len() && (FillRule::Palette { bricks, alpha }).fill(average).rgb()
                == #[trigger] bricks[k].color,
{
    lemma_nearest_is_unique(average.rgb(), bricks, 0);
    let k = nearest_index(average.rgb(), bricks);
    assert((FillRule::Palette { bricks, alpha }).fill(average).rgb() == bricks[k].color);
}

/// In plain mode the fill colour is the mean colour itself, so every colour
/// can come out, in the palette or not.
pub proof fn lemma_plain_fill_is_average(average: Color)
    ensures
        FillRule::Plain.fill(average) == average,
{
}

/// Chooses the colour in which a block of mean colour `average` is painted.
pub fn fill_color(mode: &Mode, average: &Color) -> (r: Result<Color, MosaicError>)
    ensures
        mode@.is_usable() ==> r == Ok::<Color, MosaicError>(mode@.fill(*average)),
        !mode@.is_usable() ==> r == Err::<Color, MosaicError>(MosaicError::EmptyPalette),
{
    match mode {
        Mode::Plain => Ok(*average),
        Mode::Palette { bricks, alpha } => {
            match nearest(average, bricks.as_slice()) {
                Ok(brick) => {
                    let a: u8 = match alpha {
                        AlphaPolicy::Carry => average.alpha,
                        AlphaPolicy::Opaque => 255,
                    };
                    Ok(Color::with_alpha(brick.color, a))
                },
                Err(e) => Err(e),
            }
        },
    }
}

/// Paints every pixel of a rectangle of a grid in one colour. The other
/// pixels and the size of the grid stay as they are.
pub fn paint_block(out: &mut DynamicImage, rect: &Rect, c: Color)
    requires
        grid_is_rgba8(*old(out)),
        rect.within(*old(out)),
    ensures
        grid_is_rgba8(*final(out)),
        grid_extent(*final(out)) == grid_extent(*old(out)),
        forall|x: int, y: int| #[trigger]
            pixel_at(*final(out), x, y) == if rect.contains(x, y) {
                c
            } else {
                pixel_at(*old(out), x, y)
            },
{
    let ghost before = *out;
    let mut y: u32 = rect.top;
    while y < rect.bottom
        invariant
            grid_is_rgba8(*out),
            grid_extent(*out) == grid_extent(before),
            rect.within(before),
            rect.top <= y,
            forall|px: int, py: int| #[trigger]
                pixel_at(*out, px, py) == if rect.contains(px, py) && py < y {
                    c
                } else {
                    pixel_at(before, px, py)
                },
        decreases rect.bottom - y,
    {
        let mut x: u32 = rect.left;
        while x < rect.right
            invariant
                grid_is_rgba8(*out),
                grid_extent(*out) == grid_extent(before),
                rect.within(before),
                rect.top <= y < rect.bottom,
                rect.left <= x,
                forall|px: int, py: int| #[trigger]
                    pixel_at(*out, px, py) == if rect.contains(px, py) && (py < y || (py == y
                        && px < x)) {
                        c
                    } else {
                        pixel_at(before, px, py)
                    },
            decreases rect.right - x,
        {
            let ghost prior = *out;
            put_pixel(out, x, y, c);
            assert forall|px: int, py: int| #[trigger]
                pixel_at(*out, px, py) == if px == x && py == y {
                    c
                } else {
                    pixel_at(prior, px, py)
                } by {
                assert((px, py) != (x as int, y as int) ==> grid_pixels(*out)[(px, py)]
                    == grid_pixels(prior)[(px, py)]);
            }
            x = x + 1;
        }
        y = y + 1;
    }
}

/// Makes the mosaic of a grid.
///
/// The grid is cropped to whole blocks of side `block_size`; what is left over
/// at the right and at the bottom is dropped. Each block is painted in the
/// colour that `mode` gives to its mean colour. A grid smaller than one block
/// gives a mosaic without pixels. A palette without bricks is reported as soon
/// as there is a block to paint.
///
/// The mosaic has to be no larger than a vector can be; [`crop_extent`] and
/// [`buffer_fits`](crate::grid::buffer_fits) tell whether it is.
pub fn render(source: &DynamicImage, block_size: u32, mode: &Mode) -> (r: Result<
    DynamicImage,
    MosaicError,
>)
    requires
        0 < block_size,
        fits_in_memory(
            cropped(grid_width(*source) as int, block_size as int),
            cropped(grid_height(*source) as int, block_size as int),
        ),
    ensures
        match r {
            Ok(out) => is_mosaic_of(out, *source, block_size as int, mode@),
            Err(e) => e == MosaicError::EmptyPalette,
        },
        r is Err <==> !mode@.is_usable() && has_blocks(*source, block_size as int),
{
    let (width, height) = dimensions(source);
    let (cw, ch) = crop_bounds(width, height, block_size);
    proof {
        lemma_cropped_is_aligned(width as int, block_size as int);
        lemma_cropped_is_aligned(height as int, block_size as int);
    }
    let cols: u32 = cw / block_size;
    let rows: u32 = ch / block_size;
    let ghost b = block_size as int;
    let mut out = new_rgba8(cw, ch);
    let mut i: u32 = 0;
    while i < cols
        invariant
            0 < block_size,
            b == block_size,
            width == grid_width(*source),
            height == grid_height(*source),
            cw == cropped(width as int, b),
            ch == cropped(height as int, b),
            cols == block_count(width as int, b),
            rows == block_count(height as int, b),
            cw == cols * b,
            ch == rows * b,
            grid_is_rgba8(out),
            grid_extent(out) == (cw as nat, ch as nat),
            i <= cols,
            (i > 0 && rows > 0) ==> mode@.is_usable(),
            forall|x: int, y: int|
                0 <= x < i * b && 0 <= y < ch ==> #[trigger] pixel_at(out, x, y) == mosaic_pixel(
                    *source,
                    b,
                    mode@,
                    x,
                    y,
                ),
        decreases cols - i,
    {
        let mut j: u32 = 0;
        while j < rows
            invariant
                0 < block_size,
                b == block_size,
                width == grid_width(*source),
                height == grid_height(*source),
                cw == cropped(width as int, b),
                ch == cropped(height as int, b),
                cols == block_count(width as int, b),
                rows == block_count(height as int, b),
                cw == cols * b,
                ch == rows * b,
                grid_is_rgba8(out),
                grid_extent(out) == (cw as nat, ch as nat),
                i < cols,
                j <= rows,
                ((i > 0 || j > 0) && rows > 0) ==> mode@.is_usable(),
                forall|x: int, y: int|
                    0 <= x < i * b && 0 <= y < ch ==> #[trigger] pixel_at(out, x, y)
                        == mosaic_pixel(*source, b, mode@, x, y),
                forall|x: int, y: int|
                    i * b <= x < i * b + b && 0 <= y < j * b ==> #[trigger] pixel_at(out, x, y)
                        == mosaic_pixel(*source, b, mode@, x, y),
            decreases rows - j,
        {
            proof {
                lemma_block_span(width as int, b, i as int);
                lemma_block_span(height as int, b, j as int);
            }
            let rect = block_at(i, j, block_size);
            let fill = match average_color(source, &rect) {
                Ok(average) => match fill_color(mode, &average) {
                    Ok(c) => c,
                    Err(e) => {
                        proof {
                            assert(cw > 0 && ch > 0) by (nonlinear_arith)
                                requires
                                    cw == cols * b,
                                    ch == rows * b,
                                    cols > 0,
                                    rows > 0,
                                    b > 0,
                            ;
                        }
                        return Err(e);
                    },
                },
                Err(e) => return Err(e),
            };
            paint_block(&mut out, &rect, fill);
            proof {
                assert forall|x: int, y: int| rect.contains(x, y) implies mosaic_pixel(
                    *source,
                    b,
                    mode@,
                    x,
                    y,
                ) == fill by {
                    lemma_block_index(b, i as int, x);
                    lemma_block_index(b, j as int, y);
                }
                assert(j * b + b == (j + 1) * b) by (nonlinear_arith);
            }
            j = j + 1;
        }
        proof {
            assert(i * b + b == (i + 1) * b) by (nonlinear_arith);
        }
        i = i + 1;
    }
    proof {
        assert(cols > 0 && rows > 0 <==> cw > 0 && ch > 0) by (nonlinear_arith)
            requires
                cw == cols * b,
                ch == rows * b,
                b > 0,
        ;
    }
    Ok(out)
}

/// Crops the size of a grid to whole blocks of side `block_size`.
pub fn crop_extent(source: &DynamicImage, block_size: u32) -> (bounds: (u32, u32))
    requires
        0 < block_size,
    ensures
        bounds.0 == cropped(grid_width(*source) as int, block_size as int),
        bounds.1 == cropped(grid_height(*source) as int, block_size as int),
{
    let (width, height) = dimensions(source);
    crop_bounds(width, height, block_size)
}

/// Makes the brick mosaic of a grid: blocks of eight by eight pixels, each
/// in the colour of the nearest brick of the reference palette, with the alpha
/// of the block's mean colour.
///
/// The RGB triple of every pixel of the result is that of one of the twelve
/// bricks. As for [`render`], the mosaic has to be no larger than a vector
/// can be.
pub fn flatten_colors(img: &DynamicImage) -> (out: DynamicImage)
    requires
        fits_in_memory(
            cropped(grid_width(*img) as int, BLOCK_SIZE as int),
            cropped(grid_height(*img) as int, BLOCK_SIZE as int),
        ),
    ensures
        is_mosaic_of(out, *img, BLOCK_SIZE as int, reference_rule()),
        forall|x: int, y: int|
            #![trigger pixel_at(out, x, y)]
            in_grid(out, x, y) ==> exists|k: int|
                #![trigger reference_bricks()[k]]
                0 <= k < 12 && pixel_at(out, x, y).rgb() == reference_bricks()[k].color,
{
    let mode = Mode::Palette { bricks: reference_palette(), alpha: AlphaPolicy::Carry };
    assert(reference_bricks().len() == 12);
    match render(img, BLOCK_SIZE, &mode) {
        Ok(out) => {
            proof {
                assert forall|x: int, y: int|
                    #![trigger pixel_at(out, x, y)]
                    in_grid(out, x, y) implies exists|k: int|
                    #![trigger reference_bricks()[k]]
                    0 <= k < 12 && pixel_at(out, x, y).rgb() == reference_bricks()[k].color by {
                    let average = average_of(block_pixels(*img, block_rect(x / 8, y / 8, 8)));
                    lemma_palette_fill_is_brick(reference_bricks(), AlphaPolicy::Carry, average);
                }
            }
            out
        },
        Err(_) => unreached(),
    }
}

} // verus!
