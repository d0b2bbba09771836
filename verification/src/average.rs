//! The mean colour of a rectangle of a grid.

use vstd::prelude::*;
use vstd::arithmetic::div_mod::{
    lemma_div_pos_is_pos, lemma_fundamental_div_mod_converse, lemma_mod_pos_bound,
    lemma_multiply_divide_lt,
};
use vstd::seq_lib::{commutative_foldl, lemma_fold_left_permutation};
use image::DynamicImage;
use crate::color::{Channel, Color};
use crate::error::MosaicError;
use crate::grid::{get_pixel, grid_height, grid_width, pixel_at};

verus! {

/// A rectangle of pixels. `right` and `bottom` are the first column and the
/// first row beyond it.
#[derive(Clone, Copy, Debug, PartialEq, Eq, Structural)]
pub struct Rect {
    pub left: u32,
    pub top: u32,
    pub right: u32,
    pub bottom: u32,
}

impl Rect {
    /// The number of columns.
    pub open spec fn width(self) -> nat {
        if self.left < self.right {
            (self.right - self.left) as nat
        } else {
            0
        }
    }

    /// The number of rows.
    pub open spec fn height(self) -> nat {
        if self.top < self.bottom {
            (self.bottom - self.top) as nat
        } else {
            0
        }
    }

    /// The number of pixels.
    pub open spec fn area(self) -> nat {
        self.width() * self.height()
    }

    /// Whether the rectangle holds no pixel.
    pub open spec fn is_empty(self) -> bool {
        self.left >= self.right || self.top >= self.bottom
    }

    /// Whether the pixel `(x, y)` lies in the rectangle.
    pub open spec fn contains(self, x: int, y: int) -> bool {
        self.left <= x < self.right && self.top <= y < self.bottom
    }

    /// Whether the rectangle lies inside the grid.
    pub open spec fn within(self, img: DynamicImage) -> bool {
        self.right <= grid_width(img) && self.bottom <= grid_height(img)
    }
}

/// The pixels of a rectangle of a grid, row by row from the top, each row
/// from the left.
pub open spec fn block_pixels(img: DynamicImage, rect: Rect) -> Seq<Color> {
    Seq::new(
        rect.area(),
        |k: int| pixel_at(img, rect.left + k % (rect.width() as int), rect.top + k / (rect.width() as int)),
    )
}

/// The sum of one channel over a sequence of colours.
pub open spec fn channel_sum(colors: Seq<Color>, ch: Channel) -> int {
    colors.fold_left(0int, |acc: int, c: Color| acc + c.channel(ch))
}

/// The quotient `sum / count` rounded to the nearest integer, a half rounded
/// up.
pub open spec fn rounded_mean(sum: int, count: int) -> int {
    (2 * sum + count) / (2 * count)
}

/// The mean of a sequence of colours that is not empty: channel by channel,
/// the sum over the number of colours, rounded to the nearest integer, a half
/// rounded up.
pub open spec fn average_of(colors: Seq<Color>) -> Color {
    let n = colors.len() as int;
    Color {
        red: rounded_mean(channel_sum(colors, Channel::Red), n) as u8,
        green: rounded_mean(channel_sum(colors, Channel::Green), n) as u8,
        blue: rounded_mean(channel_sum(colors, Channel::Blue), n) as u8,
        alpha: rounded_mean(channel_sum(colors, Channel::Alpha), n) as u8,
    }
}

/// Adding one colour to a sequence adds its channel to the sum.
pub proof fn lemma_channel_sum_push(colors: Seq<Color>, c: Color, ch: Channel)
    ensures
        channel_sum(colors.push(c), ch) == channel_sum(colors, ch) + c.channel(ch),
{
    assert(colors.push(c).drop_last() =~= colors);
}

/// A channel sum lies between zero and 255 times the number of colours.
pub proof fn lemma_channel_sum_bounds(colors: Seq<Color>, ch: Channel)
    ensures
        0 <= channel_sum(colors, ch) <= 255 * colors.len(),
    decreases colors.len(),
{
    if colors.len() > 0 {
        lemma_channel_sum_bounds(colors.drop_last(), ch);
        assert(colors.drop_last().push(colors.last()) =~= colors);
        lemma_channel_sum_push(colors.drop_last(), colors.last(), ch);
    }
}

/// The rounded mean of `count` values between 0 and 255 is between 0 and 255.
pub proof fn lemma_rounded_mean_bounds(sum: int, count: int)
    requires
        0 < count,
        0 <= sum <= 255 * count,
    ensures
        0 <= rounded_mean(sum, count) <= 255,
{
    lemma_div_pos_is_pos(2 * sum + count, 2 * count);
    assert(2 * sum + count < (2 * count) * 256) by (nonlinear_arith)
        requires
            0 < count,
            sum <= 255 * count,
    ;
    lemma_multiply_divide_lt(2 * sum + count, 2 * count, 256);
}

/// The rounded mean of `count` copies of one value is that value.
pub proof fn lemma_rounded_mean_of_copies(value: int, count: int)
    requires
        0 < count,
    ensures
        rounded_mean(count * value, count) == value,
{
    assert(2 * (count * value) + count == value * (2 * count) + count) by (nonlinear_arith);
    lemma_fundamental_div_mod_converse(2 * (count * value) + count, 2 * count, value, count);
}

/// The mean of a sequence in which every colour is `c` is `c`, with no
/// rounding error, however long the sequence is.
pub proof fn lemma_uniform_average(colors: Seq<Color>, c: Color)
    requires
        colors.len() > 0,
        forall|i: int| 0 <= i < colors.len() ==> colors[i] == c,
    ensures
        average_of(colors) == c,
{
    let n = colors.len() as int;
    lemma_uniform_channel_sum(colors, c, Channel::Red);
    lemma_uniform_channel_sum(colors, c, Channel::Green);
    lemma_uniform_channel_sum(colors, c, Channel::Blue);
    lemma_uniform_channel_sum(colors, c, Channel::Alpha);
    lemma_rounded_mean_of_copies(c.red as int, n);
    lemma_rounded_mean_of_copies(c.green as int, n);
    lemma_rounded_mean_of_copies(c.blue as int, n);
    lemma_rounded_mean_of_copies(c.alpha as int, n);
}

/// The channel sum of a sequence in which every colour is `c`.
proof fn lemma_uniform_channel_sum(colors: Seq<Color>, c: Color, ch: Channel)
    requires
        forall|i: int| 0 <= i < colors.len() ==> colors[i] == c,
    ensures
        channel_sum(colors, ch) == colors.len() * c.channel(ch),
    decreases colors.len(),
{
    if colors.len() > 0 {
        let front = colors.drop_last();
        lemma_uniform_channel_sum(front, c, ch);
        assert(front.push(colors.last()) =~= colors);
        lemma_channel_sum_push(front, colors.last(), ch);
        assert((front.len() + 1) * c.channel(ch) == front.len() * c.channel(ch) + c.channel(ch))
            by (nonlinear_arith);
    }
}

/// The mean does not depend on the order in which the colours are visited:
/// two sequences that hold the same colours, each as often, have the same
/// mean.
pub proof fn lemma_average_ignores_order(first: Seq<Color>, second: Seq<Color>)
    requires
        first.to_multiset() == second.to_multiset(),
    ensures
        average_of(first) == average_of(second),
{
    first.to_multiset_ensures();
    second.to_multiset_ensures();
    lemma_channel_sum_ignores_order(first, second, Channel::Red);
    lemma_channel_sum_ignores_order(first, second, Channel::Green);
    lemma_channel_sum_ignores_order(first, second, Channel::Blue);
    lemma_channel_sum_ignores_order(first, second, Channel::Alpha);
}

/// A channel sum does not depend on the order of the colours.
proof fn lemma_channel_sum_ignores_order(first: Seq<Color>, second: Seq<Color>, ch: Channel)
    requires
        first.to_multiset() == second.to_multiset(),
    ensures
        channel_sum(first, ch) == channel_sum(second, ch),
{
    let f = |acc: int, c: Color| acc + c.channel(ch);
    assert(commutative_foldl(f));
    lemma_fold_left_permutation(first, second, f, 0int);
}

/// Where in [`block_pixels`] the pixel `(x, y)` of a rectangle stands.
pub proof fn lemma_block_pixel_position(img: DynamicImage, rect: Rect, x: int, y: int)
    requires
        rect.contains(x, y),
    ensures
        0 <= (y - rect.top) * rect.width() + (x - rect.left) < rect.area(),
        block_pixels(img, rect)[(y - rect.top) * rect.width() + (x - rect.left)] == pixel_at(
            img,
            x,
            y,
        ),
{
    let w = rect.width() as int;
    let h = rect.height() as int;
    let row = y - rect.top;
    let col = x - rect.left;
    let k = row * w + col;
    assert(0 <= k < w * h) by (nonlinear_arith)
        requires
            0 <= row < h,
            0 <= col < w,
            k == row * w + col,
    ;
    lemma_fundamental_div_mod_converse(k, w, row, col);
}

/// Every colour of [`block_pixels`] is a pixel of the rectangle.
pub proof fn lemma_block_pixel_source(img: DynamicImage, rect: Rect, k: int)
    requires
        0 <= k < rect.area(),
    ensures
        rect.contains(rect.left + k % (rect.width() as int), rect.top + k / (rect.width() as int)),
        block_pixels(img, rect)[k] == pixel_at(
            img,
            rect.left + k % (rect.width() as int),
            rect.top + k / (rect.width() as int),
        ),
{
    let w = rect.width() as int;
    let h = rect.height() as int;
    assert(w > 0 && h > 0) by (nonlinear_arith)
        requires
            0 <= k < w * h,
            0 <= w,
            0 <= h,
    ;
    lemma_mod_pos_bound(k, w);
    lemma_div_pos_is_pos(k, w);
    lemma_multiply_divide_lt(k, w, h);
}

/// The mean of a rectangle whose every pixel has the colour `c` is `c`,
/// whatever the size of the rectangle.
pub proof fn lemma_uniform_block_average(img: DynamicImage, rect: Rect, c: Color)
    requires
        !rect.is_empty(),
        forall|x: int, y: int| rect.contains(x, y) ==> pixel_at(img, x, y) == c,
    ensures
        average_of(block_pixels(img, rect)) == c,
{
    let colors = block_pixels(img, rect);
    assert(rect.area() > 0) by (nonlinear_arith)
        requires
            rect.width() > 0,
            rect.height() > 0,
            rect.area() == rect.width() * rect.height(),
    ;
    assert forall|k: int| 0 <= k < colors.len() implies colors[k] == c by {
        lemma_block_pixel_source(img, rect, k);
    }
    lemma_uniform_average(colors, c);
}

/// Rounds `sum / count` to the nearest integer, a half rounded up.
fn mean_channel(sum: u128, count: u64) -> (m: u8)
    requires
        0 < count,
        sum <= 255 * count,
    ensures
        m == rounded_mean(sum as int, count as int),
{
    proof {
        lemma_rounded_mean_bounds(sum as int, count as int);
    }
    let m: u128 = (2 * sum + count as u128) / (2 * count as u128);
    m as u8
}

/// Computes the mean colour of a rectangle of a grid.
///
/// Each channel is summed over the pixels of the rectangle, divided by their
/// number and rounded to the nearest integer, a half rounded up. A rectangle
/// without pixels has no mean.
pub fn average_color(img: &DynamicImage, rect: &Rect) -> (r: Result<Color, MosaicError>)
    requires
        rect.within(*img),
    ensures
        rect.is_empty() ==> r == Err::<Color, MosaicError>(MosaicError::EmptyRegion),
        !rect.is_empty() ==> r == Ok::<Color, MosaicError>(average_of(block_pixels(*img, *rect))),
{
    if rect.left >= rect.right || rect.top >= rect.bottom {
        return Err(MosaicError::EmptyRegion);
    }
    let ghost colors = block_pixels(*img, *rect);
    let ghost w = rect.width() as int;
    let ghost h = rect.height() as int;
    let mut red: u128 = 0;
    let mut green: u128 = 0;
    let mut blue: u128 = 0;
    let mut alpha: u128 = 0;
    let mut count: u64 = 0;
    let mut y: u32 = rect.top;
    while y < rect.bottom
        invariant
            rect.within(*img),
            !rect.is_empty(),
            colors == block_pixels(*img, *rect),
            w == rect.width(),
            h == rect.height(),
            rect.top <= y <= rect.bottom,
            count == (y - rect.top) * w,
            red == channel_sum(colors.take(count as int), Channel::Red),
            green == channel_sum(colors.take(count as int), Channel::Green),
            blue == channel_sum(colors.take(count as int), Channel::Blue),
            alpha == channel_sum(colors.take(count as int), Channel::Alpha),
        decreases rect.bottom - y,
    {
        let mut x: u32 = rect.left;
        while x < rect.right
            invariant
                rect.within(*img),
                !rect.is_empty(),
                colors == block_pixels(*img, *rect),
                w == rect.width(),
                h == rect.height(),
                rect.top <= y < rect.bottom,
                rect.left <= x <= rect.right,
                count == (y - rect.top) * w + (x - rect.left),
                red == channel_sum(colors.take(count as int), Channel::Red),
                green == channel_sum(colors.take(count as int), Channel::Green),
                blue == channel_sum(colors.take(count as int), Channel::Blue),
                alpha == channel_sum(colors.take(count as int), Channel::Alpha),
            decreases rect.right - x,
        {
            let c = get_pixel(img, x, y);
            proof {
                let k = count as int;
                lemma_block_pixel_position(*img, *rect, x as int, y as int);
                assert(colors.len() == w * h);
                assert(w * h <= 0xffff_ffff * 0xffff_ffff) by (nonlinear_arith)
                    requires
                        0 <= w <= 0xffff_ffff,
                        0 <= h <= 0xffff_ffff,
                ;
                assert(colors.take(k + 1) =~= colors.take(k).push(c));
                lemma_channel_sum_push(colors.take(k), c, Channel::Red);
                lemma_channel_sum_push(colors.take(k), c, Channel::Green);
                lemma_channel_sum_push(colors.take(k), c, Channel::Blue);
                lemma_channel_sum_push(colors.take(k), c, Channel::Alpha);
                lemma_channel_sum_bounds(colors.take(k), Channel::Red);
                lemma_channel_sum_bounds(colors.take(k), Channel::Green);
                lemma_channel_sum_bounds(colors.take(k), Channel::Blue);
                lemma_channel_sum_bounds(colors.take(k), Channel::Alpha);
            }
            red = red + c.red as u128;
            green = green + c.green as u128;
            blue = blue + c.blue as u128;
            alpha = alpha + c.alpha as u128;
            count = count + 1;
            x = x + 1;
        }
        proof {
            assert((y - rect.top) * w + w == (y + 1 - rect.top) * w) by (nonlinear_arith);
        }
        y = y + 1;
    }
    proof {
        assert(count == h * w);
        assert(h * w == w * h) by (nonlinear_arith);
        assert(count > 0) by (nonlinear_arith)
            requires
                count == h * w,
                h > 0,
                w > 0,
        ;
        assert(colors.take(count as int) =~= colors);
        lemma_channel_sum_bounds(colors, Channel::Red);
        lemma_channel_sum_bounds(colors, Channel::Green);
        lemma_channel_sum_bounds(colors, Channel::Blue);
        lemma_channel_sum_bounds(colors, Channel::Alpha);
    }
    Ok(
        Color {
            red: mean_channel(red, count),
            green: mean_channel(green, count),
            blue: mean_channel(blue, count),
            alpha: mean_channel(alpha, count),
        },
    )
}

} // verus!
