//! Cropping a grid to whole blocks, and the blocks that tile what is left.

use vstd::prelude::*;
use vstd::arithmetic::div_mod::{
    lemma_fundamental_div_mod, lemma_fundamental_div_mod_converse, lemma_mod_pos_bound,
};
use crate::average::Rect;

verus! {

/// The side of a block, in pixels, where none is given.
pub const BLOCK_SIZE: u32 = 8;

/// The largest length up to `n` that is a whole number of blocks of side `b`.
pub open spec fn cropped(n: int, b: int) -> int {
    n - n % b
}

/// The number of blocks of side `b` that fit into a length `n`.
pub open spec fn block_count(n: int, b: int) -> int {
    cropped(n, b) / b
}

/// The block in column `i` and row `j` of the tiling with blocks of side `b`.
pub open spec fn block_rect(i: int, j: int, b: int) -> Rect {
    Rect {
        left: (i * b) as u32,
        top: (j * b) as u32,
        right: (i * b + b) as u32,
        bottom: (j * b + b) as u32,
    }
}

/// Whether `(i, j)` is one of the blocks into which a grid of `width` by
/// `height` pixels is cut.
pub open spec fn is_block(width: int, height: int, b: int, i: int, j: int) -> bool {
    0 <= i < block_count(width, b) && 0 <= j < block_count(height, b)
}

/// Whether the pixel `(x, y)` is left after a grid of `width` by `height`
/// pixels is cropped to whole blocks.
pub open spec fn in_cropped(width: int, height: int, b: int, x: int, y: int) -> bool {
    0 <= x < cropped(width, b) && 0 <= y < cropped(height, b)
}

/// A cropped length is a multiple of the block side, not longer than the
/// length it was cropped from, and shorter by less than one block.
pub proof fn lemma_cropped_is_aligned(n: int, b: int)
    requires
        0 <= n,
        0 < b,
    ensures
        0 <= cropped(n, b) <= n,
        n - cropped(n, b) < b,
        cropped(n, b) % b == 0,
        cropped(n, b) == block_count(n, b) * b,
        block_count(n, b) == n / b,
{
    lemma_mod_pos_bound(n, b);
    lemma_fundamental_div_mod(n, b);
    assert(cropped(n, b) == (n / b) * b) by (nonlinear_arith)
        requires
            n == b * (n / b) + n % b,
            cropped(n, b) == n - n % b,
    ;
    lemma_fundamental_div_mod_converse(cropped(n, b), b, n / b, 0);
}

/// Cropping changes nothing on a length that is a whole number of blocks, so
/// cropping twice gives what cropping once gives.
pub proof fn lemma_crop_is_idempotent(n: int, b: int)
    requires
        0 <= n,
        0 < b,
    ensures
        n % b == 0 ==> cropped(n, b) == n,
        cropped(cropped(n, b), b) == cropped(n, b),
{
    lemma_cropped_is_aligned(n, b);
}

/// Where the block with index `i` along one axis begins and ends.
pub proof fn lemma_block_span(n: int, b: int, i: int)
    requires
        0 <= n,
        0 < b,
        0 <= i < block_count(n, b),
    ensures
        0 <= i * b,
        i * b + b <= cropped(n, b),
        cropped(n, b) <= n,
{
    lemma_cropped_is_aligned(n, b);
    assert(0 <= i * b && i * b + b <= block_count(n, b) * b) by (nonlinear_arith)
        requires
            0 <= i < block_count(n, b),
            0 < b,
    ;
}

/// A coordinate `x` lies in the block with index `i` exactly when `i` is
/// `x / b`.
pub proof fn lemma_block_index(b: int, i: int, x: int)
    requires
        0 < b,
        0 <= x,
    ensures
        i * b <= x < i * b + b <==> i == x / b,
{
    lemma_fundamental_div_mod(x, b);
    lemma_mod_pos_bound(x, b);
    if i * b <= x < i * b + b {
        lemma_fundamental_div_mod_converse(x, b, i, x - i * b);
    }
    if i == x / b {
        assert(i * b == b * (x / b)) by (nonlinear_arith)
            requires
                i == x / b,
        ;
    }
}

/// The blocks tile the cropped grid: they leave no gap, they do not overlap,
/// and they do not reach beyond it.
///
/// For a grid of `width` by `height` pixels and blocks of side `b`: every
/// pixel `(x, y)` of the cropped grid lies in the block `(x / b, y / b)`, which
/// is one of the blocks; and a block `(i, j)` that holds `(x, y)` is that
/// block, and `(x, y)` is a pixel of the cropped grid.
pub proof fn lemma_blocks_tile(width: u32, height: u32, b: u32, x: int, y: int, i: int, j: int)
    requires
        0 < b,
    ensures
        in_cropped(width as int, height as int, b as int, x, y) ==> {
            &&& is_block(width as int, height as int, b as int, x / (b as int), y / (b as int))
            &&& block_rect(x / (b as int), y / (b as int), b as int).contains(x, y)
        },
        is_block(width as int, height as int, b as int, i, j) && block_rect(
            i,
            j,
            b as int,
        ).contains(x, y) ==> {
            &&& in_cropped(width as int, height as int, b as int, x, y)
            &&& i == x / (b as int)
            &&& j == y / (b as int)
        },
{
    let w = width as int;
    let h = height as int;
    let s = b as int;
    lemma_cropped_is_aligned(w, s);
    lemma_cropped_is_aligned(h, s);
    if in_cropped(w, h, s, x, y) {
        lemma_axis_index_in_range(w, s, x);
        lemma_axis_index_in_range(h, s, y);
        lemma_block_span(w, s, x / s);
        lemma_block_span(h, s, y / s);
        lemma_block_index(s, x / s, x);
        lemma_block_index(s, y / s, y);
    }
    if is_block(w, h, s, i, j) && block_rect(i, j, s).contains(x, y) {
        lemma_block_span(w, s, i);
        lemma_block_span(h, s, j);
        lemma_block_index(s, i, x);
        lemma_block_index(s, j, y);
    }
}

/// A coordinate of the cropped length lies in one of its blocks.
proof fn lemma_axis_index_in_range(n: int, b: int, x: int)
    requires
        0 <= n,
        0 < b,
        0 <= x < cropped(n, b),
    ensures
        0 <= x / b < block_count(n, b),
{
    lemma_cropped_is_aligned(n, b);
    lemma_fundamental_div_mod(x, b);
    lemma_mod_pos_bound(x, b);
    assert(0 <= x / b < block_count(n, b)) by (nonlinear_arith)
        requires
            0 < b,
            0 <= x < block_count(n, b) * b,
            x == b * (x / b) + x % b,
            0 <= x % b < b,
    ;
}

/// Crops one length to whole blocks.
pub fn crop_length(n: u32, b: u32) -> (c: u32)
    requires
        0 < b,
    ensures
        c == cropped(n as int, b as int),
{
    proof {
        lemma_cropped_is_aligned(n as int, b as int);
    }
    n - n % b
}

/// Crops the size of a grid to whole blocks: from each of width and height,
/// what is left over after the last whole block is taken off.
pub fn crop_bounds(width: u32, height: u32, b: u32) -> (bounds: (u32, u32))
    requires
        0 < b,
    ensures
        bounds.0 == cropped(width as int, b as int),
        bounds.1 == cropped(height as int, b as int),
{
    (crop_length(width, b), crop_length(height, b))
}

/// Builds the block in column `i` and row `j` of the tiling.
pub fn block_at(i: u32, j: u32, b: u32) -> (rect: Rect)
    requires
        i * b + b <= u32::MAX,
        j * b + b <= u32::MAX,
    ensures
        rect == block_rect(i as int, j as int, b as int),
{
    assert(0 <= i * b && 0 <= j * b) by (nonlinear_arith);
    let left: u32 = i * b;
    let top: u32 = j * b;
    Rect { left, top, right: left + b, bottom: top + b }
}

} // verus!
