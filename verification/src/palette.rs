//! The brick palette and the search for the brick nearest to a colour.

use vstd::prelude::*;
use crate::color::{distance_squared, squared_distance, Color};
use crate::error::MosaicError;

verus! {

/// A brick colour that can be bought: its catalogue number, its name and its
/// RGB triple.
#[derive(Clone, Copy, Debug, PartialEq, Eq)]
pub struct ColorBrick {
    pub id: u32,
    pub name: &'static str,
    pub color: (u8, u8, u8),
}

/// The twelve brick colours of the reference palette, in their fixed order.
pub open spec fn reference_bricks() -> Seq<ColorBrick> {
    seq![
        ColorBrick { id: 4210719, name: "Dark stone grey", color: (99, 95, 97) },
        ColorBrick { id: 302426, name: "Black", color: (27, 42, 52) },
        ColorBrick { id: 4184108, name: "Earth Blue", color: (32, 58, 86) },
        ColorBrick { id: 302424, name: "Bright Yellow", color: (245, 205, 47) },
        ColorBrick { id: 4211399, name: "Medium Stone Grey", color: (163, 162, 164) },
        ColorBrick { id: 4221744, name: "Reddish Brown", color: (105, 64, 39) },
        ColorBrick { id: 302423, name: "Bright Blue", color: (13, 105, 171) },
        ColorBrick { id: 302421, name: "Bright Red", color: (196, 40, 27) },
        ColorBrick { id: 302401, name: "White", color: (242, 243, 242) },
        ColorBrick { id: 4159553, name: "Brick Yellow", color: (215, 197, 153) },
        ColorBrick { id: 4524929, name: "Bright Orange", color: (218, 133, 64) },
        ColorBrick { id: 302428, name: "Dark Green", color: (40, 127, 70) },
    ]
}

/// Builds the reference palette.
pub fn reference_palette() -> (palette: Vec<ColorBrick>)
    ensures
        palette@ == reference_bricks(),
{
    let palette = vec![
        ColorBrick { id: 4210719, name: "Dark stone grey", color: (99, 95, 97) },
        ColorBrick { id: 302426, name: "Black", color: (27, 42, 52) },
        ColorBrick { id: 4184108, name: "Earth Blue", color: (32, 58, 86) },
        ColorBrick { id: 302424, name: "Bright Yellow", color: (245, 205, 47) },
        ColorBrick { id: 4211399, name: "Medium Stone Grey", color: (163, 162, 164) },
        ColorBrick { id: 4221744, name: "Reddish Brown", color: (105, 64, 39) },
        ColorBrick { id: 302423, name: "Bright Blue", color: (13, 105, 171) },
        ColorBrick { id: 302421, name: "Bright Red", color: (196, 40, 27) },
        ColorBrick { id: 302401, name: "White", color: (242, 243, 242) },
        ColorBrick { id: 4159553, name: "Brick Yellow", color: (215, 197, 153) },
        ColorBrick { id: 4524929, name: "Bright Orange", color: (218, 133, 64) },
        ColorBrick { id: 302428, name: "Dark Green", color: (40, 127, 70) },
    ];
    assert(palette@ =~= reference_bricks());
    palette
}

/// Whether brick `i` is the nearest of the first `n` bricks: no brick before
/// it is as near to `color`, and none after it is nearer.
pub open spec fn is_nearest_among(
    color: (u8, u8, u8),
    bricks: Seq<ColorBrick>,
    n: int,
    i: int,
) -> bool {
    &&& 0 <= i < n <= bricks.len()
    &&& forall|j: int|
        0 <= j < i ==> distance_squared(color, bricks[i].color) < distance_squared(
            color,
            #[trigger] bricks[j].color,
        )
    &&& forall|j: int|
        i < j < n ==> distance_squared(color, bricks[i].color) <= distance_squared(
            color,
            #[trigger] bricks[j].color,
        )
}

/// Whether brick `i` is the nearest brick of the palette to `color`: the first
/// one, in the palette's order, at the smallest distance.
pub open spec fn is_nearest(color: (u8, u8, u8), bricks: Seq<ColorBrick>, i: int) -> bool {
    is_nearest_among(color, bricks, bricks.len() as int, i)
}

/// The index of the nearest brick of a palette that is not empty.
pub open spec fn nearest_index(color: (u8, u8, u8), bricks: Seq<ColorBrick>) -> int {
    choose|i: int| is_nearest(color, bricks, i)
}

/// Among the first `n` bricks, `n` positive, one is the nearest.
proof fn lemma_nearest_among_exists(color: (u8, u8, u8), bricks: Seq<ColorBrick>, n: int) -> (i: int)
    requires
        0 < n <= bricks.len(),
    ensures
        is_nearest_among(color, bricks, n, i),
    decreases n,
{
    if n == 1 {
        0
    } else {
        let i = lemma_nearest_among_exists(color, bricks, n - 1);
        if distance_squared(color, bricks[n - 1].color) < distance_squared(color, bricks[i].color) {
            n - 1
        } else {
            i
        }
    }
}

/// Every palette that is not empty has exactly one nearest brick to each
/// colour, and [`nearest_index`] is that brick.
pub proof fn lemma_nearest_is_unique(color: (u8, u8, u8), bricks: Seq<ColorBrick>, i: int)
    requires
        bricks.len() > 0,
    ensures
        is_nearest(color, bricks, nearest_index(color, bricks)),
        is_nearest(color, bricks, i) ==> i == nearest_index(color, bricks),
{
    let w = lemma_nearest_among_exists(color, bricks, bricks.len() as int);
    assert(is_nearest(color, bricks, w));
    let k = nearest_index(color, bricks);
    assert(is_nearest(color, bricks, k));
    if is_nearest(color, bricks, i) && i != k {
        if i < k {
            assert(distance_squared(color, bricks[k].color) < distance_squared(
                color,
                bricks[i].color,
            ));
            assert(distance_squared(color, bricks[i].color) <= distance_squared(
                color,
                bricks[k].color,
            ));
        } else {
            assert(distance_squared(color, bricks[i].color) < distance_squared(
                color,
                bricks[k].color,
            ));
            assert(distance_squared(color, bricks[k].color) <= distance_squared(
                color,
                bricks[i].color,
            ));
        }
    }
}

/// Of two bricks at the same distance from a colour, the later one in the
/// palette's order is never the nearest: a tie goes to the earlier brick.
pub proof fn lemma_tie_goes_to_earlier(color: (u8, u8, u8), bricks: Seq<ColorBrick>, i: int, j: int)
    requires
        0 <= i < j < bricks.len(),
        distance_squared(color, bricks[i].color) == distance_squared(color, bricks[j].color),
    ensures
        nearest_index(color, bricks) != j,
        !is_nearest(color, bricks, j),
{
    lemma_nearest_is_unique(color, bricks, j);
    if is_nearest(color, bricks, j) {
        assert(distance_squared(color, bricks[j].color) < distance_squared(
            color,
            bricks[i].color,
        ));
    }
}

/// Finds the index of the brick nearest to `color`, alpha left aside.
///
/// The palette is walked in its order, and a brick replaces the best one so
/// far only where it is strictly nearer.
pub fn nearest_position(color: &Color, palette: &[ColorBrick]) -> (r: Result<usize, MosaicError>)
    ensures
        palette@.len() == 0 ==> r == Err::<usize, MosaicError>(MosaicError::EmptyPalette),
        palette@.len() > 0 ==> r == Ok::<usize, MosaicError>(
            nearest_index(color.rgb(), palette@) as usize,
        ),
        palette@.len() > 0 ==> is_nearest(color.rgb(), palette@, nearest_index(color.rgb(), palette@)),
{
    if palette.len() == 0 {
        return Err(MosaicError::EmptyPalette);
    }
    let rgb = color.to_rgb();
    let mut best: usize = 0;
    let mut best_distance: u32 = squared_distance(rgb, palette[0].color);
    let mut i: usize = 1;
    while i < palette.len()
        invariant
            1 <= i <= palette@.len(),
            rgb == color.rgb(),
            is_nearest_among(rgb, palette@, i as int, best as int),
            best_distance == distance_squared(rgb, palette@[best as int].color),
        decreases palette@.len() - i,
    {
        let d: u32 = squared_distance(rgb, palette[i].color);
        if d < best_distance {
            best = i;
            best_distance = d;
        }
        i += 1;
    }
    proof {
        lemma_nearest_is_unique(rgb, palette@, best as int);
    }
    Ok(best)
}

/// Finds the brick nearest to `color`, alpha left aside.
pub fn nearest(color: &Color, palette: &[ColorBrick]) -> (r: Result<ColorBrick, MosaicError>)
    ensures
        palette@.len() == 0 ==> r == Err::<ColorBrick, MosaicError>(MosaicError::EmptyPalette),
        palette@.len() > 0 ==> r == Ok::<ColorBrick, MosaicError>(
            palette@[nearest_index(color.rgb(), palette@)],
        ),
{
    match nearest_position(color, palette) {
        Ok(i) => Ok(palette[i]),
        Err(e) => Err(e),
    }
}

} // verus!
