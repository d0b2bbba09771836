//! Colours of four 8-bit channels, and the distance between two RGB triples.

use vstd::prelude::*;
use vstd::arithmetic::power::pow;
use num_traits::pow::Pow;

verus! {

/// One of the four channels of a colour.
#[derive(Clone, Copy, Debug, PartialEq, Eq, Structural)]
pub enum Channel {
    Red,
    Green,
    Blue,
    Alpha,
}

/// A colour with an alpha channel.
#[derive(Clone, Copy, Debug, PartialEq, Eq, Structural)]
pub struct Color {
    pub red: u8,
    pub green: u8,
    pub blue: u8,
    pub alpha: u8,
}

impl Color {
    /// The value of one channel.
    pub open spec fn channel(self, ch: Channel) -> u8 {
        match ch {
            Channel::Red => self.red,
            Channel::Green => self.green,
            Channel::Blue => self.blue,
            Channel::Alpha => self.alpha,
        }
    }

    /// The colour without its alpha channel.
    pub open spec fn rgb(self) -> (u8, u8, u8) {
        (self.red, self.green, self.blue)
    }

    /// The colour with the given RGB triple and alpha.
    pub open spec fn from_rgb(rgb: (u8, u8, u8), alpha: u8) -> Color {
        Color { red: rgb.0, green: rgb.1, blue: rgb.2, alpha }
    }

    /// Drops the alpha channel.
    pub fn to_rgb(&self) -> (rgb: (u8, u8, u8))
        ensures
            rgb == self.rgb(),
    {
        (self.red, self.green, self.blue)
    }

    /// Puts an RGB triple and an alpha value together.
    pub fn with_alpha(rgb: (u8, u8, u8), alpha: u8) -> (c: Color)
        ensures
            c == Color::from_rgb(rgb, alpha),
    {
        Color { red: rgb.0, green: rgb.1, blue: rgb.2, alpha }
    }
}

/// The square of the Euclidean distance between two RGB triples.
///
/// Distances are non-negative, so one triple is nearer to a colour than another
/// exactly when its squared distance is smaller; comparing squares keeps the
/// arithmetic in the integers.
pub open spec fn distance_squared(a: (u8, u8, u8), b: (u8, u8, u8)) -> int {
    (a.0 - b.0) * (a.0 - b.0) + (a.1 - b.1) * (a.1 - b.1) + (a.2 - b.2) * (a.2 - b.2)
}

/// `num_traits::pow::Pow::pow` for an `i32` base and a `u32` exponent, which
/// is `i32::pow`: the base raised to the exponent. Taken on trust. The
/// precondition keeps the power inside `i32`, where no step overflows.
#[verifier::external_body]
fn int_pow(base: i32, exp: u32) -> (r: i32)
    requires
        i32::MIN <= pow(base as int, exp as nat) <= i32::MAX,
    ensures
        r == pow(base as int, exp as nat),
{
    Pow::pow(base, exp)
}

/// The square of a difference of two channel values.
fn square_of_difference(p: u8, q: u8) -> (s: u32)
    ensures
        s == (p - q) * (p - q),
        s <= 65025,
{
    let d: i32 = p as i32 - q as i32;
    proof {
        reveal_with_fuel(pow, 3);
        assert(pow(d as int, 2) == d * d) by (nonlinear_arith)
            requires
                pow(d as int, 2) == d * (d * 1),
        ;
        assert(0 <= d * d <= 65025) by (nonlinear_arith)
            requires
                -255 <= d <= 255,
        ;
    }
    let s: i32 = int_pow(d, 2);
    s as u32
}

/// Computes [`distance_squared`].
pub fn squared_distance(a: (u8, u8, u8), b: (u8, u8, u8)) -> (d: u32)
    ensures
        d == distance_squared(a, b),
{
    let dr: u32 = square_of_difference(a.0, b.0);
    let dg: u32 = square_of_difference(a.1, b.1);
    let db: u32 = square_of_difference(a.2, b.2);
    dr + dg + db
}

} // verus!
