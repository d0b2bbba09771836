//! Brick mosaics.
//!
//! A picture is cut into square blocks. Each block is replaced by one flat
//! colour: the mean of its pixels, or the brick colour nearest to that mean.
//! Pictures are `image::DynamicImage` values; everything this crate does to
//! them is stated over [`grid::grid_extent`] and [`grid::grid_pixels`].

pub mod average;
pub mod color;
pub mod error;
pub mod grid;
pub mod palette;
pub mod render;
pub mod tiling;
