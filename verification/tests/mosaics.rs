use brick_mosaic::average::Rect;
use brick_mosaic::color::Color;
use brick_mosaic::error::MosaicError;
use brick_mosaic::grid::{blank_grid, buffer_fits, pixel};
use brick_mosaic::palette::{reference_palette, ColorBrick};
use brick_mosaic::render::{
    crop_extent, fill_color, flatten_colors, paint_block, render, AlphaPolicy, Mode,
};
use brick_mosaic::tiling::{block_at, crop_bounds, crop_length, BLOCK_SIZE};
use image::{DynamicImage, GenericImageView, Rgb, RgbImage, Rgba, RgbaImage};

fn flat(width: u32, height: u32, pixel: [u8; 4]) -> DynamicImage {
    DynamicImage::ImageRgba8(RgbaImage::from_pixel(width, height, Rgba(pixel)))
}

fn snap(alpha: AlphaPolicy) -> Mode {
    Mode::Palette { bricks: reference_palette(), alpha }
}

fn assert_all_pixels(img: &DynamicImage, left: u32, top: u32, right: u32, bottom: u32, pixel: [u8; 4]) {
    for y in top..bottom {
        for x in left..right {
            assert_eq!(img.get_pixel(x, y), Rgba(pixel), "at ({}, {})", x, y);
        }
    }
}

#[test]
fn block_size_is_eight() {
    assert_eq!(BLOCK_SIZE, 8);
}

#[test]
fn crop_length_drops_the_remainder() {
    assert_eq!(crop_length(0, 8), 0);
    assert_eq!(crop_length(7, 8), 0);
    assert_eq!(crop_length(8, 8), 8);
    assert_eq!(crop_length(9, 8), 8);
    assert_eq!(crop_length(15, 8), 8);
    assert_eq!(crop_length(16, 8), 16);
    assert_eq!(crop_length(1023, 8), 1016);
    assert_eq!(crop_length(10, 3), 9);
    assert_eq!(crop_length(10, 1), 10);
    assert_eq!(crop_length(u32::MAX, 8), u32::MAX - 7);
    assert_eq!(crop_length(5, u32::MAX), 0);
}

#[test]
fn crop_bounds_crops_each_side() {
    assert_eq!(crop_bounds(10, 10, 8), (8, 8));
    assert_eq!(crop_bounds(9, 16, 8), (8, 16));
    assert_eq!(crop_bounds(16, 16, 8), (16, 16));
    assert_eq!(crop_bounds(7, 100, 8), (0, 96));
    assert_eq!(crop_bounds(100, 7, 8), (96, 0));
    assert_eq!(crop_bounds(0, 0, 8), (0, 0));
}

#[test]
fn crop_twice_is_crop_once() {
    for b in [1u32, 2, 3, 8, 10] {
        for w in 0..40u32 {
            let (cw, ch) = crop_bounds(w, 2 * w + 1, b);
            assert_eq!(crop_bounds(cw, ch, b), (cw, ch));
        }
    }
    assert_eq!(crop_bounds(640, 480, 8), (640, 480));
}

#[test]
fn crop_extent_reads_the_size_of_the_grid() {
    assert_eq!(crop_extent(&flat(21, 13, [0, 0, 0, 0]), 8), (16, 8));
    assert_eq!(crop_extent(&flat(21, 13, [0, 0, 0, 0]), 1), (21, 13));
    assert_eq!(crop_extent(&flat(21, 13, [0, 0, 0, 0]), 5), (20, 10));
    assert_eq!(crop_extent(&DynamicImage::new_rgba8(0, 3), 2), (0, 2));
}

#[test]
fn block_at_gives_the_rectangle_of_a_block() {
    assert_eq!(block_at(0, 0, 8), Rect { left: 0, top: 0, right: 8, bottom: 8 });
    assert_eq!(block_at(1, 0, 8), Rect { left: 8, top: 0, right: 16, bottom: 8 });
    assert_eq!(block_at(0, 1, 8), Rect { left: 0, top: 8, right: 8, bottom: 16 });
    assert_eq!(block_at(3, 5, 4), Rect { left: 12, top: 20, right: 16, bottom: 24 });
}

#[test]
fn blocks_tile_the_cropped_grid() {
    for (width, height, b) in [(16u32, 16u32, 8u32), (10, 10, 8), (9, 16, 8), (23, 7, 3), (5, 5, 8), (12, 9, 1)] {
        let (cw, ch) = crop_bounds(width, height, b);
        let mut hits = vec![0u32; (cw * ch) as usize];
        for i in 0..cw / b {
            for j in 0..ch / b {
                let r = block_at(i, j, b);
                assert!(r.right <= cw && r.bottom <= ch);
                assert_eq!((r.right - r.left, r.bottom - r.top), (b, b));
                for y in r.top..r.bottom {
                    for x in r.left..r.right {
                        assert_eq!((x / b, y / b), (i, j));
                        hits[(y * cw + x) as usize] += 1;
                    }
                }
            }
        }
        assert!(hits.iter().all(|&n| n == 1));
    }
}

#[test]
fn buffer_fits_for_sizes_that_can_be_allocated() {
    assert!(buffer_fits(0, 0));
    assert!(buffer_fits(16, 16));
    assert!(buffer_fits(u32::MAX, 0));
    assert!(buffer_fits(0, u32::MAX));
    assert!(!buffer_fits(u32::MAX, u32::MAX));
    assert_eq!(buffer_fits(1 << 31, 1 << 30), 4u128 << 61 <= isize::MAX as u128);
    assert_eq!(buffer_fits(1 << 15, 1 << 14), 4u128 << 29 <= isize::MAX as u128);
}

#[test]
fn fill_color_in_plain_mode_is_the_average() {
    let c = Color { red: 200, green: 50, blue: 50, alpha: 17 };
    assert_eq!(fill_color(&Mode::Plain, &c), Ok(c));
    let d = Color { red: 1, green: 2, blue: 3, alpha: 0 };
    assert_eq!(fill_color(&Mode::Plain, &d), Ok(d));
}

#[test]
fn fill_color_in_palette_mode_is_the_nearest_brick() {
    let c = Color { red: 200, green: 50, blue: 50, alpha: 17 };
    assert_eq!(
        fill_color(&snap(AlphaPolicy::Carry), &c),
        Ok(Color { red: 196, green: 40, blue: 27, alpha: 17 })
    );
    assert_eq!(
        fill_color(&snap(AlphaPolicy::Opaque), &c),
        Ok(Color { red: 196, green: 40, blue: 27, alpha: 255 })
    );
}

#[test]
fn fill_color_without_bricks_fails() {
    let c = Color { red: 200, green: 50, blue: 50, alpha: 17 };
    let mode = Mode::Palette { bricks: Vec::new(), alpha: AlphaPolicy::Carry };
    assert_eq!(fill_color(&mode, &c), Err(MosaicError::EmptyPalette));
}

#[test]
fn paint_block_paints_the_rectangle_and_nothing_else() {
    let mut img = flat(6, 5, [1, 2, 3, 4]);
    paint_block(&mut img, &Rect { left: 2, top: 1, right: 5, bottom: 3 }, Color { red: 9, green: 8, blue: 7, alpha: 6 });
    assert_eq!(img.dimensions(), (6, 5));
    for y in 0..5 {
        for x in 0..6 {
            let inside = 2 <= x && x < 5 && 1 <= y && y < 3;
            let expected = if inside { Rgba([9, 8, 7, 6]) } else { Rgba([1, 2, 3, 4]) };
            assert_eq!(img.get_pixel(x, y), expected, "at ({}, {})", x, y);
        }
    }
}

#[test]
fn paint_block_of_an_empty_rectangle_changes_nothing() {
    let mut img = flat(4, 4, [1, 2, 3, 4]);
    paint_block(&mut img, &Rect { left: 2, top: 2, right: 2, bottom: 4 }, Color { red: 9, green: 8, blue: 7, alpha: 6 });
    paint_block(&mut img, &Rect { left: 3, top: 3, right: 1, bottom: 1 }, Color { red: 9, green: 8, blue: 7, alpha: 6 });
    assert_eq!(img, flat(4, 4, [1, 2, 3, 4]));
}

#[test]
fn flat_red_image_becomes_bright_red() {
    let source = flat(16, 16, [200, 50, 50, 255]);
    let out = flatten_colors(&source);
    assert_eq!(out.dimensions(), (16, 16));
    assert_all_pixels(&out, 0, 0, 16, 16, [196, 40, 27, 255]);
    assert_eq!(out, flat(16, 16, [196, 40, 27, 255]));
}

#[test]
fn ten_by_ten_is_cropped_to_one_block() {
    let source = flat(10, 10, [200, 50, 50, 255]);
    let out = flatten_colors(&source);
    assert_eq!(out.dimensions(), (8, 8));
    assert_all_pixels(&out, 0, 0, 8, 8, [196, 40, 27, 255]);
    let plain = render(&source, 8, &Mode::Plain).unwrap();
    assert_eq!(plain.dimensions(), (8, 8));
}

#[test]
fn nine_by_sixteen_gives_two_stacked_blocks() {
    let mut source = RgbaImage::from_pixel(9, 16, Rgba([250, 250, 250, 255]));
    for y in 8..16 {
        for x in 0..9 {
            source.put_pixel(x, y, Rgba([30, 40, 50, 255]));
        }
    }
    let out = flatten_colors(&DynamicImage::ImageRgba8(source));
    assert_eq!(out.dimensions(), (8, 16));
    // White above, Black below.
    assert_all_pixels(&out, 0, 0, 8, 8, [242, 243, 242, 255]);
    assert_all_pixels(&out, 0, 8, 8, 16, [27, 42, 52, 255]);
}

#[test]
fn what_is_cropped_away_does_not_count() {
    let mut source = RgbaImage::from_pixel(10, 10, Rgba([200, 50, 50, 255]));
    for i in 0..10 {
        for k in 8..10 {
            source.put_pixel(k, i, Rgba([0, 255, 0, 255]));
            source.put_pixel(i, k, Rgba([0, 255, 0, 255]));
        }
    }
    let out = render(&DynamicImage::ImageRgba8(source), 8, &Mode::Plain).unwrap();
    assert_eq!(out, flat(8, 8, [200, 50, 50, 255]));
}

#[test]
fn every_pixel_of_a_brick_mosaic_has_a_brick_colour() {
    let mut source = RgbaImage::new(24, 16);
    for y in 0..16u32 {
        for x in 0..24u32 {
            source.put_pixel(x, y, Rgba([(x * 10) as u8, (y * 15) as u8, (x * y) as u8, (255 - x) as u8]));
        }
    }
    let out = flatten_colors(&DynamicImage::ImageRgba8(source));
    let palette = reference_palette();
    assert_eq!(out.dimensions(), (24, 16));
    for y in 0..16 {
        for x in 0..24 {
            let p = out.get_pixel(x, y);
            assert!(palette.iter().any(|b| b.color == (p.0[0], p.0[1], p.0[2])));
            assert_eq!(p, out.get_pixel(x / 8 * 8, y / 8 * 8));
        }
    }
}

#[test]
fn plain_mode_keeps_colours_that_are_no_brick() {
    let source = flat(8, 8, [1, 2, 3, 4]);
    let out = render(&source, 8, &Mode::Plain).unwrap();
    assert_eq!(out, flat(8, 8, [1, 2, 3, 4]));
    assert!(reference_palette().iter().all(|b| b.color != (1, 2, 3)));
}

#[test]
fn plain_mode_paints_each_block_in_its_mean() {
    let mut source = RgbaImage::new(4, 2);
    let pixels: [[u8; 4]; 8] = [
        [0, 0, 0, 0], [1, 2, 3, 4], [10, 10, 10, 10], [20, 20, 20, 20],
        [2, 4, 6, 8], [3, 6, 9, 12], [30, 30, 30, 30], [41, 42, 43, 45],
    ];
    for y in 0..2u32 {
        for x in 0..4u32 {
            source.put_pixel(x, y, Rgba(pixels[(y * 4 + x) as usize]));
        }
    }
    let out = render(&DynamicImage::ImageRgba8(source), 2, &Mode::Plain).unwrap();
    assert_eq!(out.dimensions(), (4, 2));
    // 6 / 4, 12 / 4, 18 / 4, 24 / 4
    assert_all_pixels(&out, 0, 0, 2, 2, [2, 3, 5, 6]);
    // 101 / 4, 102 / 4, 103 / 4, 105 / 4
    assert_all_pixels(&out, 2, 0, 4, 2, [25, 26, 26, 26]);
}

#[test]
fn palette_mode_carries_the_alpha_of_the_mean() {
    let source = flat(8, 8, [200, 50, 50, 99]);
    let out = render(&source, 8, &snap(AlphaPolicy::Carry)).unwrap();
    assert_eq!(out, flat(8, 8, [196, 40, 27, 99]));
    assert_eq!(flatten_colors(&source), flat(8, 8, [196, 40, 27, 99]));
}

#[test]
fn palette_mode_can_make_blocks_opaque() {
    let source = flat(8, 8, [200, 50, 50, 99]);
    let out = render(&source, 8, &snap(AlphaPolicy::Opaque)).unwrap();
    assert_eq!(out, flat(8, 8, [196, 40, 27, 255]));
}

#[test]
fn palette_mode_with_a_palette_of_its_own() {
    let bricks = vec![
        ColorBrick { id: 1, name: "night", color: (0, 0, 0) },
        ColorBrick { id: 2, name: "day", color: (255, 255, 255) },
    ];
    let mut source = RgbaImage::from_pixel(6, 3, Rgba([100, 100, 100, 255]));
    for y in 0..3 {
        for x in 3..6 {
            source.put_pixel(x, y, Rgba([200, 200, 200, 255]));
        }
    }
    let mode = Mode::Palette { bricks, alpha: AlphaPolicy::Carry };
    let out = render(&DynamicImage::ImageRgba8(source), 3, &mode).unwrap();
    assert_all_pixels(&out, 0, 0, 3, 3, [0, 0, 0, 255]);
    assert_all_pixels(&out, 3, 0, 6, 3, [255, 255, 255, 255]);
}

#[test]
fn a_grid_smaller_than_a_block_gives_an_empty_mosaic() {
    let out = flatten_colors(&flat(7, 7, [200, 50, 50, 255]));
    assert_eq!(out.dimensions(), (0, 0));
    let out = flatten_colors(&flat(7, 20, [200, 50, 50, 255]));
    assert_eq!(out.dimensions(), (0, 16));
    let out = render(&flat(20, 3, [200, 50, 50, 255]), 8, &Mode::Plain).unwrap();
    assert_eq!(out.dimensions(), (16, 0));
    let out = flatten_colors(&DynamicImage::new_rgba8(0, 0));
    assert_eq!(out.dimensions(), (0, 0));
}

#[test]
fn a_palette_without_bricks_fails_where_there_is_a_block() {
    let mode = Mode::Palette { bricks: Vec::new(), alpha: AlphaPolicy::Carry };
    let r = render(&flat(8, 8, [1, 2, 3, 4]), 8, &mode);
    assert_eq!(r.err(), Some(MosaicError::EmptyPalette));
    let r = render(&flat(30, 9, [1, 2, 3, 4]), 8, &mode);
    assert_eq!(r.err(), Some(MosaicError::EmptyPalette));
}

#[test]
fn a_palette_without_bricks_is_not_missed_where_there_is_no_block() {
    let mode = Mode::Palette { bricks: Vec::new(), alpha: AlphaPolicy::Carry };
    let out = render(&flat(7, 30, [1, 2, 3, 4]), 8, &mode).unwrap();
    assert_eq!(out.dimensions(), (0, 24));
    let out = render(&flat(30, 7, [1, 2, 3, 4]), 8, &mode).unwrap();
    assert_eq!(out.dimensions(), (24, 0));
}

#[test]
fn a_block_size_of_one_keeps_every_pixel() {
    let mut source = RgbaImage::new(3, 2);
    for y in 0..2u32 {
        for x in 0..3u32 {
            source.put_pixel(x, y, Rgba([x as u8, y as u8, 7, 200]));
        }
    }
    let source = DynamicImage::ImageRgba8(source);
    let out = render(&source, 1, &Mode::Plain).unwrap();
    assert_eq!(out, source);
}

#[test]
fn the_source_is_left_as_it_was() {
    let source = flat(16, 8, [200, 50, 50, 255]);
    let _ = flatten_colors(&source);
    assert_eq!(source, flat(16, 8, [200, 50, 50, 255]));
}

#[test]
fn an_rgb_source_gives_an_opaque_mosaic() {
    let source = DynamicImage::ImageRgb8(RgbImage::from_pixel(8, 8, Rgb([200, 50, 50])));
    let out = flatten_colors(&source);
    assert_eq!(out, flat(8, 8, [196, 40, 27, 255]));
}

#[test]
fn blank_grid_is_clear_and_of_the_size_asked_for() {
    let img = blank_grid(5, 3).unwrap();
    assert_eq!(img.dimensions(), (5, 3));
    assert_all_pixels(&img, 0, 0, 5, 3, [0, 0, 0, 0]);
    assert_eq!(img, DynamicImage::ImageRgba8(RgbaImage::new(5, 3)));
    assert_eq!(blank_grid(0, 9).unwrap().dimensions(), (0, 9));
}

#[test]
fn blank_grid_can_be_painted() {
    let mut img = blank_grid(4, 4).unwrap();
    paint_block(&mut img, &Rect { left: 0, top: 0, right: 2, bottom: 4 }, Color { red: 5, green: 6, blue: 7, alpha: 8 });
    assert_all_pixels(&img, 0, 0, 2, 4, [5, 6, 7, 8]);
    assert_all_pixels(&img, 2, 0, 4, 4, [0, 0, 0, 0]);
}

#[test]
fn blank_grid_refuses_what_cannot_be_allocated() {
    assert!(blank_grid(u32::MAX, u32::MAX).is_none());
}

#[test]
fn pixel_reads_inside_the_grid_only() {
    let mut source = RgbaImage::from_pixel(3, 2, Rgba([1, 2, 3, 4]));
    source.put_pixel(2, 1, Rgba([9, 8, 7, 6]));
    let img = DynamicImage::ImageRgba8(source);
    assert_eq!(pixel(&img, 0, 0), Some(Color { red: 1, green: 2, blue: 3, alpha: 4 }));
    assert_eq!(pixel(&img, 2, 1), Some(Color { red: 9, green: 8, blue: 7, alpha: 6 }));
    assert_eq!(pixel(&img, 3, 0), None);
    assert_eq!(pixel(&img, 0, 2), None);
    assert_eq!(pixel(&img, u32::MAX, u32::MAX), None);
}

#[test]
fn pixel_reads_what_the_mosaic_holds() {
    let out = flatten_colors(&flat(8, 8, [200, 50, 50, 255]));
    assert_eq!(pixel(&out, 7, 7), Some(Color { red: 196, green: 40, blue: 27, alpha: 255 }));
    assert_eq!(pixel(&out, 8, 7), None);
}
