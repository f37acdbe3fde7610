use pixit::color::distance2;
use pixit::quant::nearest_color_idx;
use pixit::Config;
use pixit::Image;
use pixit::PixError;
use pixit::pixelate;
use pixit::Rgb;
use pixit::Rgba;

fn rgba(r: u8, g: u8, b: u8, a: u8) -> Rgba {
    Rgba { r, g, b, a }
}

fn rgb(r: u8, g: u8, b: u8) -> Rgb {
    Rgb { r, g, b }
}

fn solid(width: usize, height: usize, c: Rgba) -> Image {
    Image::new(width, height, c)
}

fn config(size: usize, palette: Vec<Rgb>, large: bool) -> Config {
    Config { size, palette, large }
}

#[test]
fn full_mode_keeps_dimensions() {
    let img = solid(7, 5, rgba(20, 40, 60, 255));
    let cfg = config(3, vec![rgb(0, 0, 0), rgb(255, 255, 255)], true);
    let out = pixelate(&img, &cfg).unwrap();
    assert_eq!(out.width, 7);
    assert_eq!(out.height, 5);
}

#[test]
fn small_mode_dimensions_truncate() {
    let img = solid(7, 5, rgba(20, 40, 60, 255));
    let cfg = config(3, vec![rgb(0, 0, 0), rgb(255, 255, 255)], false);
    let out = pixelate(&img, &cfg).unwrap();
    assert_eq!(out.width, 2);
    assert_eq!(out.height, 1);
}

#[test]
fn blocks_are_uniform_in_full_mode() {
    let mut img = solid(4, 4, rgba(0, 0, 0, 255));
    for y in 0..4usize {
        for x in 0..4usize {
            let v = (x * 37 + y * 83) as u8;
            img.set(x, y, rgba(v, v.wrapping_mul(2), v.wrapping_mul(3), 255));
        }
    }
    let cfg = config(2, vec![rgb(10, 10, 10), rgb(200, 200, 200), rgb(90, 90, 90)], true);
    let out = pixelate(&img, &cfg).unwrap();
    for by in 0..2usize {
        for bx in 0..2usize {
            let first = out.get(bx * 2, by * 2);
            for j in 0..2usize {
                for i in 0..2usize {
                    assert_eq!(out.get(bx * 2 + i, by * 2 + j), first);
                }
            }
        }
    }
}

#[test]
fn output_colors_come_from_palette_and_are_opaque() {
    let mut img = solid(6, 6, rgba(0, 0, 0, 0));
    for y in 0..6usize {
        for x in 0..6usize {
            img.set(x, y, rgba((x * 40) as u8, (y * 40) as u8, 123, 7));
        }
    }
    let palette = vec![rgb(5, 5, 5), rgb(250, 10, 10), rgb(10, 250, 10), rgb(10, 10, 250)];
    let cfg = config(4, palette.clone(), true);
    let out = pixelate(&img, &cfg).unwrap();
    for y in 0..6usize {
        for x in 0..6usize {
            let c = out.get(x, y);
            assert_eq!(c.a, 255);
            assert!(palette.iter().any(|p| p.r == c.r && p.g == c.g && p.b == c.b));
        }
    }
}

#[test]
fn tie_break_picks_lowest_palette_index() {
    // The average (5, 5, 5) is at squared distance 75 from both entries.
    let img = solid(1, 1, rgba(5, 5, 5, 255));
    let cfg = config(1, vec![rgb(0, 0, 0), rgb(10, 10, 10)], true);
    let out = pixelate(&img, &cfg).unwrap();
    assert_eq!(out.get(0, 0), rgba(0, 0, 0, 255));
}

#[test]
fn tie_break_order_reversed() {
    // With the same entries in the other order, the former winner now has
    // the higher index and the other entry is chosen.
    let img = solid(1, 1, rgba(5, 5, 5, 255));
    let cfg = config(1, vec![rgb(10, 10, 10), rgb(0, 0, 0)], true);
    let out = pixelate(&img, &cfg).unwrap();
    assert_eq!(out.get(0, 0), rgba(10, 10, 10, 255));
}

#[test]
fn boundary_blocks_use_real_pixel_counts() {
    // A 5×5 image with size 3 has blocks of 3×3, 2×3, 3×2 and 2×2 pixels.
    // Each block is solid, so its average is its own color exactly when
    // the divisor is the block's real pixel count. The decoy entries are
    // what the averages would be if every block were divided by 9.
    let mut img = solid(5, 5, rgba(0, 0, 0, 255));
    for y in 0..5usize {
        for x in 0..5usize {
            let c = match (x < 3, y < 3) {
                (true, true) => rgba(9, 9, 9, 255),
                (false, true) => rgba(6, 6, 6, 255),
                (true, false) => rgba(12, 12, 12, 255),
                (false, false) => rgba(8, 8, 8, 255),
            };
            img.set(x, y, c);
        }
    }
    let palette = vec![
        rgb(9, 9, 9),
        rgb(6, 6, 6),
        rgb(12, 12, 12),
        rgb(8, 8, 8),
        rgb(4, 4, 4),
        rgb(3, 3, 3),
    ];
    let cfg = config(3, palette, true);
    let out = pixelate(&img, &cfg).unwrap();
    assert_eq!(out.get(1, 1), rgba(9, 9, 9, 255));
    assert_eq!(out.get(4, 1), rgba(6, 6, 6, 255));
    assert_eq!(out.get(1, 4), rgba(12, 12, 12, 255));
    assert_eq!(out.get(4, 4), rgba(8, 8, 8, 255));
}

#[test]
fn end_to_end_solid_red_shrinks_to_2x2() {
    let img = solid(4, 4, rgba(255, 0, 0, 255));
    let cfg = config(2, vec![rgb(255, 0, 0), rgb(0, 0, 0)], false);
    let out = pixelate(&img, &cfg).unwrap();
    assert_eq!(out.width, 2);
    assert_eq!(out.height, 2);
    for y in 0..2usize {
        for x in 0..2usize {
            assert_eq!(out.get(x, y), rgba(255, 0, 0, 255));
        }
    }
}

#[test]
fn single_entry_palette_floods_the_image() {
    let mut img = solid(3, 2, rgba(0, 0, 0, 0));
    img.set(0, 0, rgba(200, 13, 77, 9));
    img.set(2, 1, rgba(1, 255, 0, 130));
    let cfg = config(2, vec![rgb(1, 2, 3)], true);
    let out = pixelate(&img, &cfg).unwrap();
    for y in 0..2usize {
        for x in 0..3usize {
            assert_eq!(out.get(x, y), rgba(1, 2, 3, 255));
        }
    }
    let cfg_small = config(1, vec![rgb(1, 2, 3)], false);
    let out_small = pixelate(&img, &cfg_small).unwrap();
    for y in 0..2usize {
        for x in 0..3usize {
            assert_eq!(out_small.get(x, y), rgba(1, 2, 3, 255));
        }
    }
}

#[test]
fn zero_block_size_is_rejected() {
    let img = solid(4, 4, rgba(0, 0, 0, 255));
    let cfg = config(0, vec![rgb(0, 0, 0)], false);
    assert!(matches!(pixelate(&img, &cfg), Err(PixError::InvalidConfig)));
}

#[test]
fn zero_block_size_is_rejected_before_empty_image() {
    let img = solid(0, 4, rgba(0, 0, 0, 255));
    let cfg = config(0, vec![rgb(0, 0, 0)], true);
    assert!(matches!(pixelate(&img, &cfg), Err(PixError::InvalidConfig)));
}

#[test]
fn empty_image_is_rejected() {
    let wide = solid(0, 4, rgba(0, 0, 0, 255));
    let tall = solid(4, 0, rgba(0, 0, 0, 255));
    let cfg = config(2, vec![rgb(0, 0, 0)], false);
    assert!(matches!(pixelate(&wide, &cfg), Err(PixError::EmptyImage)));
    assert!(matches!(pixelate(&tall, &cfg), Err(PixError::EmptyImage)));
}

#[test]
fn averaging_truncates_toward_zero() {
    // Channel sums 0 + 255 over two pixels average to 127, not 128.
    let mut img = solid(2, 1, rgba(0, 0, 0, 255));
    img.set(1, 0, rgba(255, 255, 255, 255));
    let cfg = config(2, vec![rgb(128, 128, 128), rgb(127, 127, 127)], true);
    let out = pixelate(&img, &cfg).unwrap();
    assert_eq!(out.get(0, 0), rgba(127, 127, 127, 255));
    assert_eq!(out.get(1, 0), rgba(127, 127, 127, 255));
}

#[test]
fn squared_distance_is_exact() {
    assert_eq!(distance2(rgb(0, 0, 0), 5, 5, 5), 75);
    assert_eq!(distance2(rgb(10, 10, 10), 5, 5, 5), 75);
    assert_eq!(distance2(rgb(255, 0, 0), 0, 255, 0), 2 * 255 * 255);
    assert_eq!(distance2(rgb(7, 7, 7), 7, 7, 7), 0);
}

#[test]
fn small_mode_samples_the_full_mode_blocks() {
    let mut img = solid(6, 4, rgba(0, 0, 0, 255));
    for y in 0..4usize {
        for x in 0..6usize {
            img.set(x, y, rgba((x * 31) as u8, (y * 59) as u8, ((x + y) * 17) as u8, 255));
        }
    }
    let palette = vec![rgb(20, 20, 20), rgb(60, 60, 60), rgb(120, 120, 120)];
    let full = pixelate(&img, &config(2, palette.clone(), true)).unwrap();
    let small = pixelate(&img, &config(2, palette, false)).unwrap();
    assert_eq!(small.width, 3);
    assert_eq!(small.height, 2);
    for by in 0..2usize {
        for bx in 0..3usize {
            assert_eq!(small.get(bx, by), full.get(bx * 2, by * 2));
        }
    }
}

#[test]
fn nearest_index_strict_improvement_only() {
    let palette = vec![rgb(0, 0, 0), rgb(10, 10, 10)];
    assert_eq!(nearest_color_idx(&palette, 5, 5, 5), 0);
    assert_eq!(nearest_color_idx(&palette, 6, 6, 6), 1);
    assert_eq!(nearest_color_idx(&palette, 4, 4, 4), 0);
}
