use voronoi_mosaic::{
    generate, index_pixels, nearest_seed, paint, pixel_weights, render, sample_seeds, score, weight,
    Image, MosaicConfig, MosaicError, Sample, MAX_WEIGHT,
};

const BLACK: [u8; 3] = [0, 0, 0];
const WHITE: [u8; 3] = [255, 255, 255];
const RED: [u8; 3] = [255, 0, 0];
const BLUE: [u8; 3] = [0, 0, 255];

fn filled(width: u32, height: u32, color: [u8; 3]) -> Image {
    Image { width, height, pixels: vec![color; (width * height) as usize] }
}

fn gradient(width: u32, height: u32) -> Image {
    let mut pixels = Vec::new();
    for y in 0..height {
        for x in 0..width {
            pixels.push([(x * 17 % 256) as u8, (y * 29 % 256) as u8, ((x + y) * 7 % 256) as u8]);
        }
    }
    Image { width, height, pixels }
}

fn halves() -> Image {
    let mut pixels = Vec::new();
    for _y in 0..10u32 {
        for x in 0..10u32 {
            pixels.push(if x < 5 { RED } else { BLUE });
        }
    }
    Image { width: 10, height: 10, pixels }
}

fn at(x: u32, y: u32, color: [u8; 3]) -> Sample {
    Sample { x, y, color }
}

#[test]
fn index_is_row_major() {
    let img = gradient(3, 2);
    let samples = index_pixels(&img);
    assert_eq!(samples.len(), 6);
    let positions: Vec<(u32, u32)> = samples.iter().map(|s| (s.x, s.y)).collect();
    assert_eq!(positions, vec![(0, 0), (1, 0), (2, 0), (0, 1), (1, 1), (2, 1)]);
    for (i, s) in samples.iter().enumerate() {
        assert_eq!(s.color, img.pixels[i]);
    }
}

#[test]
fn weight_is_largest_at_center() {
    assert_eq!(weight(&at(2, 2, BLACK), 4, 4), 700_000);
    assert_eq!(weight(&at(0, 0, BLACK), 4, 4), 243_213);
    let center = weight(&at(5, 5, BLACK), 10, 10);
    for y in 0..10 {
        for x in 0..10 {
            let w = weight(&at(x, y, BLACK), 10, 10);
            assert!(w <= center);
            assert!(w > 0 && w <= MAX_WEIGHT);
        }
    }
}

#[test]
fn weight_of_lone_pixel() {
    assert_eq!(weight(&at(0, 0, BLACK), 1, 1), 243_213);
}

#[test]
fn weight_below_max_off_center() {
    assert_eq!(weight(&at(500_000, 1, BLACK), 1_000_001, 2), 699_293);
    assert!(weight(&at(2, 2, BLACK), 5, 5) < 700_000);
}

#[test]
fn weight_follows_exact_distance() {
    let near = weight(&at(2_000_036, 2_000_000, BLACK), 4_000_000, 4_000_000);
    let far = weight(&at(2_000_035, 2_000_019, BLACK), 4_000_000, 4_000_000);
    assert_eq!((near, far), (697_008, 696_854));
}

#[test]
fn weight_falls_away_from_center() {
    let mut last = u64::MAX;
    for x in 50..100 {
        let w = weight(&at(x, 50, BLACK), 100, 100);
        assert!(w <= last);
        last = w;
    }
    assert!(weight(&at(99, 50, BLACK), 100, 100) < weight(&at(50, 50, BLACK), 100, 100));
}

#[test]
fn weights_of_every_pixel() {
    let samples = index_pixels(&gradient(5, 3));
    let w = pixel_weights(&samples, 5, 3);
    assert_eq!(w.len(), 15);
    for (i, s) in samples.iter().enumerate() {
        assert_eq!(w[i], weight(s, 5, 3));
    }
}

#[test]
fn score_by_position_alone() {
    assert_eq!(score(&at(0, 0, BLACK), &at(3, 4, WHITE), 10, 10, 0), 25);
    assert_eq!(score(&at(3, 4, BLACK), &at(0, 0, BLACK), 10, 10, 0), 25);
}

#[test]
fn score_blends_position_and_color() {
    // 1 / 8 + 765 / 765 * 3.5 / 10000, times 8 * 765 * 10^7.
    assert_eq!(score(&at(0, 0, BLACK), &at(1, 0, WHITE), 2, 2, 3500), 7_671_420_000);
    let a = at(4, 1, [10, 20, 30]);
    let b = at(0, 7, [200, 0, 90]);
    assert_eq!(score(&a, &b, 9, 9, 1234), score(&b, &a, 9, 9, 1234));
}

#[test]
fn score_is_zero_at_seed() {
    let p = at(7, 3, [1, 2, 3]);
    assert_eq!(score(&p, &p, 10, 10, 3500), 0);
    assert_eq!(score(&p, &p, 10, 10, 0), 0);
    assert!(score(&p, &at(7, 3, [1, 2, 4]), 10, 10, 3500) > 0);
}

#[test]
fn nearest_seed_prefers_first_on_tie() {
    let seeds = vec![at(0, 0, RED), at(4, 0, BLUE), at(2, 0, WHITE)];
    assert_eq!(nearest_seed(&at(1, 0, BLACK), &seeds, 5, 1, 0), 0);
    assert_eq!(nearest_seed(&at(3, 0, BLACK), &seeds, 5, 1, 0), 1);
    assert_eq!(nearest_seed(&at(2, 0, BLACK), &seeds, 5, 1, 0), 2);
    let twins = vec![at(1, 1, RED), at(1, 1, RED)];
    assert_eq!(nearest_seed(&at(0, 0, BLACK), &twins, 2, 2, 3500), 0);
}

#[test]
fn nearest_seed_weighs_color() {
    let seeds = vec![at(0, 0, WHITE), at(3, 0, BLACK)];
    let pixel = at(1, 0, BLACK);
    assert_eq!(nearest_seed(&pixel, &seeds, 4, 1, 0), 0);
    assert_eq!(nearest_seed(&pixel, &seeds, 4, 1, 10_000_000), 1);
}

#[test]
fn paint_inverts_within_radius() {
    let seed = at(5, 5, [10, 200, 0]);
    assert_eq!(paint(&at(5, 5, BLACK), &seed, Some(0)), [245, 55, 255]);
    assert_eq!(paint(&at(8, 9, BLACK), &seed, Some(5)), [245, 55, 255]);
    assert_eq!(paint(&at(9, 9, BLACK), &seed, Some(5)), [10, 200, 0]);
    assert_eq!(paint(&at(5, 5, BLACK), &seed, None), [10, 200, 0]);
}

#[test]
fn single_seed_paints_everything() {
    let base = gradient(6, 4);
    let seed = at(1, 2, [9, 8, 7]);
    let out = render(&base, &vec![seed], 3500, None);
    assert_eq!((out.width, out.height), (6, 4));
    assert!(out.pixels.iter().all(|c| *c == [9, 8, 7]));
    let marked = render(&base, &vec![seed], 3500, Some(1));
    for y in 0..4u32 {
        for x in 0..6u32 {
            let c = marked.pixels[(y * 6 + x) as usize];
            let d = x.abs_diff(1).pow(2) + y.abs_diff(2).pow(2);
            if d <= 1 {
                assert_eq!(c, [246, 247, 248]);
            } else {
                assert_eq!(c, [9, 8, 7]);
            }
        }
    }
}

#[test]
fn position_only_two_seeds_split_on_bisector() {
    let base = halves();
    let seeds = vec![at(2, 5, RED), at(7, 5, BLUE)];
    let out = render(&base, &seeds, 0, None);
    for y in 0..10u32 {
        for x in 0..10u32 {
            let expected = if x < 5 { RED } else { BLUE };
            assert_eq!(out.pixels[(y * 10 + x) as usize], expected);
        }
    }
}

#[test]
fn position_only_matches_nearest_by_distance() {
    let base = gradient(9, 7);
    let seeds = vec![at(1, 1, RED), at(7, 2, BLUE), at(4, 6, WHITE)];
    let out = render(&base, &seeds, 0, None);
    for y in 0..7u32 {
        for x in 0..9u32 {
            let d = |s: &Sample| x.abs_diff(s.x).pow(2) + y.abs_diff(s.y).pow(2);
            let mut best = 0;
            for k in 1..seeds.len() {
                if d(&seeds[k]) < d(&seeds[best]) {
                    best = k;
                }
            }
            assert_eq!(out.pixels[(y * 9 + x) as usize], seeds[best].color);
        }
    }
}

#[test]
fn sampled_seeds_come_from_the_image() {
    let img = gradient(8, 5);
    let pixels = index_pixels(&img);
    for count in [1usize, 2, 17] {
        let seeds = sample_seeds(&pixels, 8, 5, count, 7).unwrap();
        assert_eq!(seeds.len(), count);
        for s in &seeds {
            assert!(pixels.contains(s));
        }
    }
}

#[test]
fn sampling_is_reproducible() {
    let pixels = index_pixels(&gradient(16, 16));
    let a = sample_seeds(&pixels, 16, 16, 40, 1234).unwrap();
    let b = sample_seeds(&pixels, 16, 16, 40, 1234).unwrap();
    assert_eq!(a, b);
    let c = sample_seeds(&pixels, 16, 16, 40, 1235).unwrap();
    assert_ne!(a, c);
}

#[test]
fn sampling_without_pixels_fails() {
    assert_eq!(sample_seeds(&Vec::new(), 0, 0, 3, 1), Err(MosaicError::InvalidWeights));
}

#[test]
fn generate_is_deterministic() {
    let img = gradient(12, 9);
    let mut config = MosaicConfig::new(10, 99);
    config.point_radius = Some(1);
    let a = generate(&img, &img, &config).unwrap();
    let b = generate(&img, &img, &config).unwrap();
    assert_eq!(a, b);
    assert_eq!((a.width, a.height, a.pixels.len()), (12, 9, 108));
}

#[test]
fn one_white_pixel_single_seed() {
    let mut img = filled(4, 4, BLACK);
    img.pixels[2 * 4 + 2] = WHITE;
    let config = MosaicConfig { points: 1, seed: 42, color_weight: 3500, point_radius: None };
    let a = generate(&img, &img, &config).unwrap();
    let b = generate(&img, &img, &config).unwrap();
    assert_eq!(a, b);
    let color = a.pixels[0];
    assert!(color == BLACK || color == WHITE);
    assert!(a.pixels.iter().all(|c| *c == color));
}

#[test]
fn two_halves_split_vertically() {
    let img = halves();
    let pixels = index_pixels(&img);
    let mut found = false;
    for seed in 0..1000u64 {
        let seeds = sample_seeds(&pixels, 10, 10, 2, seed).unwrap();
        if seeds[0].color == seeds[1].color {
            continue;
        }
        found = true;
        let out = render(&img, &seeds, 0, None);
        for y in 0..10u32 {
            for x in 0..10u32 {
                let d = |s: &Sample| x.abs_diff(s.x).pow(2) + y.abs_diff(s.y).pow(2);
                let winner = if d(&seeds[1]) < d(&seeds[0]) { 1 } else { 0 };
                assert_eq!(out.pixels[(y * 10 + x) as usize], seeds[winner].color);
            }
        }
        if seeds[0].y == seeds[1].y && seeds[0].x + seeds[1].x == 9 {
            for y in 0..10u32 {
                for x in 0..10u32 {
                    assert_eq!(out.pixels[(y * 10 + x) as usize], if x < 5 { RED } else { BLUE });
                }
            }
        }
        break;
    }
    assert!(found);
}

#[test]
fn empty_image_is_rejected() {
    let img = Image { width: 0, height: 5, pixels: Vec::new() };
    let config = MosaicConfig::new(3, 1);
    assert_eq!(generate(&img, &img, &config), Err(MosaicError::InvalidInput));
}

#[test]
fn default_config() {
    let config = MosaicConfig::new(100, 5);
    assert_eq!(config.color_weight, 3500);
    assert_eq!(config.point_radius, None);
}

#[test]
fn lone_pixel_image_is_its_own_mosaic() {
    let img = filled(1, 1, [4, 5, 6]);
    let out = generate(&img, &img, &MosaicConfig::new(3, 8)).unwrap();
    assert_eq!(out.pixels, vec![[4, 5, 6]]);
}
