use vstd::prelude::*;
use crate::pixel::Sample;

verus! {

/// Largest summed channel difference between two colours: 255 for each of
/// the three channels.
pub const MAX_COLOR_DIST: u128 = 255 * 3;

/// Colour weights are given in thousandths, and the normalised colour term is
/// further divided by 10000 to keep it commensurate with the position term;
/// together the colour term carries this denominator.
pub const COLOR_WEIGHT_DENOM: u128 = 10_000_000;

pub open spec fn abs_diff(a: int, b: int) -> nat {
    if a >= b {
        (a - b) as nat
    } else {
        (b - a) as nat
    }
}

/// Squared Euclidean distance between two positions.
pub open spec fn pos_dist(a: Sample, b: Sample) -> nat {
    abs_diff(a.x as int, b.x as int) * abs_diff(a.x as int, b.x as int) + abs_diff(
        a.y as int,
        b.y as int,
    ) * abs_diff(a.y as int, b.y as int)
}

/// Sum over the channels of the absolute colour differences.
pub open spec fn color_dist(a: Sample, b: Sample) -> nat {
    abs_diff(a.color[0] as int, b.color[0] as int) + abs_diff(a.color[1] as int, b.color[1] as int)
        + abs_diff(a.color[2] as int, b.color[2] as int)
}

/// Largest squared distance that positions of a `width` by `height` image span.
pub open spec fn max_pos_dist(width: u32, height: u32) -> nat {
    (width * width + height * height) as nat
}

/// Dissimilarity of `pixel` to `seed`. With a zero colour weight it is the
/// squared distance of the positions. Otherwise it is
/// `pos_dist / max_pos_dist + color_dist / MAX_COLOR_DIST * color_weight / COLOR_WEIGHT_DENOM`
/// multiplied by the common denominator `max_pos_dist * MAX_COLOR_DIST * COLOR_WEIGHT_DENOM`,
/// so that comparisons between scores of one image are exact.
pub open spec fn score_spec(pixel: Sample, seed: Sample, width: u32, height: u32, color_weight: u32) -> nat {
    if color_weight == 0 {
        pos_dist(pixel, seed)
    } else {
        pos_dist(pixel, seed) * MAX_COLOR_DIST as nat * COLOR_WEIGHT_DENOM as nat + color_dist(pixel, seed)
            * max_pos_dist(width, height) * color_weight as nat
    }
}

fn abs_diff_u8(a: u8, b: u8) -> (r: u128)
    ensures
        r == abs_diff(a as int, b as int),
        r <= 255,
{
    if a >= b {
        (a - b) as u128
    } else {
        (b - a) as u128
    }
}

fn square_diff_u32(a: u32, b: u32) -> (r: u128)
    ensures
        r == abs_diff(a as int, b as int) * abs_diff(a as int, b as int),
        r <= 0xffff_ffff * 0xffff_ffff,
{
    let d: u64 = if a >= b {
        (a - b) as u64
    } else {
        (b - a) as u64
    };
    proof {
        assert(d * d <= 0xffff_ffff * 0xffff_ffff) by (nonlinear_arith)
            requires
                d <= 0xffff_ffff,
        ;
    }
    (d * d) as u128
}

/// Score of `pixel` against `seed` on a `width` by `height` image.
pub fn score(pixel: &Sample, seed: &Sample, width: u32, height: u32, color_weight: u32) -> (r: u128)
    ensures
        r == score_spec(*pixel, *seed, width, height, color_weight),
{
    let pos = square_diff_u32(pixel.x, seed.x) + square_diff_u32(pixel.y, seed.y);
    if color_weight == 0 {
        pos
    } else {
        let color = abs_diff_u8(pixel.color[0], seed.color[0]) + abs_diff_u8(
            pixel.color[1],
            seed.color[1],
        ) + abs_diff_u8(pixel.color[2], seed.color[2]);
        let w = width as u128;
        let h = height as u128;
        proof {
            assert(w * w + h * h <= 2 * 0xffff_ffff * 0xffff_ffff) by (nonlinear_arith)
                requires
                    w <= 0xffff_ffff,
                    h <= 0xffff_ffff,
            ;
        }
        let max_pos = w * w + h * h;
        proof {
            let cw = color_weight as int;
            assert(pos * 765 * 10_000_000 <= 2 * 0xffff_ffff * 0xffff_ffff * 765 * 10_000_000)
                by (nonlinear_arith)
                requires
                    pos <= 2 * 0xffff_ffff * 0xffff_ffff,
            ;
            assert(color * max_pos <= 765 * (2 * 0xffff_ffff * 0xffff_ffff)) by (nonlinear_arith)
                requires
                    color <= 765,
                    max_pos <= 2 * 0xffff_ffff * 0xffff_ffff,
                    0 <= color,
                    0 <= max_pos,
            ;
            assert(color * max_pos * cw <= 765 * (2 * 0xffff_ffff * 0xffff_ffff) * 0xffff_ffff)
                by (nonlinear_arith)
                requires
                    color <= 765,
                    max_pos <= 2 * 0xffff_ffff * 0xffff_ffff,
                    cw <= 0xffff_ffff,
                    0 <= color,
                    0 <= max_pos,
                    0 <= cw,
            ;
        }
        pos * MAX_COLOR_DIST * COLOR_WEIGHT_DENOM + color * max_pos * (color_weight as u128)
    }
}

/// A pixel scores zero against a seed with its own position and colour, and
/// no score is lower: the score is minimal where pixel and seed coincide.
pub proof fn lemma_score_zero_at_seed(pixel: Sample, seed: Sample, other: Sample, width: u32, height: u32, color_weight: u32)
    requires
        pixel.x == seed.x,
        pixel.y == seed.y,
        pixel.color@ == seed.color@,
    ensures
        score_spec(pixel, seed, width, height, color_weight) == 0,
        score_spec(pixel, seed, width, height, color_weight) <= score_spec(
            pixel,
            other,
            width,
            height,
            color_weight,
        ),
{
    assert(pixel.color[0] == seed.color[0]);
    assert(pixel.color[1] == seed.color[1]);
    assert(pixel.color[2] == seed.color[2]);
    assert(abs_diff(pixel.x as int, seed.x as int) == 0);
    assert(abs_diff(pixel.y as int, seed.y as int) == 0);
    assert(0nat * 0nat + 0nat * 0nat == 0) by (nonlinear_arith);
    assert(pos_dist(pixel, seed) == 0);
    assert(color_dist(pixel, seed) == 0);
    let m = max_pos_dist(width, height);
    assert(0 * (MAX_COLOR_DIST as nat) * (COLOR_WEIGHT_DENOM as nat) + 0 * m * color_weight as nat == 0)
        by (nonlinear_arith);
}

/// The score is symmetric in the pixel and the seed.
pub proof fn lemma_score_symmetric(a: Sample, b: Sample, width: u32, height: u32, color_weight: u32)
    ensures
        score_spec(a, b, width, height, color_weight) == score_spec(b, a, width, height, color_weight),
{
}

} // verus!
