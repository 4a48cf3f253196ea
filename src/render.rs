use vstd::prelude::*;
use crate::pixel::{lemma_row_major, next_position, Image, Sample};
use crate::score::{pos_dist, score, score_spec};

verus! {

/// Index of the first seed among `seeds[0..n]` whose score against `pixel`
/// is lowest: later seeds replace the current best only on a strictly lower
/// score.
pub open spec fn winner(
    seeds: Seq<Sample>,
    pixel: Sample,
    width: u32,
    height: u32,
    color_weight: u32,
    n: nat,
) -> nat
    decreases n,
{
    if n <= 1 {
        0
    } else {
        let k = winner(seeds, pixel, width, height, color_weight, (n - 1) as nat);
        if score_spec(pixel, seeds[n - 1], width, height, color_weight) < score_spec(
            pixel,
            seeds[k as int],
            width,
            height,
            color_weight,
        ) {
            (n - 1) as nat
        } else {
            k
        }
    }
}

/// Whether `pixel` lies within the highlight radius of `seed`.
pub open spec fn in_highlight(pixel: Sample, seed: Sample, radius: Option<u32>) -> bool {
    match radius {
        Some(r) => pos_dist(pixel, seed) <= r as nat * r as nat,
        None => false,
    }
}

/// The colour `c` with every channel inverted.
pub open spec fn inverted(c: Seq<u8>) -> Seq<u8> {
    seq![(255 - c[0]) as u8, (255 - c[1]) as u8, (255 - c[2]) as u8]
}

/// The colour given to `pixel` once `seed` has won it.
pub open spec fn painted(pixel: Sample, seed: Sample, radius: Option<u32>) -> Seq<u8> {
    if in_highlight(pixel, seed, radius) {
        inverted(seed.color@)
    } else {
        seed.color@
    }
}

/// The colour of the mosaic at row-major index `i`.
pub open spec fn mosaic_pixel(
    base: Image,
    seeds: Seq<Sample>,
    color_weight: u32,
    radius: Option<u32>,
    i: int,
) -> Seq<u8> {
    let q = base.sample_at(i);
    let k = winner(seeds, q, base.width, base.height, color_weight, seeds.len());
    painted(q, seeds[k as int], radius)
}

/// `out` is the mosaic of `base` under `seeds`.
pub open spec fn is_mosaic(
    base: Image,
    seeds: Seq<Sample>,
    color_weight: u32,
    radius: Option<u32>,
    out: Image,
) -> bool {
    &&& out.width == base.width
    &&& out.height == base.height
    &&& out.pixels@.len() == base.pixels@.len()
    &&& forall|i: int|
        0 <= i < out.pixels@.len() ==> (#[trigger] out.pixels@[i])@ == mosaic_pixel(
            base,
            seeds,
            color_weight,
            radius,
            i,
        )
}

/// The seed that `pixel` is assigned to: the first one of lowest score.
pub fn nearest_seed(
    pixel: &Sample,
    seeds: &Vec<Sample>,
    width: u32,
    height: u32,
    color_weight: u32,
) -> (k: usize)
    requires
        seeds@.len() >= 1,
    ensures
        k == winner(seeds@, *pixel, width, height, color_weight, seeds@.len()),
        k < seeds@.len(),
{
    let mut best: usize = 0;
    let mut best_score = score(pixel, &seeds[0], width, height, color_weight);
    let mut j: usize = 1;
    while j < seeds.len()
        invariant
            1 <= j <= seeds@.len(),
            best < j,
            best == winner(seeds@, *pixel, width, height, color_weight, j as nat),
            best_score == score_spec(*pixel, seeds@[best as int], width, height, color_weight),
        decreases seeds@.len() - j,
    {
        let s = score(pixel, &seeds[j], width, height, color_weight);
        if s < best_score {
            best = j;
            best_score = s;
        }
        j = j + 1;
    }
    best
}

/// The colour that `seed` gives to `pixel`, inverted inside the highlight radius.
pub fn paint(pixel: &Sample, seed: &Sample, radius: Option<u32>) -> (c: [u8; 3])
    ensures
        c@ == painted(*pixel, *seed, radius),
{
    let highlight = match radius {
        Some(r) => {
            let dx: u128 = if pixel.x >= seed.x {
                (pixel.x - seed.x) as u128
            } else {
                (seed.x - pixel.x) as u128
            };
            let dy: u128 = if pixel.y >= seed.y {
                (pixel.y - seed.y) as u128
            } else {
                (seed.y - pixel.y) as u128
            };
            proof {
                assert(dx * dx <= 0xffff_ffff * 0xffff_ffff) by (nonlinear_arith)
                    requires
                        dx <= 0xffff_ffff,
                ;
                assert(dy * dy <= 0xffff_ffff * 0xffff_ffff) by (nonlinear_arith)
                    requires
                        dy <= 0xffff_ffff,
                ;
                assert((r as u128) * (r as u128) <= 0xffff_ffff * 0xffff_ffff) by (nonlinear_arith)
                    requires
                        r <= 0xffff_ffff,
                ;
            }
            dx * dx + dy * dy <= (r as u128) * (r as u128)
        },
        None => false,
    };
    let c = seed.color;
    if highlight {
        let r = [255 - c[0], 255 - c[1], 255 - c[2]];
        proof {
            assert(r@ =~= inverted(seed.color@));
        }
        r
    } else {
        c
    }
}

/// Paints every pixel of `base` with the colour of its winning seed, scoring
/// each seed against the pixel's colour in `base`.
pub fn render(base: &Image, seeds: &Vec<Sample>, color_weight: u32, point_radius: Option<u32>) -> (out: Image)
    requires
        base.wf(),
        seeds@.len() >= 1,
    ensures
        is_mosaic(*base, seeds@, color_weight, point_radius, out),
        out.wf(),
{
    let n = base.pixels.len();
    let mut pixels: Vec<[u8; 3]> = Vec::with_capacity(n);
    let mut x: u32 = 0;
    let mut y: u32 = 0;
    let mut i: usize = 0;
    while i < n
        invariant
            n == base.pixels@.len(),
            base.wf(),
            seeds@.len() >= 1,
            i <= n,
            pixels@.len() == i,
            i < n ==> x < base.width && y < base.height,
            i as int == y as int * base.width as int + x as int,
            forall|k: int|
                0 <= k < i ==> (#[trigger] pixels@[k])@ == mosaic_pixel(
                    *base,
                    seeds@,
                    color_weight,
                    point_radius,
                    k,
                ),
        decreases n - i,
    {
        proof {
            lemma_row_major(base.width, x as int, y as int);
        }
        let q = Sample { x, y, color: base.pixels[i] };
        assert(q == base.sample_at(i as int));
        let k = nearest_seed(&q, seeds, base.width, base.height, color_weight);
        let c = paint(&q, &seeds[k], point_radius);
        pixels.push(c);
        let (nx, ny) = next_position(x, y, base.width, base.height);
        x = nx;
        y = ny;
        i = i + 1;
    }
    Image { width: base.width, height: base.height, pixels }
}

/// The winner among the first `n` seeds has the lowest score of them, and
/// every seed before it scores strictly higher: ties go to the earliest seed.
pub proof fn lemma_winner_is_first_minimum(
    seeds: Seq<Sample>,
    pixel: Sample,
    width: u32,
    height: u32,
    color_weight: u32,
    n: nat,
)
    requires
        1 <= n <= seeds.len(),
    ensures
        winner(seeds, pixel, width, height, color_weight, n) < n,
        forall|j: int|
            0 <= j < n ==> score_spec(
                pixel,
                seeds[winner(seeds, pixel, width, height, color_weight, n) as int],
                width,
                height,
                color_weight,
            ) <= #[trigger] score_spec(pixel, seeds[j], width, height, color_weight),
        forall|j: int|
            0 <= j < winner(seeds, pixel, width, height, color_weight, n) ==> score_spec(
                pixel,
                seeds[winner(seeds, pixel, width, height, color_weight, n) as int],
                width,
                height,
                color_weight,
            ) < #[trigger] score_spec(pixel, seeds[j], width, height, color_weight),
    decreases n,
{
    if n > 1 {
        lemma_winner_is_first_minimum(seeds, pixel, width, height, color_weight, (n - 1) as nat);
    }
}

/// With a zero colour weight every pixel goes to a seed nearest to it by
/// position alone, the earliest of them on a tie.
pub proof fn lemma_position_only(seeds: Seq<Sample>, pixel: Sample, width: u32, height: u32)
    requires
        seeds.len() >= 1,
    ensures
        forall|j: int|
            0 <= j < seeds.len() ==> pos_dist(
                pixel,
                seeds[winner(seeds, pixel, width, height, 0, seeds.len()) as int],
            ) <= #[trigger] pos_dist(pixel, seeds[j]),
        forall|j: int|
            0 <= j < winner(seeds, pixel, width, height, 0, seeds.len()) ==> pos_dist(
                pixel,
                seeds[winner(seeds, pixel, width, height, 0, seeds.len()) as int],
            ) < #[trigger] pos_dist(pixel, seeds[j]),
{
    lemma_winner_is_first_minimum(seeds, pixel, width, height, 0, seeds.len());
    assert forall|j: int| 0 <= j < seeds.len() implies score_spec(pixel, seeds[j], width, height, 0)
        == #[trigger] pos_dist(pixel, seeds[j]) by {}
}

/// With a zero colour weight and two seeds, a pixel takes the first seed's
/// colour exactly when it lies on that seed's side of the perpendicular
/// bisector of the two positions, or on the bisector itself.
pub proof fn lemma_two_seeds_bisector(
    base: Image,
    seeds: Seq<Sample>,
    radius: Option<u32>,
    out: Image,
    i: int,
)
    requires
        base.wf(),
        seeds.len() == 2,
        is_mosaic(base, seeds, 0, radius, out),
        0 <= i < out.pixels@.len(),
    ensures
        winner(seeds, base.sample_at(i), base.width, base.height, 0, 2) == 0 <==> pos_dist(
            base.sample_at(i),
            seeds[0],
        ) <= pos_dist(base.sample_at(i), seeds[1]),
        out.pixels@[i]@ == painted(
            base.sample_at(i),
            seeds[winner(seeds, base.sample_at(i), base.width, base.height, 0, 2) as int],
            radius,
        ),
{
    reveal_with_fuel(winner, 3);
}

/// With a single seed every pixel takes that seed's colour, inverted where
/// the pixel lies within the highlight radius of the seed.
pub proof fn lemma_single_seed(
    base: Image,
    seeds: Seq<Sample>,
    color_weight: u32,
    radius: Option<u32>,
    out: Image,
)
    requires
        seeds.len() == 1,
        is_mosaic(base, seeds, color_weight, radius, out),
    ensures
        forall|i: int|
            0 <= i < out.pixels@.len() ==> (#[trigger] out.pixels@[i])@ == if in_highlight(
                base.sample_at(i),
                seeds[0],
                radius,
            ) {
                inverted(seeds[0].color@)
            } else {
                seeds[0].color@
            },
{
}

/// The mosaic is a function of its inputs: two renders of the same base
/// image with the same seeds and settings agree on every pixel.
pub proof fn lemma_render_deterministic(
    base: Image,
    seeds: Seq<Sample>,
    color_weight: u32,
    radius: Option<u32>,
    out1: Image,
    out2: Image,
)
    requires
        is_mosaic(base, seeds, color_weight, radius, out1),
        is_mosaic(base, seeds, color_weight, radius, out2),
    ensures
        out1.width == out2.width,
        out1.height == out2.height,
        out1.pixels@.len() == out2.pixels@.len(),
        forall|i: int| 0 <= i < out1.pixels@.len() ==> (#[trigger] out1.pixels@[i])@ == out2.pixels@[i]@,
{
}

} // verus!
