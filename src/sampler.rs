use vstd::prelude::*;
use rand::distr::weighted::WeightedIndex;
use rand::distr::Distribution;
use rand::rngs::StdRng;
use rand::SeedableRng;
use crate::error::MosaicError;
use crate::pixel::{in_bounds, Sample};
use crate::weight::{weight, weight_spec, MAX_WEIGHT};

verus! {

#[verifier::external_type_specification]
#[verifier::external_body]
pub struct ExStdRng(StdRng);

/// A categorical distribution over the indices of a list of weights: an index
/// is drawn with probability proportional to its weight. It is held in a
/// `WeightedIndex<u64>` and seen only through [`table_weights`].
#[verifier::external_body]
pub struct WeightTable {
    index: WeightedIndex<u64>,
}

#[verifier::external_type_specification]
#[verifier::external_body]
pub struct ExWeightError(rand::distr::weighted::Error);

/// The weights that a table draws by, in the order given.
pub uninterp spec fn table_weights(t: WeightTable) -> Seq<u64>;

/// Sum of a sequence of weights.
pub open spec fn seq_sum(s: Seq<u64>) -> int
    decreases s.len(),
{
    if s.len() == 0 {
        0
    } else {
        seq_sum(s.drop_last()) + s.last()
    }
}

/// Number of pixels up to which the total weight always fits in `u64`:
/// `u64::MAX / MAX_WEIGHT`.
pub const MAX_PIXELS: u64 = 26_352_491_533_870;

/// Every seed is one of `pixels`.
pub open spec fn drawn_from(seeds: Seq<Sample>, pixels: Seq<Sample>) -> bool {
    forall|i: int| 0 <= i < seeds.len() ==> pixels.contains(#[trigger] seeds[i])
}

/// Sampling weight of each pixel of `pixels`.
pub open spec fn weights_of(pixels: Seq<Sample>, width: u32, height: u32) -> Seq<u64> {
    Seq::new(pixels.len(), |i: int| weight_spec(pixels[i], width, height) as u64)
}

/// Relies on `StdRng::seed_from_u64`: a generator whose whole output is fixed
/// by `seed`.
#[verifier::external_body]
fn rng_from_seed(seed: u64) -> StdRng {
    StdRng::seed_from_u64(seed)
}

/// Relies on `WeightedIndex::new`: it fails on an empty list and on a total
/// that is zero or overflows `u64`, and otherwise keeps the weights.
#[verifier::external_body]
fn new_weight_table(weights: &Vec<u64>) -> (r: Result<WeightTable, rand::distr::weighted::Error>)
    ensures
        r is Ok <==> (weights@.len() > 0 && 0 < seq_sum(weights@) <= u64::MAX),
        r matches Ok(t) ==> table_weights(t) == weights@,
{
    WeightedIndex::new(weights.iter()).map(|index| WeightTable { index })
}

/// Relies on `Distribution::sample` of `WeightedIndex`: it returns the index
/// of one of the weights, found by `partition_point` over the running totals.
#[verifier::external_body]
fn draw_index(t: &WeightTable, rng: &mut StdRng) -> (i: usize)
    ensures
        i < table_weights(*t).len(),
{
    t.index.sample(rng)
}

proof fn lemma_seq_sum_bounds(s: Seq<u64>, lo: int, hi: int)
    requires
        s.len() > 0,
        0 <= lo,
        forall|i: int| 0 <= i < s.len() ==> lo <= #[trigger] s[i] <= hi,
    ensures
        lo <= seq_sum(s) <= hi * s.len(),
    decreases s.len(),
{
    let t = s.drop_last();
    assert(lo <= s[s.len() - 1] <= hi);
    if s.len() > 1 {
        lemma_seq_sum_bounds(t, lo, hi);
        assert(hi * t.len() + hi == hi * s.len()) by (nonlinear_arith)
            requires
                s.len() == t.len() + 1,
        ;
    } else {
        assert(t.len() == 0);
        assert(seq_sum(t) == 0);
    }
}

/// The sampling weight of every pixel of `pixels`.
pub fn pixel_weights(pixels: &Vec<Sample>, width: u32, height: u32) -> (w: Vec<u64>)
    requires
        forall|i: int| 0 <= i < pixels@.len() ==> in_bounds(#[trigger] pixels@[i], width, height),
    ensures
        w@ == weights_of(pixels@, width, height),
        forall|i: int| 0 <= i < w@.len() ==> 0 < #[trigger] w@[i] <= MAX_WEIGHT,
{
    let mut w: Vec<u64> = Vec::with_capacity(pixels.len());
    let mut i: usize = 0;
    while i < pixels.len()
        invariant
            i <= pixels@.len(),
            forall|k: int| 0 <= k < pixels@.len() ==> in_bounds(#[trigger] pixels@[k], width, height),
            w@.len() == i,
            forall|k: int| 0 <= k < i ==> #[trigger] w@[k] == weight_spec(pixels@[k], width, height),
            forall|k: int| 0 <= k < i ==> 0 < #[trigger] w@[k] <= MAX_WEIGHT,
        decreases pixels@.len() - i,
    {
        let x = weight(&pixels[i], width, height);
        w.push(x);
        i = i + 1;
    }
    assert(w@ =~= weights_of(pixels@, width, height));
    w
}

/// Draws `count` seeds from `pixels`, with replacement, each with probability
/// proportional to its weight, from a generator seeded with `seed`. Fails
/// with `InvalidWeights` when the weights cannot form a distribution: when
/// there are no pixels, or their total does not fit in `u64`.
pub fn sample_seeds(pixels: &Vec<Sample>, width: u32, height: u32, count: usize, seed: u64) -> (r: Result<Vec<Sample>, MosaicError>)
    requires
        forall|i: int| 0 <= i < pixels@.len() ==> in_bounds(#[trigger] pixels@[i], width, height),
    ensures
        r is Ok <==> (pixels@.len() > 0 && seq_sum(weights_of(pixels@, width, height)) <= u64::MAX),
        0 < pixels@.len() <= MAX_PIXELS ==> r is Ok,
        r is Err ==> r == Err::<Vec<Sample>, MosaicError>(MosaicError::InvalidWeights),
        r matches Ok(s) ==> s@.len() == count && drawn_from(s@, pixels@),
{
    let weights = pixel_weights(pixels, width, height);
    if weights.len() > 0 {
        proof {
            lemma_seq_sum_bounds(weights@, 1, MAX_WEIGHT as int);
            assert(MAX_WEIGHT * MAX_PIXELS <= u64::MAX);
            if weights@.len() <= MAX_PIXELS {
                assert(MAX_WEIGHT * weights@.len() <= MAX_WEIGHT * MAX_PIXELS) by (nonlinear_arith)
                    requires
                        weights@.len() <= MAX_PIXELS,
                ;
            }
        }
    }
    let dist = match new_weight_table(&weights) {
        Ok(d) => d,
        Err(_) => {
            return Err(MosaicError::InvalidWeights);
        },
    };
    let mut rng = rng_from_seed(seed);
    let mut seeds: Vec<Sample> = Vec::with_capacity(count);
    let mut n: usize = 0;
    while n < count
        invariant
            n <= count,
            table_weights(dist) == weights@,
            weights@.len() == pixels@.len(),
            seeds@.len() == n,
            drawn_from(seeds@, pixels@),
        decreases count - n,
    {
        let idx = draw_index(&dist, &mut rng);
        let s = pixels[idx];
        let ghost old_seeds = seeds@;
        seeds.push(s);
        proof {
            assert forall|i: int| 0 <= i < seeds@.len() implies pixels@.contains(
                #[trigger] seeds@[i],
            ) by {
                if i == n {
                    assert(pixels@[idx as int] == seeds@[i]);
                } else {
                    assert(seeds@[i] == old_seeds[i]);
                }
            }
        }
        n = n + 1;
    }
    Ok(seeds)
}

} // verus!
