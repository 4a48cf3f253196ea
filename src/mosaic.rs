use vstd::prelude::*;
use crate::error::MosaicError;
use crate::pixel::{index_pixels, Image, Sample};
use crate::render::{is_mosaic, render};
use crate::sampler::{drawn_from, sample_seeds, seq_sum, weights_of, MAX_PIXELS};

verus! {

/// Colour weight used when none is chosen, in thousandths: `3.5`.
pub const DEFAULT_COLOR_WEIGHT: u32 = 3500;

/// Number of seeds used when none is chosen.
pub const DEFAULT_POINTS: usize = 100;

/// Settings of one mosaic.
#[derive(Clone, Copy, Debug, PartialEq, Eq)]
pub struct MosaicConfig {
    /// Number of seeds to draw; at least one.
    pub points: usize,
    /// Seed of the random generator that draws the seeds.
    pub seed: u64,
    /// Weight of colour against position, in thousandths (3500 stands for
    /// 3.5), so that scores compare exactly; zero compares positions alone.
    /// Negative weights and steps finer than 0.001 cannot be expressed.
    pub color_weight: u32,
    /// Radius of the inverted disc drawn round each seed, if any.
    pub point_radius: Option<u32>,
}

impl MosaicConfig {
    /// Settings with `points` seeds drawn with `seed`, the default colour
    /// weight and no highlight.
    pub fn new(points: usize, seed: u64) -> (c: MosaicConfig)
        ensures
            c.points == points,
            c.seed == seed,
            c.color_weight == DEFAULT_COLOR_WEIGHT,
            c.point_radius is None,
    {
        MosaicConfig { points, seed, color_weight: DEFAULT_COLOR_WEIGHT, point_radius: None }
    }
}

/// The samples of `img`, one per pixel in row-major order.
pub open spec fn samples_of(img: Image) -> Seq<Sample> {
    Seq::new(img.pixels@.len(), |i: int| img.sample_at(i))
}

/// Makes the mosaic of `source`: seeds are drawn from the pixels of `source`,
/// and each pixel of `base` (the source, possibly blurred) is painted with the
/// colour of its winning seed.
pub fn generate(source: &Image, base: &Image, config: &MosaicConfig) -> (r: Result<Image, MosaicError>)
    requires
        source.wf(),
        base.wf(),
        base.width == source.width,
        base.height == source.height,
        config.points >= 1,
    ensures
        r == Err::<Image, MosaicError>(MosaicError::InvalidInput) <==> (source.width == 0
            || source.height == 0),
        r == Err::<Image, MosaicError>(MosaicError::InvalidWeights) <==> (source.width > 0
            && source.height > 0 && seq_sum(weights_of(samples_of(*source), source.width, source.height))
            > u64::MAX),
        (source.width > 0 && source.height > 0 && source.width * source.height <= MAX_PIXELS)
            ==> r is Ok,
        r is Ok ==> exists|seeds: Seq<Sample>|
            #[trigger] is_mosaic(*base, seeds, config.color_weight, config.point_radius, r->Ok_0)
                && seeds.len() == config.points && drawn_from(seeds, samples_of(*source)),
{
    if source.width == 0 || source.height == 0 {
        return Err(MosaicError::InvalidInput);
    }
    proof {
        assert(source.pixels@.len() > 0) by (nonlinear_arith)
            requires
                source.pixels@.len() == source.width as int * source.height as int,
                source.width > 0,
                source.height > 0,
        ;
    }
    let pixels = index_pixels(source);
    assert(pixels@ =~= samples_of(*source));
    let seeds = match sample_seeds(&pixels, source.width, source.height, config.points, config.seed) {
        Ok(s) => s,
        Err(e) => {
            return Err(e);
        },
    };
    let out = render(base, &seeds, config.color_weight, config.point_radius);
    let r: Result<Image, MosaicError> = Ok(out);
    assert(r->Ok_0 == out);
    assert(is_mosaic(*base, seeds@, config.color_weight, config.point_radius, r->Ok_0));
    r
}

} // verus!
