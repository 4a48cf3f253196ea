//! Weighted Voronoi mosaics: seed points are drawn from an image with a
//! centre-biased weighting, and every pixel is then painted with the colour
//! of the seed nearest to it under a blended position and colour distance.

pub mod error;
pub mod mosaic;
pub mod pixel;
pub mod render;
pub mod sampler;
pub mod score;
pub mod weight;
pub mod wide;

pub use pixel::{index_pixels, Image, Sample};
pub use score::{score, COLOR_WEIGHT_DENOM, MAX_COLOR_DIST};
pub use render::{nearest_seed, paint, render};
pub use weight::{weight, MAX_WEIGHT, MIN_WEIGHT};
pub use error::MosaicError;
pub use sampler::{pixel_weights, sample_seeds, MAX_PIXELS};
pub use mosaic::{generate, MosaicConfig, DEFAULT_COLOR_WEIGHT, DEFAULT_POINTS};
