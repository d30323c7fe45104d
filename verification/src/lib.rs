//! A stochastic circle-packing and relaxation engine.
//!
//! The engine places non-overlapping circles of several size tiers inside a
//! bounded rectangular region by rejection sampling, then grows each circle,
//! one at a time, until it touches its nearest neighbour, producing a dense
//! irregular mosaic.  All geometry is carried out on integer coordinates, so
//! every result is exact and bit-for-bit reproducible from the seed.
//!
//! The pieces:
//! - [`geom`]: circles, regions, the no-overlap and containment predicates,
//!   and the `fits` query of the packing space.
//! - [`isqrt`]: an integer square root, used to measure gaps between circles.
//! - [`rng`]: a small seedable generator that drives placement.
//! - [`palette`]: the colour table that placed circles draw from.
//! - [`pack`]: the tiered rejection-sampling packer, as a mathematical
//!   function of seed, region and tiers.
//! - [`grow`]: the sequential growth pass and its laws.
//! - [`model`]: the mutable state that ties the phases together.

pub mod geom;
pub mod grow;
pub mod isqrt;
pub mod model;
pub mod pack;
pub mod palette;
pub mod rng;
