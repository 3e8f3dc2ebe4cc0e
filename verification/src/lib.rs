//! Deterministic integer core of a seeded arena-map generator.
//!
//! Every piece of the generator that is decided by integer arithmetic lives
//! here, fully verified: the linear-congruential random stream, the noise
//! field's permutation and gradient-index tables, the boolean terrain tile
//! grid with its signed centered addressing, the ordering of the quantised
//! boundary angles, and the scan that buckets the boundary ring into
//! contiguous road runs.  The floating-point geometry
//! around this core (curve growth, offsetting, rasterisation) consumes these
//! results but is not part of the verified library.

pub mod grid;
pub mod noise;
pub mod rng;
pub mod roads;
