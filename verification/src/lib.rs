//! Geometric relationships between orbiting objects described by
//! instantaneous position/velocity state vectors: pairwise distances,
//! close-approach (conjunction) search under a distance threshold, and
//! per-object nearest-neighbor search.
//!
//! All lengths are carried in fixed point: one unit is a thousandth of a
//! kilometer, so a coordinate of `7_000_000` is 7000 km. Distances are the
//! integer square root (rounded down) of the exact squared distance in those
//! units, which keeps every kernel deterministic and exactly specified.

pub mod closest;
pub mod conjunctions;
pub mod math;
pub mod pairwise;
pub mod permutation;
pub mod satellite;

pub use closest::find_closest_approaches;
pub use conjunctions::{find_conjunctions, Conjunction};
pub use pairwise::pairwise_distances;
pub use satellite::{OrbitError, Satellite, Vec3};
