//! Seed search for "monoliths": rare contiguous terrain regions where two
//! fractal Perlin noise fields simultaneously cross hard thresholds.
//!
//! The crate verifies the integer heart of the search: the 48-bit linear
//! congruential generator that worlds are seeded from, the permutation-table
//! initialisation of each Perlin octave, the world seeding trajectory, and
//! the breadth-first region discovery and sweep.  Floating-point noise
//! evaluation cannot be verified and is supplied by the caller through the
//! `Terrain` trait.
use vstd::prelude::*;

pub mod commands;
pub mod monolith;
pub mod perlin;
pub mod rng;
pub mod seeds;
pub mod world;

pub use commands::FindCommand;
pub use commands::PerlinPng;
pub use commands::SpawnCommand;
pub use monolith::FindOptions;
pub use monolith::Monolith;
pub use monolith::nearest;
pub use monolith::sort_monoliths;
pub use perlin::FractalPerlin;
pub use perlin::Perlin;
pub use perlin::SmartSample;
pub use rng::JavaRNG;
pub use rng::SkipTables;
pub use seeds::SeedFactory;
pub use world::CellTerrain;
pub use world::Terrain;
pub use world::World;

verus! {

/// Coordinate boundary beyond which the host terrain generator degenerates.
pub const FARLANDS: i32 = 12_550_824;

/// Width of the searchable world, in blocks.
pub const WORLD_SIZE: i64 = 2 * 12_550_824 + 1;

/// Monolith fields repeat with this period: the 16-octave fractal wraps at
/// 256 * 2^15 sample points.
pub const MONOLITHS_REPEAT: i32 = 8_388_608;

/// Number of distinct world seeds: 2^48.
pub const TOTAL_SEEDS: u64 = 0x1_0000_0000_0000;

} // verus!
