//! The search commands' configuration, and the sweep plans they compute.
//!
//! Argument parsing, worker dispatch and output live with the host; what is
//! computed from the parsed values — the sweep options and the chunking of
//! the seed space — is verified here.
use vstd::prelude::*;

verus! {

use crate::monolith::FindOptions;
use crate::seeds::SeedFactory;

/// Search one seed across a broad region.
pub struct FindCommand {
    /// World seed to search monoliths.
    pub seed: u64,
    /// Probe the world every this many blocks.
    pub step: usize,
    /// Minimum area of the monoliths to report.
    pub area: u64,
}

impl FindCommand {
    /// The sweep this command runs: one period tile of the monolith field,
    /// probed every `step` blocks, spread across workers.
    pub fn options(&self) -> (r: FindOptions)
        ensures
            r == (FindOptions {
                minx: 0,
                maxx: 8_388_608,
                minz: 0,
                maxz: 8_388_608,
                step: self.step,
                limit: None,
                threaded: true,
                depth_wraps: true,
            }),
    {
        FindOptions::default().step(self.step).depth_wraps().threaded()
    }
}

/// Render one seed's hill-noise field as an image.
pub struct PerlinPng {
    /// World seed to render.
    pub seed: u64,
    /// Width and height of the image, in pixels.
    pub size: u32,
}

/// Search many seeds for monoliths near spawn.
pub struct SpawnCommand {
    /// Which seeds to search.
    pub seeds: SeedFactory,
    /// How many seeds each work chunk processes.
    pub chunks: u64,
    /// How far from spawn to search, per axis.
    pub radius: i32,
    /// Stop a seed's sweep after this many monoliths.
    pub limit: u64,
    /// Minimum area of the monoliths to report.
    pub area: u64,
    /// Spacing between probes, in blocks.
    pub step: usize,
}

impl SpawnCommand {
    /// The per-seed sweep this command runs: a square around spawn, probed
    /// every `step` blocks, stopping at `limit` monoliths.
    pub fn options(&self) -> (r: FindOptions)
        requires
            0 <= self.radius <= 0x4000_0000,
        ensures
            r == (FindOptions {
                minx: (-self.radius) as i32,
                maxx: self.radius,
                minz: (-self.radius) as i32,
                maxz: self.radius,
                step: self.step,
                limit: Some(self.limit),
                threaded: false,
                depth_wraps: false,
            }),
    {
        FindOptions::default().spawn(self.radius).limit(self.limit).step(self.step)
    }

    /// How many chunks the seed space splits into: the total rounded up to
    /// a whole number of chunks.
    pub fn chunk_count(&self) -> (r: u64)
        requires
            self.seeds.wf(),
            self.chunks >= 1,
            self.seeds.total_spec() + self.chunks - 1 <= u64::MAX,
        ensures
            r == (self.seeds.total_spec() + self.chunks - 1) / (self.chunks as int),
    {
        let total: u64 = self.seeds.total();
        let sum: u128 = (total as u128) + (self.chunks as u128) - 1;
        proof {
            vstd::arithmetic::div_mod::lemma_div_is_ordered_by_denominator(
                sum as int,
                1,
                self.chunks as int,
            );
            vstd::arithmetic::div_mod::lemma_div_basics(sum as int);
        }
        (sum / (self.chunks as u128)) as u64
    }

    /// The half-open range of seed indices chunk `chunk` processes.
    pub fn chunk_bounds(&self, chunk: u64) -> (r: (u64, u64))
        requires
            self.chunks >= 1,
            (chunk + 1) * self.chunks <= u64::MAX,
        ensures
            r.0 == chunk * self.chunks,
            r.1 == (chunk + 1) * self.chunks,
    {
        proof {
            vstd::arithmetic::mul::lemma_mul_inequality(
                1,
                self.chunks as int,
                chunk as int + 1,
            );
            vstd::arithmetic::mul::lemma_mul_is_commutative(chunk as int + 1, self.chunks as int);
            vstd::arithmetic::mul::lemma_mul_basics(chunk as int + 1);
            vstd::arithmetic::mul::lemma_mul_inequality(
                chunk as int,
                chunk as int + 1,
                self.chunks as int,
            );
        }
        (chunk * self.chunks, (chunk + 1) * self.chunks)
    }
}

} // verus!
