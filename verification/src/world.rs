//! A seeded world and its monolith search.
//!
//! The world's integer content — the seed, the generator trajectory of
//! `init`, and both fractals' permutation tables and offset numerators — is
//! fully verified.  Evaluating the noise itself takes floating point, which
//! the verified core cannot hold, so every search routine asks a `Terrain`
//! implementation for the monolith predicate and is verified against the
//! answers it gives.
use vstd::prelude::*;

verus! {

broadcast use vstd::std_specs::hash::group_hash_axioms;

use crate::monolith::FindOptions;
use crate::monolith::Monolith;
use crate::perlin::FractalPerlin;
use crate::perlin::Perlin;
use crate::perlin::lemma_perlin_chain_add;
use crate::perlin::perlin_chain;
use crate::monolith::nearest;
use crate::monolith::same_spot_spec;
use crate::monolith::nearest_spec;
use crate::rng::JavaRNG;
use crate::rng::lcg_iter;
use crate::rng::lcg_seed_state;
use crate::rng::lcg_unit_num;
use crate::rng::lemma_lcg_iter_add;
use std::collections::HashSet;
use vstd::set_lib::lemma_len_subset;
use vstd::arithmetic::div_mod::lemma_fundamental_div_mod;
use vstd::arithmetic::div_mod::lemma_mod_multiples_vanish;
use vstd::arithmetic::div_mod::lemma_small_mod;

/// Octave count of the hill fractal.
pub const HILL_OCTAVES: usize = 10;

/// Octave count of the depth fractal.
pub const DEPTH_OCTAVES: usize = 16;

/// The monolith predicate, answered by whoever evaluates the noise.
///
/// The floating-point fractal evaluation lives outside the verified core;
/// an implementation wraps it and must answer exactly its spec-level
/// predicate `mono`, so that the search routines are verified against a
/// deterministic field of answers.
pub trait Terrain {
    /// The mathematical monolith predicate this terrain answers.  The
    /// default answers nothing; a verified implementation overrides it
    /// with the predicate its `is_monolith` decides.
    open spec fn mono(&self, x: int, z: int) -> bool {
        false
    }

    /// Decide whether `(x, z)` lies inside a monolith.
    fn is_monolith(&self, x: i32, z: i32) -> (r: bool)
        ensures
            r == self.mono(x as int, z as int),
    ;
}

/// A terrain given by an explicit list of monolith cells.  Lets the search
/// routines run against a known field of answers.
pub struct CellTerrain {
    pub cells: Vec<(i32, i32)>,
}

impl CellTerrain {
    /// A terrain with the given monolith cells.
    pub fn new(cells: Vec<(i32, i32)>) -> (r: Self)
        ensures
            r.cells@ == cells@,
    {
        CellTerrain { cells }
    }
}

impl Terrain for CellTerrain {
    open spec fn mono(&self, x: int, z: int) -> bool {
        exists|c: (i32, i32)| #[trigger] self.cells@.contains(c) && c.0 == x && c.1 == z
    }

    fn is_monolith(&self, x: i32, z: i32) -> (r: bool)
        ensures
            r == self.mono(x as int, z as int),
    {
        let n: usize = self.cells.len();
        let mut i: usize = 0;
        while i < n
            invariant
                i <= n,
                n == self.cells@.len(),
                forall|j: int|
                    0 <= j < i ==> !((#[trigger] self.cells@[j]).0 == x && self.cells@[j].1 == z),
            decreases n - i,
        {
            let c: (i32, i32) = self.cells[i];
            if c.0 == x && c.1 == z {
                assert(self.cells@.contains(c));
                return true;
            }
            i = i + 1;
        }
        proof {
            if self.mono(x as int, z as int) {
                let c: (i32, i32) = choose|c: (i32, i32)|
                    #[trigger] self.cells@.contains(c) && c.0 == x && c.1 == z;
                let j: int = choose|j: int| 0 <= j < self.cells@.len() && self.cells@[j] == c;
                assert(!(self.cells@[j].0 == x && self.cells@[j].1 == z));
            }
        }
        false
    }
}

/// One seeded world: the hill and depth fractal stacks.
pub struct World {
    pub seed: u64,
    /// Noise that decides how flat the terrain is; values below -512 at a
    /// point are one of the two monolith conditions.
    pub hill: FractalPerlin<HILL_OCTAVES>,
    /// Noise that modulates the hill factor; absolute values above 8000 are
    /// the other monolith condition.
    pub depth: FractalPerlin<DEPTH_OCTAVES>,
}

impl World {
    /// Both stacks carry their full octave count.
    pub open spec fn wf(&self) -> bool {
        &&& self.hill.wf()
        &&& self.depth.wf()
    }

    /// The world holds exactly what seeding from `seed` produces: the
    /// generator is seeded, advanced past the host's 48 earlier noise
    /// instances, and then initialises the hill and depth stacks in turn.
    pub open spec fn initialized_from(&self, seed: u64) -> bool {
        &&& self.seed == seed
        &&& self.hill.octaves_from(perlin_chain(lcg_seed_state(seed), 48))
        &&& self.depth.octaves_from(perlin_chain(lcg_seed_state(seed), 58))
    }

    /// An empty world.
    pub fn new() -> (r: Self)
        ensures
            r.wf(),
            r.seed == 0,
    {
        World { seed: 0, hill: FractalPerlin::new(), depth: FractalPerlin::new() }
    }

    /// Seed the world: skip the 48 noise instances the host constructs
    /// first, then initialise the hill and depth stacks.
    pub fn init(&mut self, seed: u64)
        ensures
            final(self).wf(),
            final(self).initialized_from(seed),
    {
        let mut rng: JavaRNG = JavaRNG::from_seed(seed);
        self.seed = seed;
        Perlin::discard(&mut rng, 48);
        self.hill.init(&mut rng);
        proof {
            lemma_perlin_chain_add(lcg_seed_state(seed), 48, 10);
        }
        self.depth.init(&mut rng);
        proof {
            lemma_perlin_chain_add(lcg_seed_state(seed), 48, 10);
        }
    }

    /// Seed the world using the fast discard: a fixed 48 * (6 + 256)
    /// generator steps stand in for the 48 skipped instances, ignoring the
    /// rare rejection re-draws the exact path makes.
    pub fn init_fast(&mut self, seed: u64)
        ensures
            final(self).wf(),
            final(self).seed == seed,
            final(self).hill.octaves_from(lcg_iter(lcg_seed_state(seed), 12576)),
            final(self).depth.octaves_from(
                perlin_chain(lcg_iter(lcg_seed_state(seed), 12576), 10),
            ),
    {
        let mut rng: JavaRNG = JavaRNG::from_seed(seed);
        self.seed = seed;
        Perlin::discard_fast(&mut rng, 48);
        self.hill.init(&mut rng);
        self.depth.init(&mut rng);
    }
}

/// One half, as a numerator over 2^45.
pub const FRACT_HALF: u64 = 0x1000_0000_0000;

/// One, as a numerator over 2^45.
pub const FRACT_ONE: u64 = 0x2000_0000_0000;

/// The hill-only quality threshold 5.4 — exactly the 64-bit float the host
/// compares against — as a numerator over 2^50.
pub const HILL_QUALITY_NUM: u64 = 6_079_859_496_950_170;

/// How far the fractional part of an offset draw sits from one half, as a
/// numerator over 2^45.  `num` is the draw's numerator over 2^53; the host
/// multiplies the draw by 256, so its fractional part is `num mod 2^45`
/// over 2^45.  All of these values are exact in the host's 64-bit floats,
/// so this integer mirror reproduces its arithmetic bit for bit.
pub open spec fn fract_dev(num: int) -> int {
    let f: int = num % (FRACT_ONE as int);
    if f >= FRACT_HALF {
        f - FRACT_HALF
    } else {
        FRACT_HALF - f
    }
}

/// The summed deviation of one octave's three offset draws from state `s`.
pub open spec fn octave_dev(s: u64) -> int {
    fract_dev(lcg_unit_num(s)) + fract_dev(lcg_unit_num(lcg_iter(s, 2))) + fract_dev(
        lcg_unit_num(lcg_iter(s, 4)),
    )
}

/// The quality filter over the remaining `oct` octaves, starting at state
/// `s` with `dev` deviation accumulated so far: each octave adds its three
/// draws' deviations, fails the seed once the total exceeds the threshold,
/// and otherwise skips the 256 shuffle draws.  The comparison multiplies by
/// 32 to bring the 2^45 denominator to the threshold's 2^50.
pub open spec fn hill_fracts_rec(s: u64, dev: int, oct: nat) -> bool
    decreases oct,
{
    if oct == 0 {
        true
    } else {
        let d: int = dev + octave_dev(s);
        if 32 * d > HILL_QUALITY_NUM {
            false
        } else {
            hill_fracts_rec(lcg_iter(s, 262), d, (oct - 1) as nat)
        }
    }
}

/// The hill-only quality pre-filter on a seed: mirror the offset draws the
/// hill stack would make and accept the seed only while their fractional
/// parts stay close to one half.
pub open spec fn good_hill_fracts(seed: u64) -> bool {
    hill_fracts_rec(perlin_chain(lcg_seed_state(seed), 48), 0, 10)
}

/// The deviation of one draw, on machine integers.
fn fract_dev_exec(num: u64) -> (r: u64)
    requires
        num < 0x20_0000_0000_0000,
    ensures
        r == fract_dev(num as int),
        r <= FRACT_HALF,
{
    let f: u64 = num & (FRACT_ONE - 1);
    proof {
        assert(num & 0x1FFF_FFFF_FFFF == num % 0x2000_0000_0000) by (bit_vector);
    }
    if f >= FRACT_HALF {
        f - FRACT_HALF
    } else {
        FRACT_HALF - f
    }
}

impl World {
    /// Heuristic pre-filter on a seed: reject it when the fractional parts
    /// of the hill octaves' offset draws stray too far from one half, a
    /// correlation the host uses to prune seeds before building tables.
    pub fn good_perlin_fracts(seed: u64) -> (r: bool)
        ensures
            r == good_hill_fracts(seed),
    {
        let mut rng: JavaRNG = JavaRNG::from_seed(seed);
        Perlin::discard(&mut rng, 48);
        let mut deviate: u64 = 0;
        let mut oct: usize = 0;
        while oct < 10
            invariant
                rng.wf(),
                oct <= 10,
                32 * deviate <= HILL_QUALITY_NUM,
                good_hill_fracts(seed) == hill_fracts_rec(rng@, deviate as int, (10 - oct) as nat),
            decreases 10 - oct,
        {
            let ghost s_in: u64 = rng@;
            let ghost dev_in: u64 = deviate;
            let d0: u64 = fract_dev_exec(rng.next_unit_numerator());
            let d1: u64 = fract_dev_exec(rng.next_unit_numerator());
            let d2: u64 = fract_dev_exec(rng.next_unit_numerator());
            proof {
                lemma_lcg_iter_add(s_in, 2, 2);
                lemma_lcg_iter_add(s_in, 4, 2);
                assert(d0 + d1 + d2 == octave_dev(s_in));
            }
            deviate = deviate + d0 + d1 + d2;
            if 32 * deviate > HILL_QUALITY_NUM {
                proof {
                    assert(!hill_fracts_rec(s_in, dev_in as int, (10 - oct) as nat));
                }
                return false;
            }
            let ghost s6: u64 = rng@;
            rng.step_n(256);
            proof {
                lemma_lcg_iter_add(s_in, 6, 256);
                assert(rng@ == lcg_iter(s_in, 262));
                assert(hill_fracts_rec(s_in, dev_in as int, (10 - oct) as nat)
                    == hill_fracts_rec(rng@, deviate as int, (10 - (oct + 1)) as nat));
            }
            oct = oct + 1;
        }
        true
    }
}


/// The number of distinct `u64` keys: the search's visited set can never
/// outgrow it, which bounds the breadth-first search.
pub proof fn lemma_u64_universe()
    ensures
        Set::<u64>::full().finite(),
        Set::<u64>::full().len() == 0x1_0000_0000_0000_0000,
{
    broadcast use vstd::set::group_set_axioms;

    <u64 as vstd::set_lib::FiniteRange>::range_properties(0u64, u64::MAX);
    let r: Set<u64> = <u64 as vstd::set_lib::FiniteRange>::range_set(0u64, u64::MAX);
    assert(r.len() == 0xFFFF_FFFF_FFFF_FFFF);
    assert(!r.contains(u64::MAX));
    assert(Set::<u64>::full() =~= r.insert(u64::MAX));
}

/// A finite set of keys holds at most every `u64`.
proof fn lemma_visited_bound(s: Set<u64>)
    requires
        s.finite(),
    ensures
        s.len() <= 0x1_0000_0000_0000_0000,
{
    lemma_u64_universe();
    assert(s.subset_of(Set::<u64>::full()));
    lemma_len_subset(s, Set::<u64>::full());
}

/// One visited-set key per coordinate pair.
pub open spec fn pack_spec(x: int, z: int) -> int {
    (x + 0x8000_0000) * 0x1_0000_0000 + (z + 0x8000_0000)
}

/// Pack a coordinate pair into a visited-set key.
fn pack(x: i32, z: i32) -> (r: u64)
    ensures
        r == pack_spec(x as int, z as int),
{
    let px: u64 = ((x as i64) + 0x8000_0000) as u64;
    let pz: u64 = ((z as i64) + 0x8000_0000) as u64;
    px * 0x1_0000_0000 + pz
}

/// Whether a coordinate is a multiple of 32, computed without signed
/// remainders.
fn divisible_by_32(v: i32) -> (r: bool)
    ensures
        r == (v as int % 32 == 0),
{
    proof {
        vstd::arithmetic::div_mod::lemma_mod_multiples_vanish(0x400_0000, v as int, 32);
    }
    ((v as i64) + 0x8000_0000) % 32 == 0
}

/// Everything the breadth-first search certifies about a returned record:
/// the area counts exactly the probes the terrain confirmed (step squared
/// each), and the bounding box covers every 32-aligned confirmed probe.
#[verifier::opaque]
pub open spec fn search_log_ok<T: Terrain>(
    t: &T,
    step: int,
    m: Monolith,
    log: Seq<(int, int)>,
) -> bool {
    &&& m.area == step * step * log.len()
    &&& forall|i: int| 0 <= i < log.len() ==> t.mono((#[trigger] log[i]).0, log[i].1)
    &&& forall|i: int|
        0 <= i < log.len() && (#[trigger] log[i]).0 % 32 == 0 && log[i].1 % 32 == 0 ==> {
            &&& m.minx <= log[i].0 <= m.maxx
            &&& m.minz <= log[i].1 <= m.maxz
        }
}

/// There is a probe log certifying the record, as `search_log_ok` says.
pub open spec fn has_search_log<T: Terrain>(t: &T, step: int, m: Monolith) -> bool {
    exists|log: Seq<(int, int)>| #[trigger] search_log_ok(t, step, m, log)
}


/// The probe deltas a confirmed cell enqueues: its four step-neighbours,
/// and from a 32-aligned cell also the long-range rings at 64 and 256 that
/// bridge holes between dense kernels of a region.
pub open spec fn bfs_neighbor_deltas(step: i32, aligned: bool) -> Seq<(i32, i32)> {
    let base: Seq<(i32, i32)> = seq![
        (0i32, step),
        (step, 0i32),
        (0i32, (-step) as i32),
        ((-step) as i32, 0i32),
    ];
    if aligned {
        base + seq![
            (64i32, 64i32),
            (64i32, -64i32),
            (-64i32, 64i32),
            (-64i32, -64i32),
            (64i32, 0i32),
            (0i32, 64i32),
            (-64i32, 0i32),
            (0i32, -64i32),
            (256i32, 256i32),
            (256i32, -256i32),
            (-256i32, 256i32),
            (-256i32, -256i32),
            (256i32, 0i32),
            (0i32, 256i32),
            (-256i32, 0i32),
            (0i32, -256i32),
        ]
    } else {
        base
    }
}

/// One pass over the deltas from a confirmed cell: every neighbour that
/// stays a 32-bit coordinate and was not yet visited is marked and
/// appended to the queue.
pub open spec fn bfs_enqueue(
    v: Set<int>,
    q: Seq<(i32, i32)>,
    cx: int,
    cz: int,
    ds: Seq<(i32, i32)>,
) -> (Set<int>, Seq<(i32, i32)>)
    decreases ds.len(),
{
    if ds.len() == 0 {
        (v, q)
    } else {
        let d: (i32, i32) = ds[0];
        let nx: int = cx + d.0;
        let nz: int = cz + d.1;
        let rest: Seq<(i32, i32)> = ds.drop_first();
        if -0x8000_0000 <= nx <= 0x7FFF_FFFF && -0x8000_0000 <= nz <= 0x7FFF_FFFF
            && !v.contains(pack_spec(nx, nz)) {
            bfs_enqueue(v.insert(pack_spec(nx, nz)), q.push((nx as i32, nz as i32)), cx, cz, rest)
        } else {
            bfs_enqueue(v, q, cx, cz, rest)
        }
    }
}

/// The packed-coordinate space, as a set of keys.
pub open spec fn key_space() -> Set<int> {
    vstd::set_lib::set_int_range(0, 0x1_0000_0000_0000_0000)
}

/// Enqueueing keeps the visited set finite and within the key space, adds
/// exactly one queue entry per new key, and preserves the queue's prefix.
proof fn lemma_bfs_enqueue_shape(
    v: Set<int>,
    q: Seq<(i32, i32)>,
    cx: int,
    cz: int,
    ds: Seq<(i32, i32)>,
)
    requires
        v.finite(),
        v.subset_of(key_space()),
    ensures
        bfs_enqueue(v, q, cx, cz, ds).0.finite(),
        v.subset_of(bfs_enqueue(v, q, cx, cz, ds).0),
        bfs_enqueue(v, q, cx, cz, ds).0.subset_of(key_space()),
        bfs_enqueue(v, q, cx, cz, ds).0.len() - v.len() == bfs_enqueue(v, q, cx, cz, ds).1.len()
            - q.len(),
        bfs_enqueue(v, q, cx, cz, ds).1.len() >= q.len(),
        forall|i: int| 0 <= i < q.len() ==> bfs_enqueue(v, q, cx, cz, ds).1[i] == q[i],
    decreases ds.len(),
{
    broadcast use vstd::set::group_set_axioms;

    if ds.len() != 0 {
        let d: (i32, i32) = ds[0];
        let nx: int = cx + d.0;
        let nz: int = cz + d.1;
        let rest: Seq<(i32, i32)> = ds.drop_first();
        if -0x8000_0000 <= nx <= 0x7FFF_FFFF && -0x8000_0000 <= nz <= 0x7FFF_FFFF
            && !v.contains(pack_spec(nx, nz)) {
            assert(0 <= pack_spec(nx, nz) < 0x1_0000_0000_0000_0000);
            lemma_bfs_enqueue_shape(
                v.insert(pack_spec(nx, nz)),
                q.push((nx as i32, nz as i32)),
                cx,
                cz,
                rest,
            );
            let q2: Seq<(i32, i32)> = q.push((nx as i32, nz as i32));
            assert(bfs_enqueue(v, q, cx, cz, ds) == bfs_enqueue(
                v.insert(pack_spec(nx, nz)),
                q2,
                cx,
                cz,
                rest,
            ));
            assert forall|i: int| 0 <= i < q.len() implies bfs_enqueue(v, q, cx, cz, ds).1[i]
                == q[i] by {
                assert(bfs_enqueue(v.insert(pack_spec(nx, nz)), q2, cx, cz, rest).1[i] == q2[i]);
                assert(q2[i] == q[i]);
            }
        } else {
            lemma_bfs_enqueue_shape(v, q, cx, cz, rest);
        }
    }
}

/// The disk of probes seeded around the quantized start, row by row:
/// index `i` runs over the 17-by-17 grid of 32-block deltas, and a probe
/// is kept when its delta lies strictly inside the 256-block circle.
pub open spec fn probe_cells(qx: int, qz: int, i: int) -> Seq<(i32, i32)>
    decreases 289 - i,
{
    if i < 0 || i >= 289 {
        Seq::empty()
    } else {
        let dx: int = -256 + 32 * (i / 17);
        let dz: int = -256 + 32 * (i % 17);
        let rest: Seq<(i32, i32)> = probe_cells(qx, qz, i + 1);
        if dx * dx + dz * dz < 65536 {
            seq![(((qx + dx) as i32), ((qz + dz) as i32))] + rest
        } else {
            rest
        }
    }
}

/// The walk itself, as a function of the terrain's answers: pop the queue
/// head; on a confirmed cell grow the area while it fits, widen the box
/// from 32-aligned cells, and enqueue the unvisited neighbours.  The
/// visited set cannot outgrow the packed-coordinate space, which bounds
/// the recursion.
pub open spec fn bfs_run<T: Terrain>(
    t: &T,
    step: i32,
    v: Set<int>,
    q: Seq<(i32, i32)>,
    lith: Monolith,
) -> Monolith
    decreases 0x1_0000_0000_0000_0000 - v.len(), q.len()
        when v.finite() && v.subset_of(key_space())
        via bfs_run_decreases::<T>
{
    if q.len() == 0 {
        lith
    } else {
        let c: (i32, i32) = q[0];
        let rest: Seq<(i32, i32)> = q.drop_first();
        if !t.mono(c.0 as int, c.1 as int) {
            bfs_run(t, step, v, rest, lith)
        } else {
            let area2: u64 = if lith.area <= u64::MAX - 16 {
                (lith.area + step * step) as u64
            } else {
                lith.area
            };
            let aligned: bool = (c.0 as int) % 32 == 0 && (c.1 as int) % 32 == 0;
            let lith2: Monolith = (Monolith {
                area: area2,
                minx: if aligned && (c.0 as int) < lith.minx {
                    c.0
                } else {
                    lith.minx
                },
                maxx: if aligned && (c.0 as int) > lith.maxx {
                    c.0
                } else {
                    lith.maxx
                },
                minz: if aligned && (c.1 as int) < lith.minz {
                    c.1
                } else {
                    lith.minz
                },
                maxz: if aligned && (c.1 as int) > lith.maxz {
                    c.1
                } else {
                    lith.maxz
                },
                seed: lith.seed,
            });
            let vq: (Set<int>, Seq<(i32, i32)>) = bfs_enqueue(
                v,
                rest,
                c.0 as int,
                c.1 as int,
                bfs_neighbor_deltas(step, aligned),
            );
            bfs_run(t, step, vq.0, vq.1, lith2)
        }
    }
}

#[via_fn]
proof fn bfs_run_decreases<T: Terrain>(
    t: &T,
    step: i32,
    v: Set<int>,
    q: Seq<(i32, i32)>,
    lith: Monolith,
) {
    broadcast use vstd::set::group_set_axioms;

    vstd::set_lib::lemma_int_range(0, 0x1_0000_0000_0000_0000);
    lemma_len_subset(v, key_space());
    if q.len() != 0 {
        let c: (i32, i32) = q[0];
        let rest: Seq<(i32, i32)> = q.drop_first();
        if t.mono(c.0 as int, c.1 as int) {
            let aligned: bool = (c.0 as int) % 32 == 0 && (c.1 as int) % 32 == 0;
            lemma_bfs_enqueue_shape(v, rest, c.0 as int, c.1 as int, bfs_neighbor_deltas(step, aligned));
            let vq: (Set<int>, Seq<(i32, i32)>) = bfs_enqueue(
                v,
                rest,
                c.0 as int,
                c.1 as int,
                bfs_neighbor_deltas(step, aligned),
            );
            lemma_len_subset(vq.0, key_space());
        }
    }
}

/// Everything the walk from `(x, z)` computes, as one function of the
/// terrain's answers: the quantized start is marked visited and seeded
/// together with its probe disk, and the walk runs to exhaustion from the
/// inverted sentinel box.
pub open spec fn bfs_result<T: Terrain>(t: &T, seed: u64, x: int, z: int, step: i32) -> Monolith {
    let qx: int = nearest_spec(x, step as int);
    let qz: int = nearest_spec(z, step as int);
    let lith0: Monolith = (Monolith {
        minx: (qx + 32) as i32,
        minz: (qz + 32) as i32,
        maxx: (qx - 32) as i32,
        maxz: (qz - 32) as i32,
        seed: seed,
        area: 0,
    });
    bfs_run(
        t,
        step,
        Set::empty().insert(pack_spec(qx, qz)),
        seq![((qx as i32), (qz as i32))] + probe_cells(qx, qz, 0),
        lith0,
    )
}

impl World {
    /// Flood out from `(x, z)` and measure the monolith there, if any.
    ///
    /// The starting point is quantized to `area_step`, seeded together with
    /// a disk of probes around it, and the search repeatedly pops a probe,
    /// asks the terrain about it, and on a hit grows the area, walks to the
    /// four neighbours, and from 32-aligned probes also to long-range
    /// probes that bridge holes in the region.  A visited set keeps the
    /// walk from re-enqueueing coordinates, which bounds the search and
    /// proves it terminates.
    #[verifier::rlimit(100)]
    pub fn get_monolith<T: Terrain>(
        &self,
        terrain: &T,
        x: i32,
        z: i32,
        area_step: i32,
    ) -> (r: Option<Monolith>)
        requires
            area_step == 1 || area_step == 4,
            -0x4000_0000 <= x <= 0x4000_0000,
            -0x4000_0000 <= z <= 0x4000_0000,
        ensures
            (r is Some) == terrain.mono(x as int, z as int),
            r is Some ==> r->Some_0.seed == self.seed,
            r is Some ==> has_search_log(terrain, area_step as int, r->Some_0),
            r is Some && terrain.mono(
                nearest_spec(x as int, area_step as int),
                nearest_spec(z as int, area_step as int),
            ) ==> r->Some_0.area >= area_step * area_step,
            r is Some && area_step == 1 ==> r->Some_0.area > 0,
            r matches Some(m) ==> {
                ||| {
                    &&& m.minx == nearest_spec(x as int, area_step as int) + 32
                    &&& m.maxx == nearest_spec(x as int, area_step as int) - 32
                    &&& m.minz == nearest_spec(z as int, area_step as int) + 32
                    &&& m.maxz == nearest_spec(z as int, area_step as int) - 32
                }
                ||| {
                    &&& m.minx <= m.maxx
                    &&& m.minz <= m.maxz
                }
            },
            r is Some ==> r->Some_0 == bfs_result(
                terrain,
                self.seed,
                x as int,
                z as int,
                area_step,
            ),
    {
        if !terrain.is_monolith(x, z) {
            return None;
        }
        let step: i32 = area_step;
        let qx: i32 = nearest(x, step);
        let qz: i32 = nearest(z, step);
        proof {
            if step == 1 {
                assert(nearest_spec(x as int, 1) == x as int);
                assert(nearest_spec(z as int, 1) == z as int);
            }
        }
        let sq: u64 = (step * step) as u64;
        let mut lith: Monolith = Monolith {
            minx: qx + 32,
            minz: qz + 32,
            maxx: qx - 32,
            maxz: qz - 32,
            seed: self.seed,
            area: 0,
        };
        let ghost mut log: Seq<(int, int)> = Seq::empty();

        let mut visited: HashSet<u64> = HashSet::new();
        visited.insert(pack(qx, qz));
        let ghost mut vmodel: Set<int> = Set::empty().insert(pack_spec(qx as int, qz as int));
        let mut queue: Vec<(i32, i32)> = Vec::new();
        queue.push((qx, qz));
        let ghost full0: Seq<(i32, i32)> = seq![(qx, qz)] + probe_cells(qx as int, qz as int, 0);

        // Seed the queue with a disk of probes around the start, in case it
        // sits near the edge of a disconnected lobe of the region.  Index
        // `pi` runs over the 17-by-17 grid of 32-block deltas.
        let mut pi: usize = 0;
        while pi < 289
            invariant
                pi <= 289,
                -0x4000_0200 <= qx <= 0x4000_0200,
                -0x4000_0200 <= qz <= 0x4000_0200,
                queue@.len() >= 1,
                queue@[0] == (qx, qz),
                full0 == queue@ + probe_cells(qx as int, qz as int, pi as int),
            decreases 289 - pi,
        {
            let ghost q_in: Seq<(i32, i32)> = queue@;
            let dxi: usize = pi / 17;
            let dzi: usize = pi % 17;
            proof {
                vstd::arithmetic::div_mod::lemma_fundamental_div_mod_converse(288, 17, 16, 16);
                vstd::arithmetic::div_mod::lemma_div_is_ordered(pi as int, 288, 17);
                vstd::arithmetic::div_mod::lemma_div_pos_is_pos(pi as int, 17);
            }
            let dx: i32 = -256 + 32 * (dxi as i32);
            let dz: i32 = -256 + 32 * (dzi as i32);
            proof {
                assert(0 <= (dx as int) * (dx as int) <= 65536) by (nonlinear_arith)
                    requires
                        -256 <= dx <= 256,
                ;
                assert(0 <= (dz as int) * (dz as int) <= 65536) by (nonlinear_arith)
                    requires
                        -256 <= dz <= 256,
                ;
            }
            if (dx as i64) * (dx as i64) + (dz as i64) * (dz as i64) < 65536 {
                queue.push((qx + dx, qz + dz));
            }
            proof {
                let cell: Seq<(i32, i32)> = seq![(((qx as int + dx) as i32), ((qz as int + dz) as i32))];
                if (dx as int) * (dx as int) + (dz as int) * (dz as int) < 65536 {
                    assert(probe_cells(qx as int, qz as int, pi as int) == cell + probe_cells(
                        qx as int,
                        qz as int,
                        pi as int + 1,
                    ));
                    assert(queue@ =~= q_in + cell);
                    assert((q_in + cell) + probe_cells(qx as int, qz as int, pi as int + 1)
                        =~= q_in + (cell + probe_cells(qx as int, qz as int, pi as int + 1)));
                } else {
                    assert(probe_cells(qx as int, qz as int, pi as int) == probe_cells(
                        qx as int,
                        qz as int,
                        pi as int + 1,
                    ));
                }
            }
            pi = pi + 1;
        }
        proof {
            assert(probe_cells(qx as int, qz as int, 289) == Seq::<(i32, i32)>::empty());
            assert(queue@ =~= full0);
            assert(queue@.skip(0) =~= queue@);
            assert(nearest_spec(x as int, area_step as int) == qx as int);
            assert(nearest_spec(z as int, area_step as int) == qz as int);
            assert(seq![(((qx as int) as i32), ((qz as int) as i32))] =~= seq![(qx, qz)]);
            assert(bfs_result(terrain, self.seed, x as int, z as int, area_step) == bfs_run(
                terrain,
                step,
                vmodel,
                queue@.skip(0),
                lith,
            ));
        }

        let mut head: usize = 0;
        while head < queue.len()
            invariant
                head <= queue@.len(),
                queue@.len() >= 1,
                queue@[0] == (qx, qz),
                visited@.finite(),
                visited@.len() <= 0x1_0000_0000_0000_0000,
                lith.seed == self.seed,
                step == area_step,
                step == 1 || step == 4,
                sq == step * step,
                lith.area == (step * step) * log.len(),
                log.len() <= head,
                forall|i: int| 0 <= i < log.len() ==> terrain.mono((#[trigger] log[i]).0, log[i].1),
                forall|i: int|
                    0 <= i < log.len() && (#[trigger] log[i]).0 % 32 == 0 && log[i].1 % 32 == 0
                        ==> {
                        &&& lith.minx <= log[i].0 <= lith.maxx
                        &&& lith.minz <= log[i].1 <= lith.maxz
                    },
                (lith.minx == qx + 32 && lith.maxx == qx - 32 && lith.minz == qz + 32
                    && lith.maxz == qz - 32) || (lith.minx <= lith.maxx && lith.minz
                    <= lith.maxz),
                terrain.mono(qx as int, qz as int) && head >= 1 ==> log.len() >= 1,
                vmodel.finite(),
                vmodel.subset_of(key_space()),
                vmodel.len() == visited@.len(),
                forall|k: u64| #![trigger visited@.contains(k)]
                    visited@.contains(k) <==> vmodel.contains(k as int),
                bfs_result(terrain, self.seed, x as int, z as int, area_step) == bfs_run(
                    terrain,
                    step,
                    vmodel,
                    queue@.skip(head as int),
                    lith,
                ),
            decreases
                    0x1_0000_0000_0000_0000 - visited@.len(),
                    queue@.len() - head,
        {
            let ghost vm0: Set<int> = vmodel;
            let ghost lith_in: Monolith = lith;
            let ghost qm0: Seq<(i32, i32)> = queue@.skip(head as int);
            let c: (i32, i32) = queue[head];
            head = head + 1;
            let cx: i32 = c.0;
            let cz: i32 = c.1;
            proof {
                assert(qm0[0] == c);
                assert(qm0.drop_first() =~= queue@.skip(head as int));
            }
            if !terrain.is_monolith(cx, cz) {
                proof {
                    assert(bfs_run(terrain, step, vm0, qm0, lith_in) == bfs_run(
                        terrain,
                        step,
                        vm0,
                        qm0.drop_first(),
                        lith_in,
                    ));
                }
                continue;
            }
            proof {
                vstd::arithmetic::mul::lemma_mul_basics((step * step) as int);
            }
            if lith.area <= u64::MAX - 16 {
                lith.area = lith.area + sq;
                proof {
                    let olen: int = log.len() as int;
                    log = log.push((cx as int, cz as int));
                    vstd::arithmetic::mul::lemma_mul_is_distributive_add(
                        (step * step) as int,
                        olen,
                        1,
                    );
                    vstd::arithmetic::mul::lemma_mul_basics((step * step) as int);
                }
            }

            let mut neighbors: Vec<(i32, i32)> = Vec::new();
            neighbors.push((0, step));
            neighbors.push((step, 0));
            neighbors.push((0, -step));
            neighbors.push((-step, 0));

            let aligned: bool = divisible_by_32(cx) && divisible_by_32(cz);
            if aligned {
                neighbors.push((64, 64));
                neighbors.push((64, -64));
                neighbors.push((-64, 64));
                neighbors.push((-64, -64));
                neighbors.push((64, 0));
                neighbors.push((0, 64));
                neighbors.push((-64, 0));
                neighbors.push((0, -64));
                neighbors.push((256, 256));
                neighbors.push((256, -256));
                neighbors.push((-256, 256));
                neighbors.push((-256, -256));
                neighbors.push((256, 0));
                neighbors.push((0, 256));
                neighbors.push((-256, 0));
                neighbors.push((0, -256));

                if cx < lith.minx {
                    lith.minx = cx;
                }
                if cx > lith.maxx {
                    lith.maxx = cx;
                }
                if cz < lith.minz {
                    lith.minz = cz;
                }
                if cz > lith.maxz {
                    lith.maxz = cz;
                }
            }

            let ghost deltas: Seq<(i32, i32)> = bfs_neighbor_deltas(step, aligned);
            proof {
                assert(neighbors@ =~= deltas);
                assert(deltas.skip(0) =~= deltas);
                assert(lith == (Monolith {
                    area: if lith_in.area <= u64::MAX - 16 {
                        (lith_in.area + step * step) as u64
                    } else {
                        lith_in.area
                    },
                    minx: if aligned && (c.0 as int) < lith_in.minx {
                        c.0
                    } else {
                        lith_in.minx
                    },
                    maxx: if aligned && (c.0 as int) > lith_in.maxx {
                        c.0
                    } else {
                        lith_in.maxx
                    },
                    minz: if aligned && (c.1 as int) < lith_in.minz {
                        c.1
                    } else {
                        lith_in.minz
                    },
                    maxz: if aligned && (c.1 as int) > lith_in.maxz {
                        c.1
                    } else {
                        lith_in.maxz
                    },
                    seed: lith_in.seed,
                }));
            }

            let ghost vsnap: Set<u64> = visited@;
            let ghost qsnap: Seq<(i32, i32)> = queue@;
            let ghost vm_mid: Set<int> = vmodel;
            let ghost qm_mid: Seq<(i32, i32)> = queue@.skip(head as int);
            let mut j: usize = 0;
            while j < neighbors.len()
                invariant
                    j <= neighbors@.len(),
                    neighbors@ == deltas,
                    visited@.finite(),
                    vsnap.subset_of(visited@),
                    visited@.len() - vsnap.len() == queue@.len() - qsnap.len(),
                    queue@.len() >= qsnap.len(),
                    qsnap.len() >= 1,
                    forall|i: int| 0 <= i < qsnap.len() ==> queue@[i] == qsnap[i],
                    visited@.len() <= 0x1_0000_0000_0000_0000,
                    head as int <= qsnap.len(),
                    vmodel.finite(),
                    vmodel.subset_of(key_space()),
                    vmodel.len() == visited@.len(),
                    forall|k: u64| #![trigger visited@.contains(k)]
                        visited@.contains(k) <==> vmodel.contains(k as int),
                    bfs_enqueue(vm_mid, qm_mid, cx as int, cz as int, deltas) == bfs_enqueue(
                        vmodel,
                        queue@.skip(head as int),
                        cx as int,
                        cz as int,
                        deltas.skip(j as int),
                    ),
                decreases neighbors@.len() - j,
            {
                let ghost j0: int = j as int;
                let ghost v_in: Set<int> = vmodel;
                let ghost q_in: Seq<(i32, i32)> = queue@;
                let d: (i32, i32) = neighbors[j];
                j = j + 1;
                proof {
                    assert(deltas.skip(j0)[0] == deltas[j0]);
                    assert(deltas.skip(j0).drop_first() =~= deltas.skip(j0 + 1));
                }
                let nx64: i64 = (cx as i64) + (d.0 as i64);
                let nz64: i64 = (cz as i64) + (d.1 as i64);
                if nx64 >= -0x8000_0000 && nx64 <= 0x7FFF_FFFF && nz64 >= -0x8000_0000 && nz64
                    <= 0x7FFF_FFFF {
                    let nx: i32 = nx64 as i32;
                    let nz: i32 = nz64 as i32;
                    proof {
                        lemma_visited_bound(visited@);
                        if !visited@.contains(pack_spec(nx as int, nz as int) as u64) {
                            lemma_visited_bound(
                                visited@.insert(pack_spec(nx as int, nz as int) as u64),
                            );
                        }
                        assert(0 <= pack_spec(nx as int, nz as int) < 0x1_0000_0000_0000_0000);
                    }
                    if visited.insert(pack(nx, nz)) {
                        queue.push((nx, nz));
                        proof {
                            vmodel = vmodel.insert(pack_spec(nx as int, nz as int));
                            assert(!v_in.contains(pack_spec(nx as int, nz as int)));
                            assert(queue@.skip(head as int) =~= q_in.skip(head as int).push(
                                (nx, nz),
                            ));
                            assert(bfs_enqueue(v_in, q_in.skip(head as int), cx as int, cz as int, deltas.skip(j0))
                                == bfs_enqueue(vmodel, queue@.skip(head as int), cx as int, cz as int, deltas.skip(j0 + 1)));
                        }
                    } else {
                        proof {
                            assert(v_in.contains(pack_spec(nx as int, nz as int)));
                            assert(bfs_enqueue(v_in, q_in.skip(head as int), cx as int, cz as int, deltas.skip(j0))
                                == bfs_enqueue(vmodel, queue@.skip(head as int), cx as int, cz as int, deltas.skip(j0 + 1)));
                        }
                    }
                } else {
                    proof {
                        assert(bfs_enqueue(v_in, q_in.skip(head as int), cx as int, cz as int, deltas.skip(j0))
                            == bfs_enqueue(vmodel, queue@.skip(head as int), cx as int, cz as int, deltas.skip(j0 + 1)));
                    }
                }
            }
            proof {
                assert(deltas.skip(deltas.len() as int) =~= Seq::<(i32, i32)>::empty());
                assert(bfs_enqueue(vmodel, queue@.skip(head as int), cx as int, cz as int, deltas.skip(deltas.len() as int))
                    == (vmodel, queue@.skip(head as int)));
                assert(bfs_enqueue(vm_mid, qm_mid, cx as int, cz as int, deltas) == (
                    vmodel,
                    queue@.skip(head as int),
                ));
                assert(qm_mid =~= qm0.drop_first());
                assert(bfs_run(terrain, step, vm0, qm0, lith_in) == bfs_run(
                    terrain,
                    step,
                    vmodel,
                    queue@.skip(head as int),
                    lith,
                ));
            }
        }

        proof {
            assert(queue@.skip(head as int) =~= Seq::<(i32, i32)>::empty());
            assert(bfs_run(terrain, step, vmodel, queue@.skip(head as int), lith) == lith);
            assert(lith == bfs_result(terrain, self.seed, x as int, z as int, area_step));
            reveal(search_log_ok);
            assert(search_log_ok(terrain, area_step as int, lith, log));
            if terrain.mono(
                nearest_spec(x as int, area_step as int),
                nearest_spec(z as int, area_step as int),
            ) {
                assert(log.len() >= 1);
                vstd::arithmetic::mul::lemma_mul_inequality(
                    1,
                    log.len() as int,
                    (step * step) as int,
                );
                vstd::arithmetic::mul::lemma_mul_is_commutative(log.len() as int, (step * step) as int);
                vstd::arithmetic::mul::lemma_mul_basics((step * step) as int);
                assert(lith.area >= step * step);
            }
            if area_step == 1 {
                assert(lith.area > 0);
            }
            assert(has_search_log(terrain, area_step as int, lith));
        }
        Some(lith)
    }
}



/// A coordinate the sweep probes along one axis: at or past `lo`, offset
/// from it by a whole number of steps.
pub open spec fn on_grid(v: int, lo: int, step: int) -> bool {
    &&& lo <= v
    &&& (v - lo) % step == 0
}

/// Two multiples of `s` less than `s` apart are equal.
proof fn lemma_grid_unique(a: int, b: int, s: int)
    requires
        s >= 1,
        a % s == 0,
        b % s == 0,
        b <= a < b + s,
    ensures
        a == b,
{
    lemma_fundamental_div_mod(a, s);
    lemma_fundamental_div_mod(b, s);
    let qa: int = a / s;
    let qb: int = b / s;
    assert(a == s * qa);
    assert(b == s * qb);
    vstd::arithmetic::mul::lemma_mul_is_distributive_sub(s, qa, qb);
    assert(s * (qa - qb) == a - b);
    if qa - qb >= 1 {
        vstd::arithmetic::mul::lemma_mul_inequality(1, qa - qb, s);
        vstd::arithmetic::mul::lemma_mul_is_commutative(qa - qb, s);
        vstd::arithmetic::mul::lemma_mul_basics(s);
        assert(false);
    }
    if qa - qb <= -1 {
        vstd::arithmetic::mul::lemma_mul_inequality(qa - qb, -1, s);
        vstd::arithmetic::mul::lemma_mul_is_commutative(qa - qb, s);
        vstd::arithmetic::mul::lemma_mul_basics(s);
        assert(false);
    }
}


/// The record is exactly what the walk computes from some probe of the
/// sweep's grid that the terrain confirmed.
pub open spec fn from_grid_probe<T: Terrain>(
    t: &T,
    seed: u64,
    query: FindOptions,
    area_step: i32,
    m: Monolith,
) -> bool {
    exists|gx: int, gz: int|
        {
            &&& on_grid(gx, query.minx as int, query.step as int)
            &&& gx <= query.maxx
            &&& on_grid(gz, query.minz as int, query.step as int)
            &&& gz <= query.maxz
            &&& #[trigger] t.mono(gx, gz)
            &&& m == bfs_result(t, seed, gx, gz, area_step)
        }
}

impl World {
    /// Sweep the region for the first monolith: probe the grid in row-major
    /// order and stop at the first hit.  Returns `None` exactly when no
    /// grid point of the region lies in a monolith.
    pub fn find_monolith<T: Terrain>(
        &self,
        terrain: &T,
        query: &FindOptions,
        area_step: i32,
    ) -> (r: Option<Monolith>)
        requires
            area_step == 1 || area_step == 4,
            1 <= query.step <= 0x4000_0000,
            -0x4000_0000 <= query.minx <= 0x4000_0000,
            -0x4000_0000 <= query.maxx <= 0x4000_0000,
            -0x4000_0000 <= query.minz <= 0x4000_0000,
            -0x4000_0000 <= query.maxz <= 0x4000_0000,
        ensures
            r is Some ==> r->Some_0.seed == self.seed,
            r is Some ==> has_search_log(terrain, area_step as int, r->Some_0),
            r is Some && area_step == 1 ==> r->Some_0.area > 0,
            r is Some ==> from_grid_probe(terrain, self.seed, *query, area_step, r->Some_0),
            r is None ==> forall|gx: int, gz: int|
                on_grid(gx, query.minx as int, query.step as int) && gx <= query.maxx && on_grid(
                    gz,
                    query.minz as int,
                    query.step as int,
                ) && gz <= query.maxz ==> !(#[trigger] terrain.mono(gx, gz)),
    {
        let step: i64 = query.step as i64;
        let mut x: i64 = query.minx as i64;
        proof {
            lemma_small_mod(0, query.step as nat);
        }
        while x <= query.maxx as i64
            invariant
                1 <= step <= 0x4000_0000,
                step == query.step,
                area_step == 1 || area_step == 4,
                -0x4000_0000 <= query.minx <= 0x4000_0000,
                -0x4000_0000 <= query.maxx <= 0x4000_0000,
                -0x4000_0000 <= query.minz <= 0x4000_0000,
                -0x4000_0000 <= query.maxz <= 0x4000_0000,
                query.minx <= x <= 0x8000_0000,
                (x - query.minx) % (step as int) == 0,
                forall|gx: int, gz: int|
                    on_grid(gx, query.minx as int, step as int) && gx < x && on_grid(
                        gz,
                        query.minz as int,
                        step as int,
                    ) && gz <= query.maxz ==> !(#[trigger] terrain.mono(gx, gz)),
            decreases query.maxx as int + step - x,
        {
            let mut z: i64 = query.minz as i64;
            proof {
                lemma_small_mod(0, query.step as nat);
            }
            while z <= query.maxz as i64
                invariant
                    1 <= step <= 0x4000_0000,
                    step == query.step,
                    area_step == 1 || area_step == 4,
                    -0x4000_0000 <= query.minz <= 0x4000_0000,
                    -0x4000_0000 <= query.maxz <= 0x4000_0000,
                    -0x4000_0000 <= x <= 0x4000_0000,
                    query.minx <= x <= query.maxx,
                    (x - query.minx) % (step as int) == 0,
                    query.minz <= z <= 0x8000_0000,
                    (z - query.minz) % (step as int) == 0,
                    forall|gz: int|
                        on_grid(gz, query.minz as int, step as int) && gz < z ==> !(
                        #[trigger] terrain.mono(x as int, gz)),
                decreases query.maxz as int + step - z,
            {
                let r: Option<Monolith> = self.get_monolith(
                    terrain,
                    x as i32,
                    z as i32,
                    area_step,
                );
                if r.is_some() {
                    proof {
                        assert(terrain.mono(x as int, z as int));
                        assert(from_grid_probe(terrain, self.seed, *query, area_step, r->Some_0));
                    }
                    return r;
                }
                let ghost zprev: int = z as int;
                z = z + step;
                proof {
                    lemma_mod_multiples_vanish(1, zprev - query.minz, step as int);
                    assert forall|gz: int|
                        on_grid(gz, query.minz as int, step as int) && gz < z implies !(
                        #[trigger] terrain.mono(x as int, gz)) by {
                        if gz >= zprev {
                            lemma_grid_unique(
                                gz - query.minz,
                                zprev - query.minz,
                                step as int,
                            );
                        }
                    }
                }
            }
            let ghost xprev: int = x as int;
            x = x + step;
            proof {
                lemma_mod_multiples_vanish(1, xprev - query.minx, step as int);
                assert forall|gx: int, gz: int|
                    on_grid(gx, query.minx as int, step as int) && gx < x && on_grid(
                        gz,
                        query.minz as int,
                        step as int,
                    ) && gz <= query.maxz implies !(#[trigger] terrain.mono(gx, gz)) by {
                    if gx >= xprev {
                        lemma_grid_unique(gx - query.minx, xprev - query.minx, step as int);
                        assert(gx == xprev);
                    }
                }
            }
        }
        None
    }
}



/// Whether some record in `v` describes the same discovery as `m`.
fn contains_spot(v: &Vec<Monolith>, m: &Monolith) -> (r: bool)
    ensures
        r == exists|i: int| 0 <= i < v@.len() && same_spot_spec(#[trigger] v@[i], *m),
{
    let n: usize = v.len();
    let mut i: usize = 0;
    while i < n
        invariant
            i <= n,
            n == v@.len(),
            forall|j: int| 0 <= j < i ==> !same_spot_spec(#[trigger] v@[j], *m),
        decreases n - i,
    {
        if v[i].same_spot(m) {
            return true;
        }
        i = i + 1;
    }
    false
}

impl World {
    /// Sweep the region and collect every monolith it contains, merging
    /// records that describe the same discovery.  The sweep runs the grid
    /// in row-major order, stops once the optional limit is reached, and
    /// returns an empty list exactly when no grid point of the region lies
    /// in a monolith.  The sweep itself is sequential; a host that wants
    /// parallelism shards the region or the seeds across workers.
    pub fn find_monoliths<T: Terrain>(
        &self,
        terrain: &T,
        query: &FindOptions,
        area_step: i32,
    ) -> (r: Vec<Monolith>)
        requires
            area_step == 1 || area_step == 4,
            1 <= query.step <= 0x4000_0000,
            -0x4000_0000 <= query.minx <= 0x4000_0000,
            -0x4000_0000 <= query.maxx <= 0x4000_0000,
            -0x4000_0000 <= query.minz <= 0x4000_0000,
            -0x4000_0000 <= query.maxz <= 0x4000_0000,
        ensures
            forall|i: int, j: int|
                0 <= i < j < r@.len() ==> !same_spot_spec(#[trigger] r@[i], #[trigger] r@[j]),
            forall|i: int| 0 <= i < r@.len() ==> (#[trigger] r@[i]).seed == self.seed,
            forall|i: int|
                0 <= i < r@.len() ==> has_search_log(terrain, area_step as int, #[trigger] r@[i]),
            forall|i: int|
                0 <= i < r@.len() ==> from_grid_probe(
                    terrain,
                    self.seed,
                    *query,
                    area_step,
                    #[trigger] r@[i],
                ),
            area_step == 1 ==> forall|i: int| 0 <= i < r@.len() ==> (#[trigger] r@[i]).area > 0,
            query.limit matches Some(l) ==> (l >= 1 ==> r@.len() <= l),
            query.limit is None && r@.len() == 0 ==> forall|gx: int, gz: int|
                on_grid(gx, query.minx as int, query.step as int) && gx <= query.maxx && on_grid(
                    gz,
                    query.minz as int,
                    query.step as int,
                ) && gz <= query.maxz ==> !(#[trigger] terrain.mono(gx, gz)),
    {
        let mut found: Vec<Monolith> = Vec::new();
        let step: i64 = query.step as i64;
        let mut x: i64 = query.minx as i64;
        proof {
            lemma_small_mod(0, query.step as nat);
        }
        while x <= query.maxx as i64
            invariant
                1 <= step <= 0x4000_0000,
                step == query.step,
                area_step == 1 || area_step == 4,
                -0x4000_0000 <= query.minx <= 0x4000_0000,
                -0x4000_0000 <= query.maxx <= 0x4000_0000,
                -0x4000_0000 <= query.minz <= 0x4000_0000,
                -0x4000_0000 <= query.maxz <= 0x4000_0000,
                query.minx <= x <= 0x8000_0000,
                (x - query.minx) % (step as int) == 0,
                forall|i: int, j: int|
                    0 <= i < j < found@.len() ==> !same_spot_spec(
                        #[trigger] found@[i],
                        #[trigger] found@[j],
                    ),
                forall|i: int| 0 <= i < found@.len() ==> (#[trigger] found@[i]).seed == self.seed,
                forall|i: int|
                    0 <= i < found@.len() ==> has_search_log(
                        terrain,
                        area_step as int,
                        #[trigger] found@[i],
                    ),
                forall|i: int|
                    0 <= i < found@.len() ==> from_grid_probe(
                        terrain,
                        self.seed,
                        *query,
                        area_step,
                        #[trigger] found@[i],
                    ),
                area_step == 1 ==> forall|i: int|
                    0 <= i < found@.len() ==> (#[trigger] found@[i]).area > 0,
                query.limit matches Some(l) ==> (l >= 1 ==> found@.len() < l),
                found@.len() == 0 ==> forall|gx: int, gz: int|
                    on_grid(gx, query.minx as int, step as int) && gx < x && on_grid(
                        gz,
                        query.minz as int,
                        step as int,
                    ) && gz <= query.maxz ==> !(#[trigger] terrain.mono(gx, gz)),
            decreases query.maxx as int + step - x,
        {
            let mut z: i64 = query.minz as i64;
            proof {
                lemma_small_mod(0, query.step as nat);
            }
            while z <= query.maxz as i64
                invariant
                    1 <= step <= 0x4000_0000,
                    step == query.step,
                    area_step == 1 || area_step == 4,
                    -0x4000_0000 <= query.minz <= 0x4000_0000,
                    -0x4000_0000 <= query.maxz <= 0x4000_0000,
                    -0x4000_0000 <= x <= 0x4000_0000,
                    query.minz <= z <= 0x8000_0000,
                    (z - query.minz) % (step as int) == 0,
                    forall|i: int, j: int|
                        0 <= i < j < found@.len() ==> !same_spot_spec(
                            #[trigger] found@[i],
                            #[trigger] found@[j],
                        ),
                    forall|i: int|
                        0 <= i < found@.len() ==> (#[trigger] found@[i]).seed == self.seed,
                    forall|i: int|
                        0 <= i < found@.len() ==> has_search_log(
                            terrain,
                            area_step as int,
                            #[trigger] found@[i],
                        ),
                    query.minx <= x <= query.maxx,
                    (x - query.minx) % (step as int) == 0,
                    forall|i: int|
                        0 <= i < found@.len() ==> from_grid_probe(
                            terrain,
                            self.seed,
                            *query,
                            area_step,
                            #[trigger] found@[i],
                        ),
                    area_step == 1 ==> forall|i: int|
                        0 <= i < found@.len() ==> (#[trigger] found@[i]).area > 0,
                    query.limit matches Some(l) ==> (l >= 1 ==> found@.len() < l),
                    found@.len() == 0 ==> forall|gz: int|
                        on_grid(gz, query.minz as int, step as int) && gz < z ==> !(
                        #[trigger] terrain.mono(x as int, gz)),
                    found@.len() == 0 ==> forall|gx: int, gz: int|
                        on_grid(gx, query.minx as int, step as int) && gx < x && on_grid(
                            gz,
                            query.minz as int,
                            step as int,
                        ) && gz <= query.maxz ==> !(#[trigger] terrain.mono(gx, gz)),
                decreases query.maxz as int + step - z,
            {
                let got: Option<Monolith> = self.get_monolith(
                    terrain,
                    x as i32,
                    z as i32,
                    area_step,
                );
                if let Some(m) = got {
                    proof {
                        assert(terrain.mono(x as int, z as int));
                        assert(from_grid_probe(terrain, self.seed, *query, area_step, m));
                    }
                    if !contains_spot(&found, &m) {
                        found.push(m);
                        if let Some(many) = query.limit {
                            if found.len() as u64 >= many {
                                return found;
                            }
                        }
                    }
                }
                let ghost zprev: int = z as int;
                z = z + step;
                proof {
                    lemma_mod_multiples_vanish(1, zprev - query.minz, step as int);
                    if found@.len() == 0 {
                        assert forall|gz: int|
                            on_grid(gz, query.minz as int, step as int) && gz < z implies !(
                        #[trigger] terrain.mono(x as int, gz)) by {
                            if gz >= zprev {
                                lemma_grid_unique(
                                    gz - query.minz,
                                    zprev - query.minz,
                                    step as int,
                                );
                            }
                        }
                    }
                }
            }
            let ghost xprev: int = x as int;
            x = x + step;
            proof {
                lemma_mod_multiples_vanish(1, xprev - query.minx, step as int);
                if found@.len() == 0 {
                    assert forall|gx: int, gz: int|
                        on_grid(gx, query.minx as int, step as int) && gx < x && on_grid(
                            gz,
                            query.minz as int,
                            step as int,
                        ) && gz <= query.maxz implies !(#[trigger] terrain.mono(gx, gz)) by {
                        if gx >= xprev {
                            lemma_grid_unique(gx - query.minx, xprev - query.minx, step as int);
                            assert(gx == xprev);
                            assert(gz < z);
                            assert(!terrain.mono(xprev, gz));
                        } else {
                            assert(!terrain.mono(gx, gz));
                        }
                    }
                }
            }
        }
        found
    }
}


} // verus!
