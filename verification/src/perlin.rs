//! The integer heart of one Perlin octave and of the fractal stack.
//!
//! A Perlin instance owns a 256-entry permutation table and three coordinate
//! offsets.  The table fill and Fisher-Yates shuffle, and the exact generator
//! trajectory they consume, are verified here; the offsets are kept as the
//! 53-bit numerators of the unit-interval draws, so that the floating-point
//! evaluation layer can reconstruct the host's values bit for bit.
use vstd::prelude::*;

verus! {

use crate::rng::JavaRNG;
use crate::rng::lcg_bound;
use crate::rng::lcg_iter;
use crate::rng::lcg_unit_num;
use vstd::arithmetic::power2::pow2;
use vstd::arithmetic::power2::lemma2_to64;
use vstd::arithmetic::power2::lemma2_to64_rest;
use vstd::arithmetic::power2::lemma_pow2_pos;
use vstd::arithmetic::power2::lemma_pow2_strictly_increases;
use vstd::arithmetic::div_mod::lemma_mod_multiples_vanish;
use vstd::bits::lemma_usize_shl_is_mul;

/// The table before shuffling: entry `i` holds `i`.
pub open spec fn ident_map() -> Seq<u8> {
    Seq::new(256, |i: int| i as u8)
}

/// Every byte value occurs somewhere in the table.  For a table of 256
/// entries this says exactly that the table is a permutation of `0..=255`.
pub open spec fn is_permutation(m: Seq<u8>) -> bool {
    &&& m.len() == 256
    &&& forall|v: u8| #[trigger] m.contains(v)
}

/// The table and generator state after running the Fisher-Yates shuffle
/// from position `a` to the end: each position `a` swaps with `a + b` where
/// `b` is a bounded draw in `[0, 256 - a)`.
pub open spec fn shuffle_rec(m: Seq<u8>, s: u64, a: int) -> (Seq<u8>, u64)
    decreases 256 - a,
{
    if a < 0 || a >= 256 {
        (m, s)
    } else {
        let r: (i32, u64) = lcg_bound(s, (256 - a) as i32);
        let b: int = r.0 as int;
        let m2: Seq<u8> = m.update(a, m[a + b]).update(a + b, m[a]);
        shuffle_rec(m2, r.1, a + 1)
    }
}

/// The generator state component of the shuffle alone: the draws do not
/// depend on the table contents.
pub open spec fn shuffle_state(s: u64, a: int) -> u64
    decreases 256 - a,
{
    if a < 0 || a >= 256 {
        s
    } else {
        shuffle_state(lcg_bound(s, (256 - a) as i32).1, a + 1)
    }
}

/// The shuffle's state component is independent of the table.
pub proof fn lemma_shuffle_state(m: Seq<u8>, s: u64, a: int)
    ensures
        shuffle_rec(m, s, a).1 == shuffle_state(s, a),
    decreases 256 - a,
{
    if 0 <= a < 256 {
        let r: (i32, u64) = lcg_bound(s, (256 - a) as i32);
        let b: int = r.0 as int;
        let m2: Seq<u8> = m.update(a, m[a + b]).update(a + b, m[a]);
        lemma_shuffle_state(m2, r.1, a + 1);
    }
}

/// The permutation table produced by initialising one octave from state `s`:
/// six generator steps feed the three offsets, then the shuffle runs.
pub open spec fn perlin_map(s: u64) -> Seq<u8> {
    shuffle_rec(ident_map(), lcg_iter(s, 6), 0).0
}

/// The generator state after initialising one octave from state `s`.
pub open spec fn perlin_end_state(s: u64) -> u64 {
    shuffle_rec(ident_map(), lcg_iter(s, 6), 0).1
}

/// The generator state after initialising `n` octaves in a row from `s`.
pub open spec fn perlin_chain(s: u64, n: nat) -> u64
    decreases n,
{
    if n == 0 {
        s
    } else {
        perlin_end_state(perlin_chain(s, (n - 1) as nat))
    }
}

/// Chaining composes additively.
pub proof fn lemma_perlin_chain_add(s: u64, m: nat, n: nat)
    ensures
        perlin_chain(s, m + n) == perlin_chain(perlin_chain(s, m), n),
    decreases n,
{
    if n > 0 {
        lemma_perlin_chain_add(s, m, (n - 1) as nat);
        assert(perlin_chain(s, m + n) == perlin_end_state(perlin_chain(s, (m + n - 1) as nat)));
        assert(perlin_chain(perlin_chain(s, m), n) == perlin_end_state(
            perlin_chain(perlin_chain(s, m), (n - 1) as nat),
        ));
    }
}

/// A swap of two in-range positions keeps the table surjective.
proof fn lemma_swap_keeps_onto(m: Seq<u8>, i: int, j: int)
    requires
        m.len() == 256,
        0 <= i < 256,
        0 <= j < 256,
        forall|v: u8| #[trigger] m.contains(v),
    ensures
        forall|v: u8| #[trigger] m.update(i, m[j]).update(j, m[i]).contains(v),
{
    let m2: Seq<u8> = m.update(i, m[j]).update(j, m[i]);
    assert forall|v: u8| #[trigger] m2.contains(v) by {
        assert(m.contains(v));
        let k0: int = choose|k: int| 0 <= k < m.len() && m[k] == v;
        if k0 == i {
            assert(m2[j] == v);
        } else if k0 == j {
            assert(m2[i] == v);
        } else {
            assert(m2[k0] == v);
        }
    }
}

/// One Perlin octave: the permutation table and the three offset draws.
/// `xoff_num / 2^53 * 256` is the host's floating-point x offset; the other
/// two follow the same pattern.
#[derive(Clone, Debug)]
pub struct Perlin {
    pub map: Vec<u8>,
    pub xoff_num: u64,
    pub yoff_num: u64,
    pub zoff_num: u64,
}

impl Perlin {
    /// The table always holds exactly 256 entries.
    pub open spec fn wf(&self) -> bool {
        self.map@.len() == 256
    }

    /// This octave holds exactly the data that initialisation from
    /// generator state `s` produces.
    pub open spec fn initialized_from(&self, s: u64) -> bool {
        &&& self.map@ == perlin_map(s)
        &&& self.xoff_num == lcg_unit_num(s)
        &&& self.yoff_num == lcg_unit_num(lcg_iter(s, 2))
        &&& self.zoff_num == lcg_unit_num(lcg_iter(s, 4))
    }

    /// An empty octave: zeroed table and offsets.
    pub fn new() -> (r: Self)
        ensures
            r.wf(),
    {
        Perlin { map: vec![0u8; 256], xoff_num: 0, yoff_num: 0, zoff_num: 0 }
    }

    /// Draw the three offsets, fill the table with `0..=255` and shuffle it
    /// with bounded draws, exactly as the host seeds an octave.
    pub fn init(&mut self, rng: &mut JavaRNG)
        requires
            old(rng).wf(),
        ensures
            final(rng).wf(),
            final(self).wf(),
            final(self).initialized_from(old(rng)@),
            final(rng)@ == perlin_end_state(old(rng)@),
            is_permutation(final(self).map@),
    {
        let ghost s0: u64 = old(rng)@;
        self.xoff_num = rng.next_unit_numerator();
        self.yoff_num = rng.next_unit_numerator();
        self.zoff_num = rng.next_unit_numerator();
        proof {
            crate::rng::lemma_lcg_iter_add(s0, 2, 2);
            crate::rng::lemma_lcg_iter_add(s0, 4, 2);
        }
        self.map = identity_table();
        shuffle(&mut self.map, rng);
    }

    /// Advance the generator exactly as `many` octave initialisations would,
    /// drawing value for value.
    pub fn discard(rng: &mut JavaRNG, many: usize)
        requires
            old(rng).wf(),
        ensures
            final(rng).wf(),
            final(rng)@ == perlin_chain(old(rng)@, many as nat),
    {
        let mut k: usize = 0;
        while k < many
            invariant
                rng.wf(),
                k <= many,
                rng@ == perlin_chain(old(rng)@, k as nat),
            decreases many - k,
        {
            let ghost s_in: u64 = rng@;
            rng.step_n(6);
            let ghost s6: u64 = rng@;
            let mut a: usize = 0;
            while a < 256
                invariant
                    rng.wf(),
                    a <= 256,
                    shuffle_state(s6, 0) == shuffle_state(rng@, a as int),
                decreases 256 - a,
            {
                let ghost s_draw: u64 = rng@;
                let max: i32 = 256 - (a as i32);
                let _ = rng.next_i32_bound(max);
                proof {
                    assert(shuffle_state(s_draw, a as int) == shuffle_state(rng@, a as int + 1));
                }
                a = a + 1;
            }
            proof {
                lemma_shuffle_state(ident_map(), s6, 0);
                assert(shuffle_state(rng@, 256) == rng@);
                assert(rng@ == perlin_end_state(s_in));
                assert(perlin_chain(old(rng)@, (k + 1) as nat) == perlin_end_state(
                    perlin_chain(old(rng)@, k as nat),
                ));
            }
            k = k + 1;
        }
    }

    /// Advance the generator as `many` octave initialisations would, by the
    /// fast fixed count of 6 + 256 steps per octave.  This ignores the rare
    /// extra draws of the shuffle's rejection path, as the host's fast mode
    /// does.
    pub fn discard_fast(rng: &mut JavaRNG, many: usize)
        requires
            old(rng).wf(),
            many * 262 < 0x8000,
        ensures
            final(rng).wf(),
            final(rng)@ == lcg_iter(old(rng)@, (many * 262) as nat),
    {
        rng.step_n(many * 262);
    }
}


/// A fresh table holding `0..=255` in order.
fn identity_table() -> (r: Vec<u8>)
    ensures
        r@ == ident_map(),
        is_permutation(r@),
{
    let mut m: Vec<u8> = Vec::new();
    let mut i: usize = 0;
    while i < 256
        invariant
            i <= 256,
            m@.len() == i,
            forall|k: int| 0 <= k < i ==> m@[k] == k as u8,
        decreases 256 - i,
    {
        m.push(i as u8);
        i = i + 1;
    }
    assert(m@ =~= ident_map());
    assert forall|v: u8| #[trigger] m@.contains(v) by {
        assert(m@[v as int] == v);
    }
    m
}

/// Run the host's Fisher-Yates pass over the table, consuming one bounded
/// draw per position.
fn shuffle(map: &mut Vec<u8>, rng: &mut JavaRNG)
    requires
        old(rng).wf(),
        old(map)@.len() == 256,
        is_permutation(old(map)@),
    ensures
        final(rng).wf(),
        final(map)@.len() == 256,
        is_permutation(final(map)@),
        (final(map)@, final(rng)@) == shuffle_rec(old(map)@, old(rng)@, 0),
{
    let ghost m0: Seq<u8> = old(map)@;
    let ghost s0: u64 = old(rng)@;
    let mut a: usize = 0;
    while a < 256
        invariant
            rng.wf(),
            a <= 256,
            map@.len() == 256,
            forall|v: u8| #[trigger] map@.contains(v),
            shuffle_rec(m0, s0, 0) == shuffle_rec(map@, rng@, a as int),
        decreases 256 - a,
    {
        let ghost m_in: Seq<u8> = map@;
        let ghost s_in: u64 = rng@;
        let max: i32 = 256 - (a as i32);
        let b: i32 = rng.next_i32_bound(max);
        let bu: usize = b as usize;
        let va: u8 = map[a];
        let vb: u8 = map[a + bu];
        map.set(a, vb);
        map.set(a + bu, va);
        proof {
            lemma_swap_keeps_onto(m_in, a as int, a as int + b as int);
            assert(map@ == m_in.update(a as int, m_in[a + b]).update(
                a as int + b,
                m_in[a as int],
            ));
            assert(shuffle_rec(m_in, s_in, a as int) == shuffle_rec(map@, rng@, a as int + 1));
        }
        a = a + 1;
    }
    assert(shuffle_rec(map@, rng@, 256) == (map@, rng@));
}

/// Which early-exit predicate a staged fractal sample is driving at.
#[derive(Clone, Copy, Debug)]
pub enum SmartSample {
    Depth,
    Hill,
}

/// A stack of `OCTAVES` Perlin octaves, sampled at power-of-two scales.
#[derive(Clone, Debug)]
pub struct FractalPerlin<const OCTAVES: usize> {
    pub noise: Vec<Perlin>,
}

impl<const OCTAVES: usize> FractalPerlin<OCTAVES> {
    /// The stack holds one well-formed octave per slot.
    pub open spec fn wf(&self) -> bool {
        &&& self.noise@.len() == OCTAVES
        &&& forall|i: int| 0 <= i < OCTAVES ==> (#[trigger] self.noise@[i]).wf()
    }

    /// Octave `i` was initialised from the chained generator state `i`
    /// octaves after `s`, and its table is a permutation.
    pub open spec fn octaves_from(&self, s: u64) -> bool {
        forall|i: int|
            0 <= i < OCTAVES ==> {
                &&& (#[trigger] self.noise@[i]).initialized_from(perlin_chain(s, i as nat))
                &&& is_permutation(self.noise@[i].map@)
            }
    }

    /// A stack of empty octaves.
    pub fn new() -> (r: Self)
        ensures
            r.wf(),
    {
        let mut noise: Vec<Perlin> = Vec::new();
        let mut i: usize = 0;
        while i < OCTAVES
            invariant
                i <= OCTAVES,
                noise@.len() == i,
                forall|k: int| 0 <= k < i ==> (#[trigger] noise@[k]).wf(),
            decreases OCTAVES - i,
        {
            noise.push(Perlin::new());
            i = i + 1;
        }
        FractalPerlin { noise }
    }

    /// Initialise every octave in order from the shared generator.
    pub fn init(&mut self, rng: &mut JavaRNG)
        requires
            old(rng).wf(),
        ensures
            final(rng).wf(),
            final(self).wf(),
            final(self).octaves_from(old(rng)@),
            final(rng)@ == perlin_chain(old(rng)@, OCTAVES as nat),
    {
        let ghost s0: u64 = old(rng)@;
        let mut noise: Vec<Perlin> = Vec::new();
        let mut i: usize = 0;
        while i < OCTAVES
            invariant
                rng.wf(),
                i <= OCTAVES,
                noise@.len() == i,
                rng@ == perlin_chain(s0, i as nat),
                forall|k: int|
                    0 <= k < i ==> {
                        &&& (#[trigger] noise@[k]).wf()
                        &&& noise@[k].initialized_from(perlin_chain(s0, k as nat))
                        &&& is_permutation(noise@[k].map@)
                    },
            decreases OCTAVES - i,
        {
            let mut p: Perlin = Perlin::new();
            p.init(rng);
            noise.push(p);
            i = i + 1;
        }
        self.noise = noise;
    }

    /// The period of the stack: 256 sample points, doubled per extra octave.
    pub fn repeats(&self) -> (r: usize)
        requires
            1 <= OCTAVES <= 24,
        ensures
            r == 256 * pow2((OCTAVES - 1) as nat),
    {
        proof {
            lemma2_to64();
            if OCTAVES < 24 {
                lemma_pow2_strictly_increases((OCTAVES - 1) as nat, 23);
            }
            lemma_usize_shl_is_mul(256usize, (OCTAVES - 1) as usize);
        }
        256usize << (OCTAVES - 1)
    }

    /// The output scale of octave `octave`: 2^octave.  The host applies it
    /// as a floating-point factor; the value itself is this integer.
    pub fn octave_scale(octave: usize) -> (r: u64)
        requires
            octave <= 62,
        ensures
            r == pow2(octave as nat),
    {
        proof {
            lemma2_to64();
            lemma2_to64_rest();
            if octave < 62 {
                lemma_pow2_strictly_increases(octave as nat, 62);
            }
            vstd::bits::lemma_u64_shl_is_mul(1u64, octave as u64);
        }
        1u64 << (octave as u64)
    }

    /// The usual maximum magnitude of the summed noise: 2^OCTAVES.
    pub fn maxval(&self) -> (r: u64)
        requires
            OCTAVES <= 62,
        ensures
            r == pow2(OCTAVES as nat),
    {
        Self::octave_scale(OCTAVES)
    }

    /// The theoretical maximum when every octave peaks at once:
    /// 2^0 + 2^1 + ... + 2^OCTAVES.
    pub fn tmaxval(&self) -> (r: u64)
        requires
            OCTAVES <= 61,
        ensures
            r == pow2((OCTAVES + 1) as nat) - 1,
    {
        proof {
            lemma2_to64();
            lemma2_to64_rest();
            if OCTAVES + 1 < 62 {
                lemma_pow2_strictly_increases((OCTAVES + 1) as nat, 62);
            }
            lemma_pow2_pos((OCTAVES + 1) as nat);
            vstd::bits::lemma_u64_shl_is_mul(1u64, (OCTAVES + 1) as u64);
        }
        (1u64 << ((OCTAVES + 1) as u64)) - 1
    }
}


/// The table entry at `i`, with the host's wrap-around masking.
pub open spec fn perm_at(m: Seq<u8>, i: int) -> u8
    recommends
        m.len() == 256,
{
    m[i % 256]
}

/// The hash the sampler reads for one cell corner `(dx, dy, dz)` of the
/// grid cell at `(xi, yi, zi)`: three chained table lookups.
pub open spec fn corner_hash_spec(m: Seq<u8>, xi: int, yi: int, zi: int, dx: int, dy: int, dz: int) -> u8
    recommends
        m.len() == 256,
{
    let a: int = perm_at(m, xi + dx) as int;
    let b: int = perm_at(m, yi + dy + a) as int;
    perm_at(m, b + zi + dz)
}

/// The four-bit gradient selector at a grid coordinate: the chained lookup
/// the host's gradient accessor makes.
pub open spec fn grad_hash_spec(m: Seq<u8>, gx: int, gy: int, gz: int) -> u8
    recommends
        m.len() == 256,
{
    let a: int = perm_at(m, gx % 256) as int;
    let b: int = perm_at(m, (gy % 256) + a) as int;
    (perm_at(m, (b + gz % 256)) & 0x0F) as u8
}

impl Perlin {
    /// Read the table with the host's wrap-around masking.
    pub fn get_map(&self, index: usize) -> (r: u8)
        requires
            self.wf(),
        ensures
            r == perm_at(self.map@, index as int),
    {
        self.map[index % 256]
    }

    /// The hash the sampler reads for one cell corner: `(xi, yi, zi)` are
    /// the cell's wrapped grid coordinates, `(dx, dy, dz)` pick the corner.
    /// The floating-point layer feeds it to the gradient formula.
    pub fn corner_hash(&self, xi: usize, yi: usize, zi: usize, dx: usize, dy: usize, dz: usize) -> (r: u8)
        requires
            self.wf(),
            xi < 256,
            yi < 256,
            zi < 256,
            dx <= 1,
            dy <= 1,
            dz <= 1,
        ensures
            r == corner_hash_spec(self.map@, xi as int, yi as int, zi as int, dx as int, dy as int, dz as int),
    {
        let a: usize = self.get_map(xi + dx) as usize;
        let b: usize = self.get_map(yi + dy + a) as usize;
        self.get_map(b + zi + dz)
    }

    /// The gradient selector at a grid coordinate.
    pub fn grad_hash(&self, grid_x: usize, grid_y: usize, grid_z: usize) -> (r: u8)
        requires
            self.wf(),
        ensures
            r == grad_hash_spec(self.map@, grid_x as int, grid_y as int, grid_z as int),
    {
        let a: usize = self.get_map(grid_x % 256) as usize;
        let b: usize = self.get_map((grid_y % 256) + a) as usize;
        self.get_map(b + (grid_z % 256)) & 0x0F
    }
}



/// Table lookups repeat with period 256.
pub proof fn lemma_perm_at_period(m: Seq<u8>, i: int)
    ensures
        perm_at(m, i + 256) == perm_at(m, i),
{
    lemma_mod_multiples_vanish(1, i, 256);
}

/// The gradient selectors repeat when any grid coordinate moves by one
/// period of 256 cells: the integer kernel of the noise field's
/// periodicity.  The floating-point interpolation between the selected
/// gradients uses only the fractional parts, so the sampled field repeats
/// with the same period.
pub proof fn lemma_grad_hash_period(m: Seq<u8>, gx: int, gy: int, gz: int)
    ensures
        grad_hash_spec(m, gx + 256, gy, gz) == grad_hash_spec(m, gx, gy, gz),
        grad_hash_spec(m, gx, gy + 256, gz) == grad_hash_spec(m, gx, gy, gz),
        grad_hash_spec(m, gx, gy, gz + 256) == grad_hash_spec(m, gx, gy, gz),
{
    lemma_mod_multiples_vanish(1, gx, 256);
    lemma_mod_multiples_vanish(1, gy, 256);
    lemma_mod_multiples_vanish(1, gz, 256);
}



/// The sum of the octave contributions from octave `i` to the top.  The
/// staged sampler accumulates exactly this, walking from the most
/// influential octave down to `i`.
pub open spec fn tail_sum(c: Seq<int>, i: int) -> int
    decreases c.len() - i,
{
    if i < 0 || i >= c.len() {
        0
    } else {
        c[i] + tail_sum(c, i + 1)
    }
}

/// Every contribution below octave `i` lies within plus or minus half of
/// that octave's scale.
pub open spec fn octaves_bounded(c: Seq<int>, i: int, half: int) -> bool {
    forall|j: int|
        0 <= j < i ==> -(half * pow2(j as nat)) <= #[trigger] c[j] <= half * pow2(j as nat)
}

/// The octaves below `i` move the sum by at most half of `2^i - 1` in
/// either direction.
proof fn lemma_front_bound(c: Seq<int>, i: int, half: int)
    requires
        0 <= i <= c.len(),
        half >= 0,
        octaves_bounded(c, i, half),
    ensures
        tail_sum(c, i) - half * (pow2(i as nat) - 1) <= tail_sum(c, 0) <= tail_sum(c, i) + half
            * (pow2(i as nat) - 1),
    decreases i,
{
    lemma_pow2_pos(i as nat);
    if i == 0 {
        assert(pow2(0) == 1) by {
            lemma2_to64();
        }
        vstd::arithmetic::mul::lemma_mul_basics(half);
    } else {
        lemma_front_bound(c, i - 1, half);
        lemma_pow2_pos((i - 1) as nat);
        assert(pow2(i as nat) == 2 * pow2((i - 1) as nat)) by {
            vstd::arithmetic::power2::lemma_pow2_unfold(i as nat);
        }
        assert(tail_sum(c, i - 1) == c[i - 1] + tail_sum(c, i));
        assert(half * (pow2((i - 1) as nat) - 1) + half * pow2((i - 1) as nat) == half * (pow2(
            i as nat,
        ) - 1)) by {
            vstd::arithmetic::mul::lemma_mul_is_distributive_add(
                half,
                pow2((i - 1) as nat) - 1,
                pow2((i - 1) as nat) as int,
            );
        }
    }
}

/// The staged early exit of the hill test is sound: once the partial sum
/// clears the threshold by half the current octave's scale, and every
/// remaining octave is bounded by half its scale, the full sum clears the
/// threshold too — cutting the walk short cannot change the verdict.
pub proof fn lemma_early_exit_sound(c: Seq<int>, i: int, half: int, thr: int)
    requires
        0 <= i < c.len(),
        half >= 0,
        octaves_bounded(c, i, half),
        tail_sum(c, i) - half * pow2(i as nat) > thr,
    ensures
        tail_sum(c, 0) > thr,
{
    lemma_front_bound(c, i, half);
    lemma_pow2_pos(i as nat);
    vstd::arithmetic::mul::lemma_mul_is_distributive_sub(half, pow2(i as nat) as int, 1);
    vstd::arithmetic::mul::lemma_mul_basics(half);
}

/// The staged early exit of the depth test is sound: once the partial
/// sum's magnitude sits below the threshold by half the current octave's
/// scale, the full sum's magnitude stays below the threshold.
pub proof fn lemma_early_exit_sound_abs(c: Seq<int>, i: int, half: int, thr: int)
    requires
        0 <= i < c.len(),
        half >= 0,
        octaves_bounded(c, i, half),
        vstd::math::abs(tail_sum(c, i)) + half * pow2(i as nat) < thr,
    ensures
        vstd::math::abs(tail_sum(c, 0)) < thr,
{
    lemma_front_bound(c, i, half);
    lemma_pow2_pos(i as nat);
    vstd::arithmetic::mul::lemma_mul_is_distributive_sub(half, pow2(i as nat) as int, 1);
    vstd::arithmetic::mul::lemma_mul_basics(half);
}


} // verus!
