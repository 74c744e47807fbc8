//! The 48-bit linear congruential generator that world seeding depends on.
//!
//! Every operation is specified against `lcg_step`, the mathematical
//! transition function `s -> (s * MULT + INC) mod 2^48`, so that callers can
//! reason about the exact state trajectory a sequence of draws produces.
use vstd::prelude::*;

verus! {

use vstd::arithmetic::div_mod::lemma_add_mod_noop;
use vstd::arithmetic::div_mod::lemma_div_pos_is_pos;
use vstd::arithmetic::div_mod::lemma_multiply_divide_lt;
use vstd::arithmetic::mul::lemma_mul_is_commutative;
use vstd::arithmetic::mul::lemma_mul_strict_inequality;
use vstd::arithmetic::div_mod::lemma_mod_multiples_vanish;
use vstd::arithmetic::div_mod::lemma_mul_mod_noop_left;
use vstd::arithmetic::div_mod::lemma_mul_mod_noop_right;
use vstd::arithmetic::div_mod::lemma_small_mod;
use vstd::arithmetic::mul::lemma_mul_is_associative;

/// The modulus of the generator: 2^48.
pub const LCG_MOD: u64 = 0x1_0000_0000_0000;

/// Mask with the low 48 bits set.
pub const LCG_MASK: u64 = 0xFFFF_FFFF_FFFF;

/// Multiplier of the generator.
pub const LCG_MULT: u64 = 0x5_DEEC_E66D;

/// Addend of the generator.
pub const LCG_INC: u64 = 11;

/// Modular multiplicative inverse of `LCG_MULT` modulo 2^48.
pub const LCG_INV_MULT: u64 = 0xDFE0_5BCB_1365;

/// One state advance: `s * LCG_MULT + LCG_INC`, reduced modulo 2^48.
pub open spec fn lcg_step(s: u64) -> u64 {
    ((s * LCG_MULT + LCG_INC) % (LCG_MOD as int)) as u64
}

/// One state reversal: `(s - LCG_INC) * LCG_INV_MULT`, reduced modulo 2^48.
/// Adding the modulus first keeps the intermediate value non-negative.
pub open spec fn lcg_back(s: u64) -> u64 {
    (((s + LCG_MOD - LCG_INC) * LCG_INV_MULT) % (LCG_MOD as int)) as u64
}

/// The state after `n` forward steps from `s`.
pub open spec fn lcg_iter(s: u64, n: nat) -> u64
    decreases n,
{
    if n == 0 {
        s
    } else {
        lcg_iter(lcg_step(s), (n - 1) as nat)
    }
}

/// The state after `n` backward steps from `s`.
pub open spec fn lcg_back_iter(s: u64, n: nat) -> u64
    decreases n,
{
    if n == 0 {
        s
    } else {
        lcg_back_iter(lcg_back(s), (n - 1) as nat)
    }
}

/// The state a fresh generator holds for a given seed.
pub open spec fn lcg_seed_state(seed: u64) -> u64 {
    (seed ^ LCG_MULT) & LCG_MASK
}

/// A step is undone by a backward step.
pub proof fn lemma_lcg_step_back(s: u64)
    requires
        s < LCG_MOD,
    ensures
        lcg_back(lcg_step(s)) == s,
{
    let p: int = LCG_MOD as int;
    let a: int = LCG_MULT as int;
    let c: int = LCG_INC as int;
    let ai: int = LCG_INV_MULT as int;
    let t: int = (s * a + c) % p;
    assert(lcg_step(s) == t);
    // (t + p - c) mod p == (s * a) mod p
    lemma_add_mod_noop(s * a + c, p - c, p);
    assert((s * a + c) % p + (p - c) % p == t + (p - c) % p);
    lemma_small_mod((p - c) as nat, p as nat);
    assert((t + (p - c)) % p == (s * a + p) % p);
    lemma_mod_multiples_vanish(1, s * a, p);
    assert((s * a + p) % p == (s * a) % p);
    // ((t + p - c) * ai) mod p == (s * a * ai) mod p
    lemma_mul_mod_noop_left(t + p - c, ai, p);
    lemma_mul_mod_noop_left(s * a, ai, p);
    assert(((t + (p - c)) * ai) % p == ((s * a) * ai) % p);
    // s * a * ai == s * (a * ai), and (a * ai) mod p == 1
    lemma_mul_is_associative(s as int, a, ai);
    lemma_mul_mod_noop_right(s as int, a * ai, p);
    assert((a * ai) % p == 1);
    assert((s * ((a * ai) % p)) % p == (s * 1) % p);
    lemma_small_mod(s as nat, p as nat);
    assert(lcg_back(lcg_step(s)) == (s * a * ai) % p) by {
        assert(lcg_back(t as u64) == ((t + (p - c)) * ai) % p);
    }
}

/// A backward step is undone by a forward step.
#[verifier::rlimit(50)]
pub proof fn lemma_lcg_back_step(s: u64)
    requires
        s < LCG_MOD,
    ensures
        lcg_step(lcg_back(s)) == s,
{
    let p: int = LCG_MOD as int;
    let a: int = LCG_MULT as int;
    let c: int = LCG_INC as int;
    let ai: int = LCG_INV_MULT as int;
    let u: int = ((s + p - c) * ai) % p;
    assert(lcg_back(s) == u);
    assert((u * a) % p == ((s + p - c) * ai * a) % p) by {
        lemma_mul_mod_noop_left((s + p - c) * ai, a, p);
    }
    assert((s + p - c) * ai * a == (s + p - c) * (ai * a)) by {
        lemma_mul_is_associative(s + p - c, ai, a);
    }
    assert(((s + p - c) * (ai * a)) % p == (s + p - c) % p) by {
        lemma_mul_mod_noop_right(s + p - c, ai * a, p);
        assert((ai * a) % p == 1);
        assert(((s + p - c) * 1) % p == (s + p - c) % p);
    }
    assert((u * a + c) % p == ((u * a) % p + c) % p) by {
        lemma_add_mod_noop(u * a, c, p);
        lemma_small_mod(c as nat, p as nat);
    }
    assert(((s + p - c) % p + c) % p == ((s + p - c) + c) % p) by {
        lemma_add_mod_noop(s + p - c, c, p);
        lemma_small_mod(c as nat, p as nat);
    }
    assert((s + p) % p == s as int) by {
        lemma_mod_multiples_vanish(1, s as int, p);
        lemma_small_mod(s as nat, p as nat);
    }
}

/// Unfolding `lcg_iter` at the far end: one more iteration appends a step.
pub proof fn lemma_lcg_iter_snoc(s: u64, n: nat)
    ensures
        lcg_iter(s, n + 1) == lcg_step(lcg_iter(s, n)),
    decreases n,
{
    assert(lcg_iter(s, n + 1) == lcg_iter(lcg_step(s), n));
    if n > 0 {
        lemma_lcg_iter_snoc(lcg_step(s), (n - 1) as nat);
        assert(lcg_iter(s, n) == lcg_iter(lcg_step(s), (n - 1) as nat));
    }
}

/// Iteration composes additively.
pub proof fn lemma_lcg_iter_add(s: u64, m: nat, n: nat)
    ensures
        lcg_iter(s, m + n) == lcg_iter(lcg_iter(s, m), n),
    decreases m,
{
    if m > 0 {
        lemma_lcg_iter_add(lcg_step(s), (m - 1) as nat, n);
        assert(lcg_iter(s, m + n) == lcg_iter(lcg_step(s), (m + n - 1) as nat));
        assert(lcg_iter(s, m) == lcg_iter(lcg_step(s), (m - 1) as nat));
    }
}

/// Iterating the step function keeps the state reduced.
pub proof fn lemma_lcg_iter_wf(s: u64, n: nat)
    requires
        s < LCG_MOD,
    ensures
        lcg_iter(s, n) < LCG_MOD,
    decreases n,
{
    if n > 0 {
        lemma_lcg_iter_wf(lcg_step(s), (n - 1) as nat);
    }
}

/// `n` backward steps undo `n` forward steps.
pub proof fn lemma_lcg_roundtrip(s: u64, n: nat)
    requires
        s < LCG_MOD,
    ensures
        lcg_back_iter(lcg_iter(s, n), n) == s,
    decreases n,
{
    if n > 0 {
        lemma_lcg_iter_snoc(s, (n - 1) as nat);
        lemma_lcg_iter_wf(s, (n - 1) as nat);
        lemma_lcg_step_back(lcg_iter(s, (n - 1) as nat));
        assert(lcg_back(lcg_iter(s, n)) == lcg_iter(s, (n - 1) as nat));
        lemma_lcg_roundtrip(s, (n - 1) as nat);
        assert(lcg_back_iter(lcg_iter(s, n), n) == lcg_back_iter(
            lcg_back(lcg_iter(s, n)),
            (n - 1) as nat,
        ));
    }
}

/// The generator: 48 bits of state, advanced by an affine map modulo 2^48.
#[derive(Clone, Debug)]
pub struct JavaRNG {
    state: u64,
}

impl View for JavaRNG {
    type V = u64;

    closed spec fn view(&self) -> u64 {
        self.state
    }
}

impl JavaRNG {
    /// The state always stays below the modulus.
    pub open spec fn wf(&self) -> bool {
        self@ < LCG_MOD
    }

    /// Seed the generator exactly as the host does: xor with the multiplier,
    /// masked to 48 bits.
    pub fn from_seed(seed: u64) -> (r: Self)
        ensures
            r.wf(),
            r@ == lcg_seed_state(seed),
    {
        proof {
            assert((seed ^ 0x5_DEEC_E66Du64) & 0xFFFF_FFFF_FFFFu64 < 0x1_0000_0000_0000u64)
                by (bit_vector);
        }
        JavaRNG { state: (seed ^ LCG_MULT) & LCG_MASK }
    }

    /// Older name of `from_seed`, kept for callers that use it.
    pub fn new(seed: u64) -> (r: Self)
        ensures
            r.wf(),
            r@ == lcg_seed_state(seed),
    {
        Self::from_seed(seed)
    }

    /// Adopt a raw 48-bit state.
    pub fn from_state(state: u64) -> (r: Self)
        ensures
            r.wf(),
            r@ == state & LCG_MASK,
    {
        proof {
            assert(state & 0xFFFF_FFFF_FFFFu64 < 0x1_0000_0000_0000u64) by (bit_vector);
        }
        JavaRNG { state: state & LCG_MASK }
    }

    /// The seed that would start a generator at the current state.
    pub fn reverse_seed(&self) -> (r: u64)
        ensures
            r == self@ ^ LCG_MULT,
    {
        self.state ^ LCG_MULT
    }

    /// Read the raw state.
    pub fn state(&self) -> (r: u64)
        ensures
            r == self@,
    {
        self.state
    }

    /// Advance the state once.
    pub fn step(&mut self)
        requires
            old(self).wf(),
        ensures
            final(self).wf(),
            final(self)@ == lcg_step(old(self)@),
    {
        let s: u64 = self.state;
        proof {
            assert((s as int) * (LCG_MULT as int) < 0x1_0000_0000_0000 * 0x5_DEEC_E66D)
                by (nonlinear_arith)
                requires
                    s < 0x1_0000_0000_0000u64,
            ;
        }
        let next: u64 = (((s as u128) * (LCG_MULT as u128) + (LCG_INC as u128)) % (
        LCG_MOD as u128)) as u64;
        self.state = next;
    }

    /// Reverse the state once.
    pub fn back(&mut self)
        requires
            old(self).wf(),
        ensures
            final(self).wf(),
            final(self)@ == lcg_back(old(self)@),
    {
        let s: u64 = self.state;
        proof {
            assert(((s as int) + 0xFFFF_FFFF_FFF5) * (LCG_INV_MULT as int) < 0x2_0000_0000_0000
                * 0xDFE0_5BCB_1365) by (nonlinear_arith)
                requires
                    s < 0x1_0000_0000_0000u64,
            ;
        }
        let next: u64 = ((((s as u128) + ((LCG_MOD - LCG_INC) as u128)) * (LCG_INV_MULT as u128))
            % (LCG_MOD as u128)) as u64;
        self.state = next;
    }

    /// Advance the state `n` times.
    pub fn step_n(&mut self, n: usize)
        requires
            old(self).wf(),
            n < 0x8000,
        ensures
            final(self).wf(),
            final(self)@ == lcg_iter(old(self)@, n as nat),
    {
        let mut i: usize = 0;
        while i < n
            invariant
                i <= n,
                self.wf(),
                self@ == lcg_iter(old(self)@, i as nat),
            decreases n - i,
        {
            proof {
                lemma_lcg_iter_snoc(old(self)@, i as nat);
            }
            self.step();
            i = i + 1;
        }
    }

    /// Reverse the state `n` times.
    pub fn back_n(&mut self, n: usize)
        requires
            old(self).wf(),
            n < 0x8000,
        ensures
            final(self).wf(),
            final(self)@ == lcg_back_iter(old(self)@, n as nat),
    {
        let mut i: usize = 0;
        while i < n
            invariant
                i <= n,
                self.wf(),
                self@ == lcg_back_iter(old(self)@, i as nat),
            decreases n - i,
        {
            proof {
                lemma_lcg_back_iter_snoc(old(self)@, i as nat);
            }
            self.back();
            i = i + 1;
        }
    }
}

/// The value the host extracts from a state: the top `bits` bits of the 48,
/// reinterpreted as a signed 32-bit integer.
pub open spec fn lcg_out(s: u64, bits: u8) -> i32
    recommends
        bits <= 32,
{
    let v: u64 = s >> ((48 - bits) as u64);
    if v < 0x8000_0000 {
        v as i32
    } else {
        ((v as int) - 0x1_0000_0000) as i32
    }
}

/// The 31-bit output is non-negative and below 2^31.
pub proof fn lemma_lcg_out31(s: u64)
    requires
        s < LCG_MOD,
    ensures
        0 <= lcg_out(s, 31) < 0x8000_0000,
{
    assert(s >> 17u64 < 0x8000_0000u64) by (bit_vector)
        requires
            s < 0x1_0000_0000_0000u64,
    ;
}

/// Fuel given to the bounded-draw rejection loop: the full period of the
/// generator.  Within one period every 31-bit output occurs, so the loop
/// never comes close to exhausting it.
pub const LCG_REJECT_FUEL: u64 = 0x1_0000_0000_0000;

/// One bounded draw for a `max` that is not a power of two: draw 31 bits,
/// reduce modulo `max`, and redraw while the host's unbiasing test rejects
/// the sample.  The test `n - t + max - 1 >= 2^31` is precisely "the host's
/// 32-bit computation of `n - t + (max - 1)` wraps negative".  The recursion
/// carries fuel so that it is well-founded; the fuel never runs out in any
/// feasible execution.
pub open spec fn lcg_bound_rec(s: u64, max: i32, fuel: nat) -> (i32, u64)
    recommends
        max > 0,
    decreases fuel,
{
    let s1: u64 = lcg_step(s);
    let n: i32 = lcg_out(s1, 31);
    let t: i32 = (n % max) as i32;
    if n - t + max - 1 < 0x8000_0000 || fuel == 0 {
        (t, s1)
    } else {
        lcg_bound_rec(s1, max, (fuel - 1) as nat)
    }
}

/// One bounded draw for a power-of-two `max`: scale the 31-bit output.
pub open spec fn lcg_bound_pow2(s: u64, max: i32) -> (i32, u64) {
    let s1: u64 = lcg_step(s);
    ((max * lcg_out(s1, 31) / 0x8000_0000) as i32, s1)
}

/// The result and final state of `next_i32_bound` from state `s`.
pub open spec fn lcg_bound(s: u64, max: i32) -> (i32, u64)
    recommends
        max > 0,
{
    if max & ((max - 1) as i32) == 0 {
        lcg_bound_pow2(s, max)
    } else {
        lcg_bound_rec(s, max, LCG_REJECT_FUEL as nat)
    }
}

/// The numerator, over 2^53, of the unit-interval draw made from state `s`:
/// 26 high bits and 27 low bits from two consecutive states.
pub open spec fn lcg_unit_num(s: u64) -> int {
    lcg_out(lcg_step(s), 26) * 0x800_0000 + lcg_out(lcg_step(lcg_step(s)), 27)
}

impl JavaRNG {
    /// Advance once and return the top `BITS` bits of the state as an `i32`.
    pub fn next<const BITS: u8>(&mut self) -> (r: i32)
        requires
            old(self).wf(),
            BITS <= 32,
        ensures
            final(self).wf(),
            final(self)@ == lcg_step(old(self)@),
            r == lcg_out(final(self)@, BITS),
    {
        self.step();
        let sh: u8 = 48 - BITS;
        let v: u64 = self.state >> (sh as u64);
        if v < 0x8000_0000 {
            v as i32
        } else {
            proof {
                let s: u64 = self.state;
                let sh64: u64 = sh as u64;
                assert(s >> sh64 < 0x1_0000_0000u64) by (bit_vector)
                    requires
                        s < 0x1_0000_0000_0000u64 && sh64 >= 16u64 && sh64 <= 63u64,
                ;
            }
            ((v as i64) - 0x1_0000_0000) as i32
        }
    }

    /// Draw a value uniformly in `[0, max)` the way the host does.
    pub fn next_i32_bound(&mut self, max: i32) -> (r: i32)
        requires
            old(self).wf(),
            max > 0,
        ensures
            final(self).wf(),
            (r, final(self)@) == lcg_bound(old(self)@, max),
            0 <= r < max,
    {
        if max & (max - 1) == 0 {
            let n: i32 = self.next::<31>();
            proof {
                lemma_lcg_out31(self@);
                lemma_pow2_draw_range(max, n);
            }
            ((max as i64) * (n as i64) / 0x8000_0000) as i32
        } else {
            let ghost s0: u64 = old(self)@;
            let ghost mut pre: u64 = old(self)@;
            let mut fuel: u64 = LCG_REJECT_FUEL;
            let mut n: i32 = self.next::<31>();
            proof {
                lemma_lcg_out31(self@);
            }
            let mut take: i32 = n % max;
            while (n as i64) - (take as i64) + (max as i64) - 1 >= 0x8000_0000 && fuel > 0
                invariant
                    self.wf(),
                    max > 0,
                    self@ == lcg_step(pre),
                    n == lcg_out(self@, 31),
                    0 <= n < 0x8000_0000,
                    take == n % max,
                    0 <= take < max,
                    lcg_bound_rec(s0, max, LCG_REJECT_FUEL as nat) == lcg_bound_rec(
                        pre,
                        max,
                        fuel as nat,
                    ),
                decreases fuel,
            {
                proof {
                    pre = self@;
                }
                fuel = fuel - 1;
                n = self.next::<31>();
                proof {
                    lemma_lcg_out31(self@);
                }
                take = n % max;
            }
            take
        }
    }

    /// Advance twice and return the 53-bit numerator of the unit draw.
    /// Dividing it by 2^53 gives the floating-point value the host computes.
    pub fn next_unit_numerator(&mut self) -> (r: u64)
        requires
            old(self).wf(),
        ensures
            final(self).wf(),
            final(self)@ == lcg_iter(old(self)@, 2),
            r == lcg_unit_num(old(self)@),
            r < 0x20_0000_0000_0000,
    {
        let ghost s0: u64 = old(self)@;
        let h: i32 = self.next::<26>();
        proof {
            let s: u64 = self@;
            assert(s >> 22u64 < 0x400_0000u64) by (bit_vector)
                requires
                    s < 0x1_0000_0000_0000u64,
            ;
        }
        let l: i32 = self.next::<27>();
        proof {
            let s: u64 = self@;
            assert(s >> 21u64 < 0x800_0000u64) by (bit_vector)
                requires
                    s < 0x1_0000_0000_0000u64,
            ;
            assert(lcg_iter(s0, 2) == lcg_step(lcg_step(s0))) by {
                assert(lcg_iter(s0, 2) == lcg_iter(lcg_step(s0), 1));
                assert(lcg_iter(lcg_step(s0), 1) == lcg_iter(lcg_step(lcg_step(s0)), 0));
            }
            let hv: u64 = h as u64;
            let lv: u64 = l as u64;
            assert((hv << 27u64) | lv == hv * 0x800_0000 + lv) by (bit_vector)
                requires
                    hv < 0x400_0000u64 && lv < 0x800_0000u64,
            ;
        }
        ((h as u64) << 27u64) | (l as u64)
    }
}

/// The scaled power-of-two draw lands in `[0, max)`.
proof fn lemma_pow2_draw_range(max: i32, n: i32)
    requires
        max > 0,
        0 <= n < 0x8000_0000,
    ensures
        0 <= max * n / 0x8000_0000 < max,
        (max as i64) * (n as i64) < 0x4000_0000_0000_0000,
{
    assert(max * n >= 0) by (nonlinear_arith)
        requires
            max > 0 && n >= 0,
    ;
    lemma_div_pos_is_pos(max * n, 0x8000_0000);
    // max * n < max * 2^31, so the quotient is below max
    lemma_mul_strict_inequality(n as int, 0x8000_0000, max as int);
    lemma_mul_is_commutative(n as int, max as int);
    lemma_mul_is_commutative(0x8000_0000, max as int);
    lemma_multiply_divide_lt(max * n, 0x8000_0000, max as int);
    assert(max * n < 0x8000_0000 * 0x8000_0000) by (nonlinear_arith)
        requires
            0 < max < 0x8000_0000 && 0 <= n < 0x8000_0000,
    ;
}

/// Unfolding `lcg_back_iter` at the far end.
pub proof fn lemma_lcg_back_iter_snoc(s: u64, n: nat)
    ensures
        lcg_back_iter(s, n + 1) == lcg_back(lcg_back_iter(s, n)),
    decreases n,
{
    assert(lcg_back_iter(s, n + 1) == lcg_back_iter(lcg_back(s), n));
    if n > 0 {
        lemma_lcg_back_iter_snoc(lcg_back(s), (n - 1) as nat);
        assert(lcg_back_iter(s, n) == lcg_back_iter(lcg_back(s), (n - 1) as nat));
    }
}


/// One affine map modulo 2^48, applied to a state.
pub open spec fn lcg_affine(s: u64, mul: u64, add: u64) -> u64 {
    ((s * mul + add) % (LCG_MOD as int)) as u64
}

/// Extending a forward table entry by one more step: multiplying the pair
/// into the generator's map keeps it an exact `n`-step skip.
proof fn lemma_affine_step(mul: u64, add: u64, s: u64)
    requires
        s < LCG_MOD,
        mul < LCG_MOD,
        add < LCG_MOD,
    ensures
        lcg_affine(
            s,
            ((mul * LCG_MULT) % (LCG_MOD as int)) as u64,
            ((add * LCG_MULT + LCG_INC) % (LCG_MOD as int)) as u64,
        ) == lcg_step(lcg_affine(s, mul, add)),
{
    let p: int = LCG_MOD as int;
    let a: int = LCG_MULT as int;
    let m: int = mul as int;
    let c: int = add as int;
    let m2: int = (m * a) % p;
    let c2: int = (c * a + LCG_INC) % p;
    // left side: (s*m2 + c2) % p == (s*m*a + c*a + 11) % p
    assert((s * m2 + c2) % p == (s * (m * a) + (c * a + LCG_INC)) % p) by {
        lemma_mul_mod_noop_right(s as int, m * a, p);
        lemma_add_mod_noop(s * m2, c * a + LCG_INC, p);
        lemma_add_mod_noop(s * m2, c2, p);
        lemma_add_mod_noop(s * (m * a), c * a + LCG_INC, p);
        lemma_small_mod(c2 as nat, p as nat);
        assert((s * m2) % p == (s * (m * a)) % p);
    }
    // right side: (a*((s*m + c) % p) + 11) % p == (a*(s*m + c) + 11) % p
    let t: int = (s * m + c) % p;
    assert((a * t + LCG_INC) % p == (a * (s * m + c) + LCG_INC) % p) by {
        lemma_mul_mod_noop_right(a, s * m + c, p);
        lemma_add_mod_noop(a * t, LCG_INC as int, p);
        lemma_add_mod_noop(a * (s * m + c), LCG_INC as int, p);
        lemma_small_mod(LCG_INC as nat, p as nat);
        assert((a * t) % p == (a * (s * m + c)) % p);
    }
    // the two numerators agree
    assert(s * (m * a) + (c * a + LCG_INC) == a * (s * m + c) + LCG_INC) by (nonlinear_arith);
}

/// Extending a backward table entry by one more reversal.
proof fn lemma_affine_back(mul: u64, add: u64, s: u64)
    requires
        s < LCG_MOD,
        mul < LCG_MOD,
        add < LCG_MOD,
    ensures
        lcg_affine(
            s,
            ((mul * LCG_INV_MULT) % (LCG_MOD as int)) as u64,
            ((((add + LCG_MOD - LCG_INC) % (LCG_MOD as int)) * LCG_INV_MULT) % (
            LCG_MOD as int)) as u64,
        ) == lcg_back(lcg_affine(s, mul, add)),
{
    let p: int = LCG_MOD as int;
    let ai: int = LCG_INV_MULT as int;
    let m: int = mul as int;
    let c: int = add as int;
    let m2: int = (m * ai) % p;
    let a2: int = (((c + p - LCG_INC) % p) * ai) % p;
    // reduce the left side to one expression modulo p
    assert(a2 == ((c + p - LCG_INC) * ai) % p) by {
        lemma_mul_mod_noop_left(c + p - LCG_INC, ai, p);
    }
    assert((s * m2 + a2) % p == (s * (m * ai) + (c + p - LCG_INC) * ai) % p) by {
        lemma_mul_mod_noop_right(s as int, m * ai, p);
        lemma_add_mod_noop(s * m2, (c + p - LCG_INC) * ai, p);
        lemma_add_mod_noop(s * m2, a2, p);
        lemma_add_mod_noop(s * (m * ai), (c + p - LCG_INC) * ai, p);
        lemma_small_mod(a2 as nat, p as nat);
        assert((s * m2) % p == (s * (m * ai)) % p);
    }
    // reduce the right side likewise
    let t: int = (s * m + c) % p;
    assert(((t + p - LCG_INC) * ai) % p == (((s * m + c) + p - LCG_INC) * ai) % p) by {
        lemma_add_mod_noop(s * m + c, p - LCG_INC, p);
        lemma_add_mod_noop(t, p - LCG_INC, p);
        lemma_small_mod((p - LCG_INC) as nat, p as nat);
        lemma_mul_mod_noop_left(t + (p - LCG_INC), ai, p);
        lemma_mul_mod_noop_left((s * m + c) + (p - LCG_INC), ai, p);
        assert((t + (p - LCG_INC)) % p == ((s * m + c) + (p - LCG_INC)) % p);
    }
    // the two numerators agree, by distributivity and associativity
    assert(((s * m + c) + p - LCG_INC) * ai == s * (m * ai) + (c + p - LCG_INC) * ai) by {
        vstd::arithmetic::mul::lemma_mul_is_distributive_add_other_way(
            ai,
            s * m,
            c + p - LCG_INC,
        );
        lemma_mul_is_associative(s as int, m, ai);
    }
}

/// Precomputed skip tables: entry `n` holds the affine map that advances
/// or reverses the generator by `n` steps in one multiplication.
pub struct SkipTables {
    pub fwd: Vec<(u64, u64)>,
    pub back: Vec<(u64, u64)>,
}

impl SkipTables {
    /// Entry `n` of each table is exactly the `n`-step skip, for every
    /// reduced state.
    pub open spec fn wf(&self) -> bool {
        &&& self.fwd@.len() == 0x8000
        &&& self.back@.len() == 0x8000
        &&& forall|n: int, s: u64|
            0 <= n < 0x8000 && s < LCG_MOD ==> #[trigger] lcg_affine(
                s,
                self.fwd@[n].0,
                self.fwd@[n].1,
            ) == lcg_iter(s, n as nat)
        &&& forall|n: int, s: u64|
            0 <= n < 0x8000 && s < LCG_MOD ==> #[trigger] lcg_affine(
                s,
                self.back@[n].0,
                self.back@[n].1,
            ) == lcg_back_iter(s, n as nat)
        &&& forall|n: int|
            0 <= n < 0x8000 ==> (#[trigger] self.fwd@[n]).0 < LCG_MOD && self.fwd@[n].1 < LCG_MOD
        &&& forall|n: int|
            0 <= n < 0x8000 ==> (#[trigger] self.back@[n]).0 < LCG_MOD && self.back@[n].1
                < LCG_MOD
    }

    /// Build both tables by composing the generator's map with itself.
    pub fn new() -> (r: Self)
        ensures
            r.wf(),
    {
        let mut fwd: Vec<(u64, u64)> = Vec::new();
        let mut mul: u64 = 1;
        let mut add: u64 = 0;
        let mut n: usize = 0;
        while n < 0x8000
            invariant
                n <= 0x8000,
                fwd@.len() == n,
                mul < LCG_MOD,
                add < LCG_MOD,
                forall|s: u64| s < LCG_MOD ==> #[trigger] lcg_affine(s, mul, add) == lcg_iter(
                    s,
                    n as nat,
                ),
                forall|k: int, s: u64|
                    0 <= k < n && s < LCG_MOD ==> #[trigger] lcg_affine(
                        s,
                        fwd@[k].0,
                        fwd@[k].1,
                    ) == lcg_iter(s, k as nat),
                forall|k: int|
                    0 <= k < n ==> (#[trigger] fwd@[k]).0 < LCG_MOD && fwd@[k].1 < LCG_MOD,
            decreases 0x8000 - n,
        {
            fwd.push((mul, add));
            let mul2: u64 = (((mul as u128) * (LCG_MULT as u128)) % (LCG_MOD as u128)) as u64;
            let add2: u64 = (((add as u128) * (LCG_MULT as u128) + (LCG_INC as u128)) % (
            LCG_MOD as u128)) as u64;
            proof {
                assert forall|s: u64| s < LCG_MOD implies #[trigger] lcg_affine(s, mul2, add2)
                    == lcg_iter(s, (n + 1) as nat) by {
                    lemma_affine_step(mul, add, s);
                    lemma_lcg_iter_snoc(s, n as nat);
                }
            }
            mul = mul2;
            add = add2;
            n = n + 1;
        }

        let mut back: Vec<(u64, u64)> = Vec::new();
        let mut bmul: u64 = 1;
        let mut badd: u64 = 0;
        let mut k: usize = 0;
        while k < 0x8000
            invariant
                k <= 0x8000,
                back@.len() == k,
                bmul < LCG_MOD,
                badd < LCG_MOD,
                forall|s: u64| s < LCG_MOD ==> #[trigger] lcg_affine(s, bmul, badd)
                    == lcg_back_iter(s, k as nat),
                forall|j: int, s: u64|
                    0 <= j < k && s < LCG_MOD ==> #[trigger] lcg_affine(
                        s,
                        back@[j].0,
                        back@[j].1,
                    ) == lcg_back_iter(s, j as nat),
                forall|j: int|
                    0 <= j < k ==> (#[trigger] back@[j]).0 < LCG_MOD && back@[j].1 < LCG_MOD,
            decreases 0x8000 - k,
        {
            back.push((bmul, badd));
            let bmul2: u64 = (((bmul as u128) * (LCG_INV_MULT as u128)) % (LCG_MOD as u128)) as u64;
            let shifted: u64 = (((badd as u128) + ((LCG_MOD - LCG_INC) as u128)) % (
            LCG_MOD as u128)) as u64;
            let badd2: u64 = (((shifted as u128) * (LCG_INV_MULT as u128)) % (LCG_MOD as u128)) as u64;
            proof {
                assert forall|s: u64| s < LCG_MOD implies #[trigger] lcg_affine(s, bmul2, badd2)
                    == lcg_back_iter(s, (k + 1) as nat) by {
                    lemma_affine_back(bmul, badd, s);
                    lemma_lcg_back_iter_snoc(s, k as nat);
                }
            }
            bmul = bmul2;
            badd = badd2;
            k = k + 1;
        }

        SkipTables { fwd, back }
    }

    /// Advance a generator `n` steps with one table application.
    pub fn step_n(&self, rng: &mut JavaRNG, n: usize)
        requires
            self.wf(),
            old(rng).wf(),
            n < 0x8000,
        ensures
            final(rng).wf(),
            final(rng)@ == lcg_iter(old(rng)@, n as nat),
    {
        let pair: (u64, u64) = self.fwd[n];
        rng.apply_affine(pair.0, pair.1);
    }

    /// Reverse a generator `n` steps with one table application.
    pub fn back_n(&self, rng: &mut JavaRNG, n: usize)
        requires
            self.wf(),
            old(rng).wf(),
            n < 0x8000,
        ensures
            final(rng).wf(),
            final(rng)@ == lcg_back_iter(old(rng)@, n as nat),
    {
        let pair: (u64, u64) = self.back[n];
        rng.apply_affine(pair.0, pair.1);
    }
}

impl JavaRNG {
    /// Apply one affine map modulo 2^48 to the state.
    fn apply_affine(&mut self, mul: u64, add: u64)
        requires
            old(self).wf(),
            mul < LCG_MOD,
            add < LCG_MOD,
        ensures
            final(self).wf(),
            final(self)@ == lcg_affine(old(self)@, mul, add),
    {
        let s: u64 = self.state;
        proof {
            assert((s as int) * (mul as int) < 0x1_0000_0000_0000 * 0x1_0000_0000_0000)
                by (nonlinear_arith)
                requires
                    s < 0x1_0000_0000_0000u64 && mul < 0x1_0000_0000_0000u64,
            ;
        }
        let next: u64 = (((s as u128) * (mul as u128) + (add as u128)) % (LCG_MOD as u128)) as u64;
        self.state = next;
    }
}


} // verus!
