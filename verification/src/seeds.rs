//! Seed enumeration strategies for the search driver.
use vstd::prelude::*;

verus! {

use crate::TOTAL_SEEDS;
use vstd::arithmetic::div_mod::lemma_div_is_ordered;
use vstd::arithmetic::div_mod::lemma_fundamental_div_mod;
use vstd::arithmetic::div_mod::lemma_div_pos_is_pos;
use vstd::arithmetic::div_mod::lemma_multiply_divide_lt;
use vstd::arithmetic::mul::lemma_mul_inequality;
use vstd::arithmetic::mul::lemma_mul_is_commutative;

/// Relies on fastrand::u64: a draw from the thread-local generator within
/// the given range.  Of a random value only its range can be promised.
#[verifier::external_body]
fn random_seed_below(limit: u64) -> (r: u64)
    requires
        limit > 0,
    ensures
        r < limit,
{
    fastrand::u64(0..limit)
}

/// How a sweep enumerates world seeds.
pub enum SeedFactory {
    /// One specific seed.
    Seed { value: u64 },
    /// `total` sequential seeds from `start`.
    Linear { start: u64, total: u64 },
    /// `total` seeds drawn at random; duplicates are possible and accepted.
    Random { total: u64 },
    /// The fraction `num / den` of all 2^48 seeds, spread evenly across the
    /// seed space.
    Ratio { num: u64, den: u64 },
}

impl SeedFactory {
    /// A ratio is a fraction in `(0, 1]`.
    pub open spec fn wf(&self) -> bool {
        match *self {
            SeedFactory::Ratio { num, den } => 1 <= num <= den,
            _ => true,
        }
    }

    /// How many seeds this strategy enumerates.
    pub open spec fn total_spec(&self) -> int {
        match *self {
            SeedFactory::Seed { .. } => 1,
            SeedFactory::Linear { total, .. } => total as int,
            SeedFactory::Random { total } => total as int,
            SeedFactory::Ratio { num, den } => num * TOTAL_SEEDS / (den as int),
        }
    }

    /// How many seeds this strategy enumerates.
    pub fn total(&self) -> (r: u64)
        requires
            self.wf(),
        ensures
            r == self.total_spec(),
    {
        match self {
            SeedFactory::Seed { .. } => 1,
            SeedFactory::Linear { total, .. } => *total,
            SeedFactory::Random { total } => *total,
            SeedFactory::Ratio { num, den } => {
                proof {
                    lemma_mul_inequality(*num as int, *den as int, TOTAL_SEEDS as int);
                    lemma_mul_is_commutative(*num as int, TOTAL_SEEDS as int);
                    lemma_mul_is_commutative(*den as int, TOTAL_SEEDS as int);
                    lemma_div_is_ordered(
                        (*num as int) * (TOTAL_SEEDS as int),
                        (*den as int) * (TOTAL_SEEDS as int),
                        *den as int,
                    );
                    vstd::arithmetic::div_mod::lemma_div_multiples_vanish(
                        TOTAL_SEEDS as int,
                        *den as int,
                    );
                    lemma_div_pos_is_pos((*num as int) * (TOTAL_SEEDS as int), *den as int);
                }
                (((*num as u128) * (TOTAL_SEEDS as u128)) / (*den as u128)) as u64
            },
        }
    }

    /// The `n`-th seed of the strategy.  For `Seed` it is the seed itself;
    /// for `Linear` the `n`-th sequential seed; for `Ratio` the evenly
    /// spread `n * den / num`; for `Random` a fresh draw below 2^48, of
    /// which nothing but the range is promised.
    pub fn get(&self, n: u64) -> (r: u64)
        requires
            self.wf(),
            n < self.total_spec(),
            self matches SeedFactory::Linear { start, .. } ==> start + n <= u64::MAX,
        ensures
            self matches SeedFactory::Seed { value } ==> r == value,
            self matches SeedFactory::Linear { start, .. } ==> r == start + n,
            self matches SeedFactory::Random { .. } ==> r < TOTAL_SEEDS,
            self matches SeedFactory::Ratio { num, den } ==> r == (n as int) * (den as int) / (num as int),
    {
        match self {
            SeedFactory::Seed { value } => *value,
            SeedFactory::Linear { start, .. } => *start + n,
            SeedFactory::Random { .. } => random_seed_below(TOTAL_SEEDS),
            SeedFactory::Ratio { num, den } => {
                proof {
                    {
                        let q: int = (*num as int) * (TOTAL_SEEDS as int) / (*den as int);
                        lemma_fundamental_div_mod(
                            (*num as int) * (TOTAL_SEEDS as int),
                            *den as int,
                        );
                        vstd::arithmetic::div_mod::lemma_mod_bound(
                            (*num as int) * (TOTAL_SEEDS as int),
                            *den as int,
                        );
                        lemma_mul_inequality(n as int, q - 1, *den as int);
                        vstd::arithmetic::mul::lemma_mul_is_distributive_sub(
                            *den as int,
                            q,
                            1,
                        );
                        lemma_mul_is_commutative(q - 1, *den as int);
                        lemma_mul_is_commutative(q, *den as int);
                        assert((n as int) * (*den as int) < (*num as int) * (TOTAL_SEEDS as int));
                        lemma_multiply_divide_lt(
                            (n as int) * (*den as int),
                            *num as int,
                            TOTAL_SEEDS as int,
                        );
                        lemma_div_pos_is_pos((n as int) * (*den as int), *num as int);
                    }
                }
                (((n as u128) * (*den as u128)) / (*num as u128)) as u64
            },
        }
    }
}

} // verus!
