//! Monolith records, search options, and the grid rounding helper.
use vstd::prelude::*;

verus! {

use vstd::arithmetic::div_mod::lemma_fundamental_div_mod;
use vstd::assert_multisets_equal;
use vstd::seq_lib::group_to_multiset_ensures;
use vstd::arithmetic::div_mod::lemma_mod_bound;
use vstd::arithmetic::div_mod::lemma_small_mod;

/// Truncating (round-toward-zero) division, as the host's integer division
/// behaves.  `b` must be positive.
pub open spec fn div_trunc(a: int, b: int) -> int
    recommends
        b > 0,
{
    if a >= 0 {
        a / b
    } else {
        -((-a) / b)
    }
}

/// Rounding to the nearest multiple: add half the step, then truncate.
pub open spec fn nearest_spec(num: int, mul: int) -> int
    recommends
        mul > 0,
{
    div_trunc(num + mul / 2, mul) * mul
}

/// `div_trunc(a, b) * b` never overshoots `a`, on either side of zero.
pub proof fn lemma_div_trunc_bounds(a: int, b: int)
    requires
        b > 0,
    ensures
        a >= 0 ==> 0 <= div_trunc(a, b) * b <= a,
        a < 0 ==> a <= div_trunc(a, b) * b <= 0,
{
    let m: int = if a >= 0 {
        a
    } else {
        -a
    };
    lemma_fundamental_div_mod(m, b);
    lemma_mod_bound(m, b);
    if m < b {
        lemma_small_mod(m as nat, b as nat);
    }
    assert(m % b <= m);
    vstd::arithmetic::mul::lemma_mul_is_commutative(b, m / b);
    assert((m / b) * b == m - m % b);
    vstd::arithmetic::mul::lemma_mul_unary_negation(m / b, b);
    assert((-(m / b)) * b == -((m / b) * b));
}

/// Truncating division on machine integers.
fn div_trunc_i64(a: i64, b: i64) -> (r: i64)
    requires
        1 <= b <= 0x1000,
        -0x4000_0000_0000_0000 <= a <= 0x4000_0000_0000_0000,
    ensures
        r == div_trunc(a as int, b as int),
{
    if a >= 0 {
        (((a as u64) / (b as u64)) as i64)
    } else {
        let na: i64 = -a;
        -(((na as u64) / (b as u64)) as i64)
    }
}

/// Round an integer to the nearest multiple of another, exactly as the host
/// quantizes probe coordinates.
pub fn nearest(num: i32, mul: i32) -> (r: i32)
    requires
        1 <= mul <= 256,
        -0x4000_0000 <= num <= 0x4000_0000,
    ensures
        r == nearest_spec(num as int, mul as int),
{
    let half: i32 = ((mul as u32) / 2) as i32;
    let a: i64 = (num as i64) + (half as i64);
    let q: i64 = div_trunc_i64(a, mul as i64);
    proof {
        lemma_div_trunc_bounds(a as int, mul as int);
    }
    (q * (mul as i64)) as i32
}

/// A discovered monolith: the seed it lives in, its probed area, and the
/// bounding box of its 32-aligned interior points.
#[derive(Clone, Copy, Debug)]
pub struct Monolith {
    pub seed: u64,
    pub area: u64,
    pub minx: i32,
    pub minz: i32,
    pub maxx: i32,
    pub maxz: i32,
}

/// The x centre of the bounding box, rounded toward zero.
pub open spec fn center_x_spec(m: Monolith) -> int {
    div_trunc(m.minx + m.maxx, 2)
}

/// The z centre of the bounding box, rounded toward zero.
pub open spec fn center_z_spec(m: Monolith) -> int {
    div_trunc(m.minz + m.maxz, 2)
}

/// Two records describe the same discovery: same seed, same box centre.
/// Nearby probes that land in one region produce records that agree on
/// this, so duplicates can be merged.
pub open spec fn same_spot_spec(a: Monolith, b: Monolith) -> bool {
    &&& a.seed == b.seed
    &&& center_x_spec(a) == center_x_spec(b)
    &&& center_z_spec(a) == center_z_spec(b)
}

/// The reporting order: by area, then seed, then coordinates.
pub open spec fn monolith_le_spec(a: Monolith, b: Monolith) -> bool {
    if a.area != b.area {
        a.area < b.area
    } else if a.seed != b.seed {
        a.seed < b.seed
    } else if a.minx != b.minx {
        a.minx < b.minx
    } else if a.minz != b.minz {
        a.minz < b.minz
    } else if a.maxx != b.maxx {
        a.maxx < b.maxx
    } else {
        a.maxz <= b.maxz
    }
}

impl Monolith {
    /// The x centre of the bounding box.
    pub fn center_x(&self) -> (r: i64)
        ensures
            r == center_x_spec(*self),
    {
        div_trunc_i64((self.minx as i64) + (self.maxx as i64), 2)
    }

    /// The z centre of the bounding box.
    pub fn center_z(&self) -> (r: i64)
        ensures
            r == center_z_spec(*self),
    {
        div_trunc_i64((self.minz as i64) + (self.maxz as i64), 2)
    }

    /// Whether this record and another describe the same discovery.
    pub fn same_spot(&self, other: &Monolith) -> (r: bool)
        ensures
            r == same_spot_spec(*self, *other),
    {
        self.seed == other.seed && self.center_x() == other.center_x() && self.center_z()
            == other.center_z()
    }

    /// Whether this record sorts at or before another in reporting order.
    pub fn le(&self, other: &Monolith) -> (r: bool)
        ensures
            r == monolith_le_spec(*self, *other),
    {
        if self.area != other.area {
            self.area < other.area
        } else if self.seed != other.seed {
            self.seed < other.seed
        } else if self.minx != other.minx {
            self.minx < other.minx
        } else if self.minz != other.minz {
            self.minz < other.minz
        } else if self.maxx != other.maxx {
            self.maxx < other.maxx
        } else {
            self.maxz <= other.maxz
        }
    }
}

impl PartialEq for Monolith {
    /// Equality is by `(seed, centre)`, so that near-duplicate discoveries
    /// compare equal and merge.
    fn eq(&self, other: &Monolith) -> (r: bool) {
        self.same_spot(other)
    }
}

impl vstd::std_specs::cmp::PartialEqSpecImpl for Monolith {
    open spec fn obeys_eq_spec() -> bool {
        true
    }

    open spec fn eq_spec(&self, other: &Monolith) -> bool {
        same_spot_spec(*self, *other)
    }
}


/// The reporting order is transitive.
proof fn lemma_le_trans(a: Monolith, b: Monolith, c: Monolith)
    requires
        monolith_le_spec(a, b),
        monolith_le_spec(b, c),
    ensures
        monolith_le_spec(a, c),
{
}

/// Sort records into reporting order: by area, then seed, then
/// coordinates.  The result is the same collection of records, ordered.
pub fn sort_monoliths(v: &mut Vec<Monolith>)
    ensures
        final(v)@.len() == old(v)@.len(),
        forall|i: int, j: int|
            0 <= i <= j < final(v)@.len() ==> monolith_le_spec(
                #[trigger] final(v)@[i],
                #[trigger] final(v)@[j],
            ),
        final(v)@.to_multiset() == old(v)@.to_multiset(),
{
    broadcast use group_to_multiset_ensures;

    let mut out: Vec<Monolith> = Vec::new();
    while v.len() > 0
        invariant
            out@.len() + v@.len() == old(v)@.len(),
            forall|i: int, j: int|
                0 <= i <= j < out@.len() ==> monolith_le_spec(
                    #[trigger] out@[i],
                    #[trigger] out@[j],
                ),
            forall|i: int, j: int|
                0 <= i < out@.len() && 0 <= j < v@.len() ==> monolith_le_spec(
                    #[trigger] out@[i],
                    #[trigger] v@[j],
                ),
            out@.to_multiset().add(v@.to_multiset()) == old(v)@.to_multiset(),
        decreases v@.len(),
    {
        let mut mi: usize = 0;
        let mut k: usize = 1;
        while k < v.len()
            invariant
                0 < v@.len(),
                mi < k,
                k <= v@.len(),
                forall|j: int| 0 <= j < k ==> monolith_le_spec(v@[mi as int], #[trigger] v@[j]),
            decreases v@.len() - k,
        {
            if v[k].le(&v[mi]) {
                proof {
                    assert forall|j: int| 0 <= j < k + 1 implies monolith_le_spec(
                        v@[k as int],
                        #[trigger] v@[j],
                    ) by {
                        if j < k {
                            lemma_le_trans(v@[k as int], v@[mi as int], v@[j]);
                        }
                    }
                }
                mi = k;
            }
            k = k + 1;
        }
        let ghost v_in: Seq<Monolith> = v@;
        let ghost out_in: Seq<Monolith> = out@;
        let m: Monolith = v.remove(mi);
        out.push(m);
        proof {
            broadcast use group_to_multiset_ensures;
            broadcast use vstd::multiset::group_multiset_axioms;

            assert(v@ =~= v_in.remove(mi as int));
            assert(out@ =~= out_in.push(m));
            assert(v_in.to_multiset().contains(m)) by {
                assert(v_in[mi as int] == m);
                assert(v_in.contains(m));
            }
            assert_multisets_equal!(
                out_in.push(m).to_multiset().add(v_in.remove(mi as int).to_multiset()),
                out_in.to_multiset().add(v_in.to_multiset())
            );
            assert forall|i: int, j: int|
                0 <= i < out@.len() && 0 <= j < v@.len() implies monolith_le_spec(
                #[trigger] out@[i],
                #[trigger] v@[j],
            ) by {
                let jold: int = if j < mi as int {
                    j
                } else {
                    j + 1
                };
                assert(v@[j] == v_in[jold]);
                if i < out_in.len() {
                    assert(monolith_le_spec(out@[i], v_in[jold]));
                } else {
                    assert(out@[i] == m);
                    assert(monolith_le_spec(m, v_in[jold]));
                }
            }
        }
    }
    *v = out;
}

/// Options for a regional sweep: the probed rectangle, the probe spacing,
/// an optional result limit, and the host's dispatch knobs.
#[derive(Clone, Copy, Debug)]
pub struct FindOptions {
    pub minx: i32,
    pub maxx: i32,
    pub minz: i32,
    pub maxz: i32,
    /// Probe the world every this many blocks.
    pub step: usize,
    /// Stop a sweep once this many monoliths were found.
    pub limit: Option<u64>,
    /// Let the host spread the sweep across workers.
    pub threaded: bool,
    /// Probe one period tile of the depth noise instead of a fixed box.
    pub depth_wraps: bool,
}

impl Default for FindOptions {
    /// A zero-area region probed every 32 blocks, with no limit.
    fn default() -> (r: Self)
        ensures
            r == (FindOptions {
                minx: 0,
                maxx: 0,
                minz: 0,
                maxz: 0,
                step: 32,
                limit: None,
                threaded: false,
                depth_wraps: false,
            }),
    {
        FindOptions {
            minx: 0,
            maxx: 0,
            minz: 0,
            maxz: 0,
            step: 32,
            limit: None,
            threaded: false,
            depth_wraps: false,
        }
    }
}

impl FindOptions {
    /// Probe every `step` blocks.
    pub fn step(self, step: usize) -> (r: Self)
        ensures
            r == (FindOptions { step, ..self }),
    {
        FindOptions { step, ..self }
    }

    /// Older name of `step`, kept for callers that use it.
    pub fn spacing(self, spacing: usize) -> (r: Self)
        ensures
            r == (FindOptions { step: spacing, ..self }),
    {
        FindOptions { step: spacing, ..self }
    }

    /// Stop after `many` discoveries.
    pub fn limit(self, many: u64) -> (r: Self)
        ensures
            r == (FindOptions { limit: Some(many), ..self }),
    {
        FindOptions { limit: Some(many), ..self }
    }

    /// Let the host spread the sweep across workers.
    pub fn threaded(self) -> (r: Self)
        ensures
            r == (FindOptions { threaded: true, ..self }),
    {
        FindOptions { threaded: true, ..self }
    }

    /// Search around a given coordinate, at most `radius` blocks away on
    /// each axis.
    pub fn around(self, x: i32, z: i32, radius: i32) -> (r: Self)
        requires
            0 <= radius,
            i32::MIN <= x - radius,
            x + radius <= i32::MAX,
            i32::MIN <= z - radius,
            z + radius <= i32::MAX,
        ensures
            r == (FindOptions {
                minx: (x - radius) as i32,
                maxx: (x + radius) as i32,
                minz: (z - radius) as i32,
                maxz: (z + radius) as i32,
                ..self
            }),
    {
        FindOptions { minx: x - radius, maxx: x + radius, minz: z - radius, maxz: z + radius, ..self }
    }

    /// Search around spawn, at most `radius` blocks away on each axis.
    pub fn spawn(self, radius: i32) -> (r: Self)
        requires
            0 <= radius,
        ensures
            r == (FindOptions {
                minx: (-radius) as i32,
                maxx: radius,
                minz: (-radius) as i32,
                maxz: radius,
                ..self
            }),
    {
        self.around(0, 0, radius)
    }

    /// Search every block before the Far Lands.
    pub fn inbounds(self) -> (r: Self)
        ensures
            r == (FindOptions {
                minx: -12_550_824i32,
                maxx: 12_550_824,
                minz: -12_550_824i32,
                maxz: 12_550_824,
                ..self
            }),
    {
        FindOptions {
            minx: -crate::FARLANDS,
            maxx: crate::FARLANDS,
            minz: -crate::FARLANDS,
            maxz: crate::FARLANDS,
            ..self
        }
    }

    /// Search one period tile of the monolith field.
    pub fn wraps(self) -> (r: Self)
        ensures
            r == (FindOptions {
                minx: 0,
                maxx: 8_388_608,
                minz: 0,
                maxz: 8_388_608,
                ..self
            }),
    {
        FindOptions {
            minx: 0,
            maxx: crate::MONOLITHS_REPEAT,
            minz: 0,
            maxz: crate::MONOLITHS_REPEAT,
            ..self
        }
    }

    /// Search one period tile and mark the sweep as period-bounded.
    pub fn depth_wraps(self) -> (r: Self)
        ensures
            r == (FindOptions {
                minx: 0,
                maxx: 8_388_608,
                minz: 0,
                maxz: 8_388_608,
                depth_wraps: true,
                ..self
            }),
    {
        FindOptions {
            minx: 0,
            maxx: crate::MONOLITHS_REPEAT,
            minz: 0,
            maxz: crate::MONOLITHS_REPEAT,
            depth_wraps: true,
            ..self
        }
    }
}

} // verus!
