//! The escape-time bounds check.
//!
//! Starting from `z = 0`, the iteration repeatedly applies
//! `z -> z*z + c` in saturating fixed-point arithmetic and asks, after
//! each update, whether `|z|^2` has reached the escape threshold 4.  A
//! coordinate is `Unbounded(n)` for the first update index `n` at which
//! the threshold is reached, and `Bounded` when no update within the
//! iteration limit reaches it.

use vstd::prelude::*;
use vstd::arithmetic::power2::{
    pow2, lemma_pow2_adds, lemma_pow2_pos, lemma_pow2_strictly_increases, lemma2_to64,
    lemma2_to64_rest,
};
use crate::fixed::{
    sat, sat_bound, fix_ok, fix_mul, sat_exec, mul_fix, pow2_exec, MAX_FRAC_BITS,
};

verus! {

/// The per-pixel result: the orbit either survived the whole iteration
/// limit, or left the escape radius at the recorded update index.
#[derive(Clone, Copy, Debug, PartialEq, Eq, Structural)]
pub enum Bound {
    Bounded,
    Unbounded(u64),
}

/// Parameters shared by every backend: the iteration limit, and the
/// fractional width used by the arbitrary-precision backend.  The
/// precision rides along uniformly so that all backends take the same
/// settings shape.
#[derive(Clone, Copy, Debug, PartialEq, Eq, Structural)]
pub struct BoundsSettings {
    pub limit: u64,
    pub precision: u32,
}

impl BoundsSettings {
    /// A settings value is usable when its precision names a fractional
    /// width the fixed-point representation can carry.
    pub open spec fn valid(self) -> bool {
        1 <= self.precision <= MAX_FRAC_BITS
    }

    pub fn new(limit: u64, precision: u32) -> (s: BoundsSettings)
        ensures
            s.limit == limit,
            s.precision == precision,
    {
        BoundsSettings { limit, precision }
    }
}

/// The capability every backend exposes: evaluate one batch of
/// coordinates, and say how many coordinates a batch holds.  Each
/// implementor is pinned to the same escape-time result, `bound_spec`,
/// at its own fractional width.
pub trait BoundsChecker {
    /// Number of coordinates one `check_bounded` call evaluates.
    spec fn batch_width_spec(&self) -> nat;

    /// Fractional width of the fixed-point arithmetic this backend uses.
    spec fn frac_bits_spec(&self, settings: &BoundsSettings) -> nat;

    fn batch_width(&self) -> (w: usize)
        ensures
            w == self.batch_width_spec(),
            1 <= w <= 8,
    ;

    fn frac_bits(&self, settings: &BoundsSettings) -> (f: u32)
        requires
            settings.valid(),
        ensures
            f == self.frac_bits_spec(settings),
            1 <= f <= MAX_FRAC_BITS,
    ;

    /// Evaluate one batch of coordinates given as parallel mantissa
    /// arrays at this backend's fractional width.
    fn check_bounded(&self, xs: &Vec<i128>, ys: &Vec<i128>, settings: &BoundsSettings) -> (out:
        Vec<Bound>)
        requires
            settings.valid(),
            xs@.len() == self.batch_width_spec(),
            ys@.len() == self.batch_width_spec(),
            forall|l: int|
                0 <= l < xs@.len() ==> fix_ok(
                    #[trigger] xs@[l] as int,
                    self.frac_bits_spec(settings),
                ),
            forall|l: int|
                0 <= l < ys@.len() ==> fix_ok(
                    #[trigger] ys@[l] as int,
                    self.frac_bits_spec(settings),
                ),
        ensures
            out@.len() == xs@.len(),
            forall|l: int|
                0 <= l < out@.len() ==> #[trigger] out@[l] == bound_spec(
                    xs@[l] as int,
                    ys@[l] as int,
                    self.frac_bits_spec(settings),
                    settings.limit as nat,
                ),
    ;
}

/// Real part of one iteration step `z*z + c` at `f` fractional bits.
pub open spec fn step_re(zr: int, zi: int, cr: int, f: nat) -> int {
    sat(fix_mul(zr, zr, f) - fix_mul(zi, zi, f) + cr, f)
}

/// Imaginary part of one iteration step `z*z + c` at `f` fractional bits.
pub open spec fn step_im(zr: int, zi: int, ci: int, f: nat) -> int {
    sat(2 * fix_mul(zr, zi, f) + ci, f)
}

/// The orbit of `c` after `n` updates: `z_0 = 0`, `z_{n+1} = z_n^2 + c`.
pub open spec fn orbit(cr: int, ci: int, f: nat, n: nat) -> (int, int)
    decreases n,
{
    if n == 0 {
        (0, 0)
    } else {
        let z = orbit(cr, ci, f, (n - 1) as nat);
        (step_re(z.0, z.1, cr, f), step_im(z.0, z.1, ci, f))
    }
}

/// `|z|^2` in mantissa units; the escape threshold 4 is `sat_bound(f)`.
pub open spec fn norm_units(zr: int, zi: int, f: nat) -> int {
    fix_mul(zr, zr, f) + fix_mul(zi, zi, f)
}

/// Whether update `n` (producing `z_{n+1}`) reaches the escape threshold.
pub open spec fn escapes_at(cr: int, ci: int, f: nat, n: nat) -> bool {
    let z = orbit(cr, ci, f, n + 1);
    norm_units(z.0, z.1, f) >= sat_bound(f)
}

/// The result of running the iteration from update `n` up to `limit`,
/// given that no update before `n` escaped.
pub open spec fn bound_from(cr: int, ci: int, f: nat, n: nat, limit: nat) -> Bound
    decreases limit - n,
    when n <= limit
{
    if n >= limit {
        Bound::Bounded
    } else if escapes_at(cr, ci, f, n) {
        Bound::Unbounded(n as u64)
    } else {
        bound_from(cr, ci, f, (n + 1) as nat, limit)
    }
}

/// The bounds-check result every backend must produce for coordinate
/// `(cr, ci)` at `f` fractional bits.
pub open spec fn bound_spec(cr: int, ci: int, f: nat, limit: nat) -> Bound {
    bound_from(cr, ci, f, 0, limit)
}

/// A fixed-point product of whole multiples of one: for small `u` and
/// `v`, `(u * 2^f) * (v * 2^f)` rescales exactly to `u * v * 2^f`.
proof fn lemma_fix_mul_small(u: int, v: int, f: nat)
    requires
        -4 <= u * v <= 4,
    ensures
        fix_mul(u * pow2(f) as int, v * pow2(f) as int, f) == u * v * pow2(f) as int,
{
    lemma_pow2_pos(f);
    let p = pow2(f) as int;
    assert((u * p) * (v * p) == p * (u * v * p)) by (nonlinear_arith);
    vstd::arithmetic::div_mod::lemma_div_multiples_vanish(u * v * p, p);
    assert(-4 * p <= u * v * p <= 4 * p) by (nonlinear_arith)
        requires
            -4 <= u * v <= 4,
            0 < p,
    ;
}

/// The orbit of the origin never leaves the origin.
proof fn lemma_orbit_origin(f: nat, n: nat)
    ensures
        orbit(0, 0, f, n) == (0int, 0int),
    decreases n,
{
    lemma_pow2_pos(f);
    if n > 0 {
        lemma_orbit_origin(f, (n - 1) as nat);
        lemma_fix_mul_small(0, 0, f);
    }
}

/// The iteration from update `n` on never escapes a coordinate whose
/// orbit never reaches the threshold.
proof fn lemma_bounded_tail(cr: int, ci: int, f: nat, n: nat, limit: nat)
    requires
        n <= limit,
        forall|m: nat| n <= m < limit ==> !escapes_at(cr, ci, f, m),
    ensures
        bound_from(cr, ci, f, n, limit) == Bound::Bounded,
    decreases limit - n,
{
    if n < limit {
        assert(!escapes_at(cr, ci, f, n));
        lemma_bounded_tail(cr, ci, f, (n + 1) as nat, limit);
    }
}

/// The origin is `Bounded` for every iteration limit: its orbit is the
/// fixed point `z = 0`.
pub proof fn lemma_known_point_origin(f: nat, limit: nat)
    ensures
        bound_spec(0, 0, f, limit) == Bound::Bounded,
{
    lemma_pow2_pos(f);
    assert forall|m: nat| 0 <= m < limit implies !escapes_at(0, 0, f, m) by {
        lemma_orbit_origin(f, (m + 1) as nat);
        lemma_fix_mul_small(0, 0, f);
    }
    lemma_bounded_tail(0, 0, f, 0, limit);
}

/// `c = 1` survives the first update (`z_1 = 1`) and reaches the
/// threshold on the second (`z_2 = 2`, `|z_2|^2 = 4`), so it is
/// `Unbounded(1)` as soon as the limit allows two updates, and `Bounded`
/// below that.
pub proof fn lemma_known_point_one(f: nat, limit: nat)
    ensures
        limit <= 1 ==> bound_spec(pow2(f) as int, 0, f, limit) == Bound::Bounded,
        limit >= 2 ==> bound_spec(pow2(f) as int, 0, f, limit) == Bound::Unbounded(1),
{
    lemma_pow2_pos(f);
    let p = pow2(f) as int;
    lemma_fix_mul_small(0, 0, f);
    assert(orbit(p, 0, f, 0) == (0int, 0int));
    assert(orbit(p, 0, f, 1) == (1 * p, 0int)) by {
        assert(orbit(p, 0, f, 0) == (0int, 0int));
        assert(step_re(0, 0, p, f) == sat(0 - 0 + p, f));
        assert(step_im(0, 0, 0, f) == sat(0int, f));
    }
    lemma_fix_mul_small(1, 1, f);
    lemma_fix_mul_small(1, 0, f);
    lemma_fix_mul_small(0, 1, f);
    assert(norm_units(1 * p, 0, f) == p);
    assert(!escapes_at(p, 0, f, 0));
    assert(orbit(p, 0, f, 2) == (2 * p, 0int)) by {
        assert(step_re(1 * p, 0, p, f) == sat(1 * p - 0 + p, f));
        assert(step_im(1 * p, 0, 0, f) == sat(0int, f));
        assert(1 * p + p == 2 * p);
        assert(sat(2 * p, f) == 2 * p);
    }
    lemma_fix_mul_small(2, 2, f);
    lemma_fix_mul_small(2, 0, f);
    assert(norm_units(2 * p, 0, f) == 4 * p);
    assert(escapes_at(p, 0, f, 1));
    if limit == 1 {
        assert(bound_from(p, 0, f, 1, limit) == Bound::Bounded);
    }
    if limit >= 2 {
        assert(bound_from(p, 0, f, 1, limit) == Bound::Unbounded(1));
    }
}

/// The orbit of `c = -1` alternates between `-1` and `0`.
proof fn lemma_orbit_minus_one(f: nat, n: nat)
    ensures
        n % 2 == 0 ==> orbit(-(pow2(f) as int), 0, f, n) == (0int, 0int),
        n % 2 == 1 ==> orbit(-(pow2(f) as int), 0, f, n) == (-1 * pow2(f) as int, 0int),
    decreases n,
{
    lemma_pow2_pos(f);
    let p = pow2(f) as int;
    if n > 0 {
        lemma_orbit_minus_one(f, (n - 1) as nat);
        lemma_fix_mul_small(0, 0, f);
        lemma_fix_mul_small(-1, -1, f);
        lemma_fix_mul_small(-1, 0, f);
        lemma_fix_mul_small(0, -1, f);
        if (n - 1) % 2 == 0 {
            assert(step_re(0, 0, -p, f) == sat(0 - 0 + -p, f));
            assert(sat(-p, f) == -1 * p);
        } else {
            assert(step_re(-1 * p, 0, -p, f) == sat(1 * p - 0 + -p, f));
            assert(sat(0, f) == 0);
        }
    }
}

/// `c = -1` is `Bounded` for every iteration limit: its orbit is the
/// period-two cycle `-1, 0`, whose magnitude never reaches the threshold.
pub proof fn lemma_known_point_minus_one(f: nat, limit: nat)
    ensures
        bound_spec(-(pow2(f) as int), 0, f, limit) == Bound::Bounded,
{
    lemma_pow2_pos(f);
    let p = pow2(f) as int;
    assert forall|m: nat| #![trigger escapes_at(-p, 0, f, m)] 0 <= m < limit implies !escapes_at(
        -p,
        0,
        f,
        m,
    ) by {
        lemma_orbit_minus_one(f, (m + 1) as nat);
        lemma_fix_mul_small(0, 0, f);
        lemma_fix_mul_small(-1, -1, f);
    }
    lemma_bounded_tail(-p, 0, f, 0, limit);
}

/// In-range mantissas stay below `2^63`, so sums of three of them fit
/// comfortably in an `i128`.
pub proof fn lemma_sat_bound_le(f: nat)
    requires
        f <= MAX_FRAC_BITS,
    ensures
        0 < sat_bound(f) <= 0x8000000000000000,
{
    lemma_pow2_adds(f, 2);
    if f + 2 < 63 {
        lemma_pow2_strictly_increases(f + 2, 63);
    }
    lemma2_to64();
    lemma2_to64_rest();
}

/// One update of the iteration: returns `z_{n+1}` from `z_n` together
/// with the escape test on the new value.
fn step_exec(zr: i128, zi: i128, cr: i128, ci: i128, f: u32) -> (r: (i128, i128, bool))
    requires
        f <= MAX_FRAC_BITS,
        fix_ok(zr as int, f as nat),
        fix_ok(zi as int, f as nat),
        fix_ok(cr as int, f as nat),
        fix_ok(ci as int, f as nat),
    ensures
        r.0 == step_re(zr as int, zi as int, cr as int, f as nat),
        r.1 == step_im(zr as int, zi as int, ci as int, f as nat),
        r.2 == (norm_units(r.0 as int, r.1 as int, f as nat) >= sat_bound(f as nat)),
        fix_ok(r.0 as int, f as nat),
        fix_ok(r.1 as int, f as nat),
{
    proof {
        lemma_sat_bound_le(f as nat);
    }
    let a = mul_fix(zr, zr, f);
    let b = mul_fix(zi, zi, f);
    let m = mul_fix(zr, zi, f);
    let nzr = sat_exec(a - b + cr, f);
    let nzi = sat_exec(2 * m + ci, f);
    let na = mul_fix(nzr, nzr, f);
    let nb = mul_fix(nzi, nzi, f);
    proof {
        lemma_pow2_adds(f as nat, 2);
        lemma2_to64();
    }
    let threshold: i128 = pow2_exec(f + 2) as i128;
    (nzr, nzi, na + nb >= threshold)
}

/// Check one coordinate with the scalar early-exit loop: the iteration
/// stops at the first escaping update.
pub fn check_point(cr: i128, ci: i128, f: u32, limit: u64) -> (b: Bound)
    requires
        f <= MAX_FRAC_BITS,
        fix_ok(cr as int, f as nat),
        fix_ok(ci as int, f as nat),
    ensures
        b == bound_spec(cr as int, ci as int, f as nat, limit as nat),
{
    let mut zr: i128 = 0;
    let mut zi: i128 = 0;
    let mut iter: u64 = 0;
    proof {
        lemma_sat_bound_le(f as nat);
    }
    while iter < limit
        invariant
            iter <= limit,
            f <= MAX_FRAC_BITS,
            fix_ok(cr as int, f as nat),
            fix_ok(ci as int, f as nat),
            fix_ok(zr as int, f as nat),
            fix_ok(zi as int, f as nat),
            (zr as int, zi as int) == orbit(cr as int, ci as int, f as nat, iter as nat),
            bound_spec(cr as int, ci as int, f as nat, limit as nat) == bound_from(
                cr as int,
                ci as int,
                f as nat,
                iter as nat,
                limit as nat,
            ),
        decreases limit - iter,
    {
        let (nzr, nzi, esc) = step_exec(zr, zi, cr, ci, f);
        proof {
            assert(orbit(cr as int, ci as int, f as nat, (iter + 1) as nat) == (
                nzr as int,
                nzi as int,
            ));
        }
        if esc {
            return Bound::Unbounded(iter);
        }
        zr = nzr;
        zi = nzi;
        iter = iter + 1;
    }
    Bound::Bounded
}

/// Check a batch of coordinates in lockstep, the way the lane-batched
/// backends do: every live lane advances one update per round, a lane
/// that escapes keeps its recorded update index from then on, and the
/// loop stops early once every lane has escaped.  The early exit is an
/// optimization only; each lane's result equals the scalar one.
pub fn check_batch(xs: &Vec<i128>, ys: &Vec<i128>, f: u32, limit: u64) -> (out: Vec<Bound>)
    requires
        f <= MAX_FRAC_BITS,
        xs@.len() == ys@.len(),
        forall|l: int| 0 <= l < xs@.len() ==> fix_ok(#[trigger] xs@[l] as int, f as nat),
        forall|l: int| 0 <= l < ys@.len() ==> fix_ok(#[trigger] ys@[l] as int, f as nat),
    ensures
        out@.len() == xs@.len(),
        forall|l: int|
            0 <= l < out@.len() ==> #[trigger] out@[l] == bound_spec(
                xs@[l] as int,
                ys@[l] as int,
                f as nat,
                limit as nat,
            ),
{
    let k = xs.len();
    let mut zr: Vec<i128> = Vec::new();
    let mut zi: Vec<i128> = Vec::new();
    let mut iters: Vec<u64> = Vec::new();
    let mut esc: Vec<bool> = Vec::new();
    let mut i: usize = 0;
    while i < k
        invariant
            i <= k,
            zr@.len() == i && zi@.len() == i && iters@.len() == i && esc@.len() == i,
            forall|j: int| 0 <= j < i ==> #[trigger] zr@[j] == 0,
            forall|j: int| 0 <= j < i ==> #[trigger] zi@[j] == 0,
            forall|j: int| 0 <= j < i ==> #[trigger] iters@[j] == 0,
            forall|j: int| 0 <= j < i ==> #[trigger] esc@[j] == false,
        decreases k - i,
    {
        zr.push(0);
        zi.push(0);
        iters.push(0);
        esc.push(false);
        i = i + 1;
    }
    let mut round: u64 = 0;
    let mut all_esc: bool = k == 0;
    proof {
        lemma_sat_bound_le(f as nat);
    }
    while round < limit && !all_esc
        invariant
            round <= limit,
            f <= MAX_FRAC_BITS,
            xs@.len() == k && ys@.len() == k,
            zr@.len() == k && zi@.len() == k && iters@.len() == k && esc@.len() == k,
            forall|l: int| 0 <= l < k ==> fix_ok(#[trigger] xs@[l] as int, f as nat),
            forall|l: int| 0 <= l < k ==> fix_ok(#[trigger] ys@[l] as int, f as nat),
            forall|l: int| 0 <= l < k ==> fix_ok(#[trigger] zr@[l] as int, f as nat),
            forall|l: int| 0 <= l < k ==> fix_ok(#[trigger] zi@[l] as int, f as nat),
            forall|l: int|
                #![trigger esc@[l]]
                0 <= l < k && !esc@[l] ==> iters@[l] == round && (zr@[l] as int, zi@[l] as int)
                    == orbit(xs@[l] as int, ys@[l] as int, f as nat, round as nat) && bound_spec(
                    xs@[l] as int,
                    ys@[l] as int,
                    f as nat,
                    limit as nat,
                ) == bound_from(
                    xs@[l] as int,
                    ys@[l] as int,
                    f as nat,
                    round as nat,
                    limit as nat,
                ),
            forall|l: int|
                #![trigger esc@[l]]
                0 <= l < k && esc@[l] ==> bound_spec(
                    xs@[l] as int,
                    ys@[l] as int,
                    f as nat,
                    limit as nat,
                ) == Bound::Unbounded(iters@[l]),
            all_esc ==> (forall|l: int| 0 <= l < k ==> #[trigger] esc@[l]),
        decreases limit - round,
    {
        let mut l: usize = 0;
        let mut every: bool = true;
        while l < k
            invariant
                l <= k,
                round < limit,
                f <= MAX_FRAC_BITS,
                xs@.len() == k && ys@.len() == k,
                zr@.len() == k && zi@.len() == k && iters@.len() == k && esc@.len() == k,
                forall|j: int| 0 <= j < k ==> fix_ok(#[trigger] xs@[j] as int, f as nat),
                forall|j: int| 0 <= j < k ==> fix_ok(#[trigger] ys@[j] as int, f as nat),
                forall|j: int| 0 <= j < k ==> fix_ok(#[trigger] zr@[j] as int, f as nat),
                forall|j: int| 0 <= j < k ==> fix_ok(#[trigger] zi@[j] as int, f as nat),
                forall|j: int|
                    #![trigger esc@[j]]
                    l <= j < k && !esc@[j] ==> iters@[j] == round && (zr@[j] as int, zi@[j] as int)
                        == orbit(xs@[j] as int, ys@[j] as int, f as nat, round as nat)
                        && bound_spec(
                        xs@[j] as int,
                        ys@[j] as int,
                        f as nat,
                        limit as nat,
                    ) == bound_from(
                        xs@[j] as int,
                        ys@[j] as int,
                        f as nat,
                        round as nat,
                        limit as nat,
                    ),
                forall|j: int|
                    #![trigger esc@[j]]
                    0 <= j < l && !esc@[j] ==> iters@[j] == round + 1 && (
                    zr@[j] as int,
                    zi@[j] as int,
                    ) == orbit(xs@[j] as int, ys@[j] as int, f as nat, (round + 1) as nat)
                        && bound_spec(
                        xs@[j] as int,
                        ys@[j] as int,
                        f as nat,
                        limit as nat,
                    ) == bound_from(
                        xs@[j] as int,
                        ys@[j] as int,
                        f as nat,
                        (round + 1) as nat,
                        limit as nat,
                    ),
                forall|j: int|
                    #![trigger esc@[j]]
                    0 <= j < k && esc@[j] ==> bound_spec(
                        xs@[j] as int,
                        ys@[j] as int,
                        f as nat,
                        limit as nat,
                    ) == Bound::Unbounded(iters@[j]),
                every ==> (forall|j: int| 0 <= j < l ==> #[trigger] esc@[j]),
            decreases k - l,
        {
            if !esc[l] {
                proof {
                    assert(!esc@[l as int]);
                }
                let (nzr, nzi, e) = step_exec(zr[l], zi[l], xs[l], ys[l], f);
                proof {
                    assert(orbit(xs@[l as int] as int, ys@[l as int] as int, f as nat, (round
                        + 1) as nat) == (nzr as int, nzi as int));
                }
                if e {
                    esc[l] = true;
                } else {
                    zr[l] = nzr;
                    zi[l] = nzi;
                    iters[l] = round + 1;
                    every = false;
                }
            }
            l = l + 1;
        }
        all_esc = every;
        round = round + 1;
    }
    let mut out: Vec<Bound> = Vec::new();
    let mut l: usize = 0;
    while l < k
        invariant
            l <= k,
            out@.len() == l,
            xs@.len() == k && ys@.len() == k,
            iters@.len() == k && esc@.len() == k,
            forall|j: int|
                #![trigger esc@[j]]
                0 <= j < k && !esc@[j] ==> bound_spec(
                    xs@[j] as int,
                    ys@[j] as int,
                    f as nat,
                    limit as nat,
                ) == bound_from(
                    xs@[j] as int,
                    ys@[j] as int,
                    f as nat,
                    limit as nat,
                    limit as nat,
                ),
            forall|j: int|
                #![trigger esc@[j]]
                0 <= j < k && esc@[j] ==> bound_spec(
                    xs@[j] as int,
                    ys@[j] as int,
                    f as nat,
                    limit as nat,
                ) == Bound::Unbounded(iters@[j]),
            forall|j: int|
                0 <= j < l ==> #[trigger] out@[j] == bound_spec(
                    xs@[j] as int,
                    ys@[j] as int,
                    f as nat,
                    limit as nat,
                ),
        decreases k - l,
    {
        if esc[l] {
            out.push(Bound::Unbounded(iters[l]));
        } else {
            out.push(Bound::Bounded);
        }
        l = l + 1;
    }
    out
}

} // verus!
