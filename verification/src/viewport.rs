//! Interactive viewport state: the application's compute configuration
//! and the zoom-and-pan state that mouse gestures drive.
//!
//! Mouse positions arrive as fixed-point mantissas in `[0, 1]` of the
//! window's size (the caller converts raw window coordinates before
//! calling in), and every update is computed in the same saturating
//! fixed-point arithmetic as the engine, at the configured precision.

use vstd::prelude::*;
use vstd::arithmetic::power2::{pow2, lemma_pow2_adds, lemma_pow2_pos, lemma2_to64};
use crate::compute::ComputeEngine;
use crate::fixed::{div_floor, fix_ok, fix_mul, mul_fix, pow2_exec, sat, sat_bound, sat_exec,
    MAX_FRAC_BITS};

verus! {

/// The application's compute configuration: numeric precision in bits,
/// output resolution, iteration limit, and the selected backend.
#[derive(Clone, Copy, Debug)]
pub struct AppSettings {
    pub precision: u32,
    pub res_width: u32,
    pub res_height: u32,
    pub iterations: u64,
    pub engine: ComputeEngine,
}

impl AppSettings {
    /// Usable settings: a precision wide enough to write the default
    /// viewport exactly, and a nonzero resolution.
    pub open spec fn valid(self) -> bool {
        &&& 2 <= self.precision <= MAX_FRAC_BITS
        &&& 0 < self.res_width
        &&& 0 < self.res_height
    }

    /// The defaults the application starts from.
    pub fn new() -> (s: AppSettings)
        ensures
            s.precision == 53,
            s.res_width == 1600,
            s.res_height == 900,
            s.iterations == 1000,
            s.engine == ComputeEngine::SimdF64x4,
            s.valid(),
    {
        AppSettings {
            precision: 53,
            res_width: 1600,
            res_height: 900,
            iterations: 1000,
            engine: ComputeEngine::SimdF64x4,
        }
    }
}

/// The window's aspect ratio `width / height` as a fixed-point mantissa
/// at the configured precision.
pub open spec fn ratio_spec(s: AppSettings) -> int {
    sat(
        (s.res_width as int * pow2(s.precision as nat) as int) / s.res_height as int,
        s.precision as nat,
    )
}

/// The midpoint of two window positions, recentered around the window
/// center: `((a + b) - 1) / 2` in fixed point.
pub open spec fn centered_half(a: int, b: int, p: nat) -> int {
    sat(a + b - pow2(p) as int, p) / 2
}

/// `|a - b|`, clamped into range.
pub open spec fn abs_diff(a: int, b: int, p: nat) -> int {
    if a >= b {
        sat(a - b, p)
    } else {
        sat(b - a, p)
    }
}

/// Where the viewport looks: the plane position of the window center and
/// the scale (the half-height of the viewport in plane units), as
/// mantissas at the settings' precision.
#[derive(Clone, Copy, Debug)]
pub struct ZoomState {
    pub pos_x: i128,
    pub pos_y: i128,
    pub scale: i128,
}

impl ZoomState {
    /// Every field in range at precision `p`.
    pub open spec fn wf(self, p: nat) -> bool {
        &&& fix_ok(self.pos_x as int, p)
        &&& fix_ok(self.pos_y as int, p)
        &&& fix_ok(self.scale as int, p)
    }

    /// The home view: centered at `(-1/2, 0)` with scale `7/4`, which
    /// frames the whole set.
    pub fn new(settings: &AppSettings) -> (z: ZoomState)
        requires
            settings.valid(),
        ensures
            z.pos_x == -(pow2((settings.precision - 1) as nat) as int),
            z.pos_y == 0,
            z.scale == 7 * pow2((settings.precision - 2) as nat) as int,
            z.wf(settings.precision as nat),
    {
        let p = settings.precision;
        proof {
            lemma_pow2_pos((p - 1) as nat);
            lemma_pow2_pos((p - 2) as nat);
            lemma_pow2_adds((p - 1) as nat, 1);
            lemma_pow2_adds((p - 2) as nat, 2);
            lemma2_to64();
        }
        let half: i128 = pow2_exec(p - 1) as i128;
        let quarter: i128 = pow2_exec(p - 2) as i128;
        ZoomState { pos_x: -half, pos_y: 0, scale: 7 * quarter }
    }

    pub fn get_x(&self) -> (x: i128)
        ensures
            x == self.pos_x,
    {
        self.pos_x
    }

    pub fn get_y(&self) -> (y: i128)
        ensures
            y == self.pos_y,
    {
        self.pos_y
    }

    pub fn get_scale(&self) -> (s: i128)
        ensures
            s == self.scale,
    {
        self.scale
    }
}

/// The aspect ratio, computed in fixed point.
fn ratio_exec(settings: &AppSettings) -> (r: i128)
    requires
        settings.valid(),
    ensures
        r == ratio_spec(*settings),
        fix_ok(r as int, settings.precision as nat),
{
    let p = settings.precision;
    proof {
        lemma_pow2_pos(p as nat);
        crate::bounded::lemma_sat_bound_le(p as nat);
        if (p as nat) < 61 {
            vstd::arithmetic::power2::lemma_pow2_strictly_increases(p as nat, 61);
        }
        vstd::arithmetic::power2::lemma2_to64_rest();
    }
    let pw: i128 = pow2_exec(p) as i128;
    proof {
        assert((settings.res_width as int) * (pw as int) <= 0x200000000000000000000000
            && 0 <= (settings.res_width as int) * (pw as int)) by (nonlinear_arith)
            requires
                0 <= settings.res_width as int <= 0x100000000,
                0 <= pw as int <= 0x2000000000000000,
        ;
    }
    let num: i128 = (settings.res_width as i128) * pw;
    let q = div_floor(num, settings.res_height as i128);
    sat_exec(q, p)
}

/// The recentered midpoint, computed in fixed point.
fn centered_half_exec(a: i128, b: i128, p: u32) -> (r: i128)
    requires
        1 <= p <= MAX_FRAC_BITS,
        fix_ok(a as int, p as nat),
        fix_ok(b as int, p as nat),
    ensures
        r == centered_half(a as int, b as int, p as nat),
        fix_ok(r as int, p as nat),
{
    proof {
        lemma_pow2_pos(p as nat);
        crate::bounded::lemma_sat_bound_le(p as nat);
    }
    let pw: i128 = pow2_exec(p) as i128;
    let t = sat_exec(a + b - pw, p);
    let r = div_floor(t, 2);
    proof {
        crate::fixed::lemma_sat_ok(a as int + b as int - pw as int, p as nat);
    }
    r
}

/// `|a - b|`, computed in fixed point.
fn abs_diff_exec(a: i128, b: i128, p: u32) -> (r: i128)
    requires
        1 <= p <= MAX_FRAC_BITS,
        fix_ok(a as int, p as nat),
        fix_ok(b as int, p as nat),
    ensures
        r == abs_diff(a as int, b as int, p as nat),
        fix_ok(r as int, p as nat),
{
    proof {
        crate::bounded::lemma_sat_bound_le(p as nat);
    }
    if a >= b {
        sat_exec(a - b, p)
    } else {
        sat_exec(b - a, p)
    }
}

impl ZoomState {
    /// Zoom onto the dragged rectangle: the new scale is the old one
    /// shrunk by the rectangle's vertical extent, and the position moves
    /// to the rectangle's center (the horizontal move follows the aspect
    /// ratio, the vertical move is flipped because plane y grows
    /// downward in pixel order).  The position offsets use the scale
    /// from before the zoom.
    pub fn set_by_dragging(
        &mut self,
        start_x: i128,
        start_y: i128,
        end_x: i128,
        end_y: i128,
        settings: &AppSettings,
    )
        requires
            settings.valid(),
            old(self).wf(settings.precision as nat),
            fix_ok(start_x as int, settings.precision as nat),
            fix_ok(start_y as int, settings.precision as nat),
            fix_ok(end_x as int, settings.precision as nat),
            fix_ok(end_y as int, settings.precision as nat),
        ensures
            final(self).scale == fix_mul(
                abs_diff(start_y as int, end_y as int, settings.precision as nat),
                old(self).scale as int,
                settings.precision as nat,
            ),
            final(self).pos_x == sat(
                old(self).pos_x + fix_mul(
                    fix_mul(
                        centered_half(start_x as int, end_x as int, settings.precision as nat),
                        old(self).scale as int,
                        settings.precision as nat,
                    ),
                    ratio_spec(*settings),
                    settings.precision as nat,
                ),
                settings.precision as nat,
            ),
            final(self).pos_y == sat(
                old(self).pos_y - fix_mul(
                    centered_half(start_y as int, end_y as int, settings.precision as nat),
                    old(self).scale as int,
                    settings.precision as nat,
                ),
                settings.precision as nat,
            ),
            final(self).wf(settings.precision as nat),
    {
        let p = settings.precision;
        proof {
            crate::bounded::lemma_sat_bound_le(p as nat);
        }
        let ratio = ratio_exec(settings);
        let dy = abs_diff_exec(start_y, end_y, p);
        let new_scale = mul_fix(dy, self.scale, p);
        let cx = centered_half_exec(start_x, end_x, p);
        let cy = centered_half_exec(start_y, end_y, p);
        let off_x = mul_fix(mul_fix(cx, self.scale, p), ratio, p);
        let off_y = mul_fix(cy, self.scale, p);
        self.pos_x = sat_exec(self.pos_x + off_x, p);
        self.pos_y = sat_exec(self.pos_y - off_y, p);
        self.scale = new_scale;
    }

    /// Zoom toward a window position: the scale shrinks (or grows) by
    /// the factor first, and the position then moves toward the pointed
    /// spot proportionally to the new scale.
    pub fn zoom_position(&mut self, at_x: i128, at_y: i128, factor: i128, settings: &AppSettings)
        requires
            settings.valid(),
            old(self).wf(settings.precision as nat),
            fix_ok(at_x as int, settings.precision as nat),
            fix_ok(at_y as int, settings.precision as nat),
            fix_ok(factor as int, settings.precision as nat),
        ensures
            final(self).scale == fix_mul(
                old(self).scale as int,
                factor as int,
                settings.precision as nat,
            ),
            final(self).pos_x == sat(
                old(self).pos_x + fix_mul(
                    fix_mul(
                        sat(
                            at_x - pow2((settings.precision - 1) as nat),
                            settings.precision as nat,
                        ),
                        final(self).scale as int,
                        settings.precision as nat,
                    ),
                    ratio_spec(*settings),
                    settings.precision as nat,
                ),
                settings.precision as nat,
            ),
            final(self).pos_y == sat(
                old(self).pos_y - fix_mul(
                    sat(at_y - pow2((settings.precision - 1) as nat), settings.precision as nat),
                    final(self).scale as int,
                    settings.precision as nat,
                ),
                settings.precision as nat,
            ),
            final(self).wf(settings.precision as nat),
    {
        let p = settings.precision;
        proof {
            lemma_pow2_pos((p - 1) as nat);
            lemma_pow2_adds((p - 1) as nat, 1);
            lemma2_to64();
            crate::bounded::lemma_sat_bound_le(p as nat);
        }
        let half: i128 = pow2_exec(p - 1) as i128;
        let ratio = ratio_exec(settings);
        self.scale = mul_fix(self.scale, factor, p);
        let dx = sat_exec(at_x - half, p);
        let dy = sat_exec(at_y - half, p);
        let off_x = mul_fix(mul_fix(dx, self.scale, p), ratio, p);
        let off_y = mul_fix(dy, self.scale, p);
        self.pos_x = sat_exec(self.pos_x + off_x, p);
        self.pos_y = sat_exec(self.pos_y - off_y, p);
    }

    /// Zoom in place: only the scale changes.
    pub fn zoom_scale(&mut self, factor: i128, settings: &AppSettings)
        requires
            settings.valid(),
            old(self).wf(settings.precision as nat),
            fix_ok(factor as int, settings.precision as nat),
        ensures
            final(self).scale == fix_mul(
                old(self).scale as int,
                factor as int,
                settings.precision as nat,
            ),
            final(self).pos_x == old(self).pos_x,
            final(self).pos_y == old(self).pos_y,
            final(self).wf(settings.precision as nat),
    {
        let p = settings.precision;
        self.scale = mul_fix(self.scale, factor, p);
    }
}

} // verus!
