//! The compute engine: viewport-to-coordinate mapping, row batching,
//! backend dispatch, and assembly of the per-pixel result grid.

use vstd::prelude::*;
use std::sync::mpsc::{channel, Receiver, Sender};
use threadpool::ThreadPool;
use crate::bounded::{
    bound_spec, check_batch, check_point, Bound, BoundsChecker, BoundsSettings,
};
use crate::events::{ComputeEvent, ProgressSink};
use crate::fixed::{fix_ok, rescale, rescale_exec, sat, sat_exec, div_floor, MAX_FRAC_BITS};

verus! {

/// The backend selector: one tag per numeric representation.  The set is
/// closed, so dispatch is a match rather than dynamic.
#[derive(Clone, Copy, Debug, PartialEq, Eq, Structural)]
pub enum ComputeEngine {
    Single,
    Double,
    SimdF32x8,
    SimdF64x4,
    Precision,
}

/// The engine named by a selector index (used by persistence and UI
/// selection lists); indices at or beyond the variant count fall back to
/// the last variant.
pub open spec fn engine_of_index(i: int) -> ComputeEngine {
    if i == 0 {
        ComputeEngine::Single
    } else if i == 1 {
        ComputeEngine::Double
    } else if i == 2 {
        ComputeEngine::SimdF32x8
    } else if i == 3 {
        ComputeEngine::SimdF64x4
    } else {
        ComputeEngine::Precision
    }
}

impl ComputeEngine {
    /// Position of this variant in the stable selector order.
    pub open spec fn index_spec(self) -> int {
        match self {
            ComputeEngine::Single => 0,
            ComputeEngine::Double => 1,
            ComputeEngine::SimdF32x8 => 2,
            ComputeEngine::SimdF64x4 => 3,
            ComputeEngine::Precision => 4,
        }
    }

    /// The stable small-integer form of this selector.
    pub fn to_index(self) -> (i: u32)
        ensures
            i == self.index_spec(),
    {
        match self {
            ComputeEngine::Single => 0,
            ComputeEngine::Double => 1,
            ComputeEngine::SimdF32x8 => 2,
            ComputeEngine::SimdF64x4 => 3,
            ComputeEngine::Precision => 4,
        }
    }

    /// The selector a small integer names, or nothing beyond the range.
    pub fn from_index(i: u32) -> (e: Option<ComputeEngine>)
        ensures
            i < 5 ==> e == Some(engine_of_index(i as int)),
            i >= 5 ==> e is None,
    {
        if i == 0 {
            Some(ComputeEngine::Single)
        } else if i == 1 {
            Some(ComputeEngine::Double)
        } else if i == 2 {
            Some(ComputeEngine::SimdF32x8)
        } else if i == 3 {
            Some(ComputeEngine::SimdF64x4)
        } else if i == 4 {
            Some(ComputeEngine::Precision)
        } else {
            None
        }
    }

    /// Every selector, in index order.
    pub fn all() -> (v: Vec<ComputeEngine>)
        ensures
            v@.len() == 5,
            forall|i: int| 0 <= i < 5 ==> (#[trigger] v@[i]) == engine_of_index(i),
    {
        let mut v: Vec<ComputeEngine> = Vec::new();
        v.push(ComputeEngine::Single);
        v.push(ComputeEngine::Double);
        v.push(ComputeEngine::SimdF32x8);
        v.push(ComputeEngine::SimdF64x4);
        v.push(ComputeEngine::Precision);
        v
    }
}

/// Indexing is the inverse of the selector order: every engine is
/// recovered from its own index.
pub proof fn lemma_engine_index_round_trip(e: ComputeEngine)
    ensures
        0 <= e.index_spec() < 5,
        engine_of_index(e.index_spec()) == e,
{
}

impl BoundsChecker for ComputeEngine {
    /// Scalar backends take one coordinate per call; the lane-batched
    /// backends take their lane count.
    open spec fn batch_width_spec(&self) -> nat {
        match self {
            ComputeEngine::Single => 1,
            ComputeEngine::Double => 1,
            ComputeEngine::SimdF32x8 => 8,
            ComputeEngine::SimdF64x4 => 4,
            ComputeEngine::Precision => 1,
        }
    }

    /// Single-precision backends carry a 24-bit significand, double
    /// precision 53 bits, and the arbitrary-precision backend the width
    /// the settings ask for.
    open spec fn frac_bits_spec(&self, settings: &BoundsSettings) -> nat {
        match self {
            ComputeEngine::Single => 24,
            ComputeEngine::Double => 53,
            ComputeEngine::SimdF32x8 => 24,
            ComputeEngine::SimdF64x4 => 53,
            ComputeEngine::Precision => settings.precision as nat,
        }
    }

    fn batch_width(&self) -> (w: usize) {
        match self {
            ComputeEngine::Single => 1,
            ComputeEngine::Double => 1,
            ComputeEngine::SimdF32x8 => 8,
            ComputeEngine::SimdF64x4 => 4,
            ComputeEngine::Precision => 1,
        }
    }

    fn frac_bits(&self, settings: &BoundsSettings) -> (f: u32) {
        match self {
            ComputeEngine::Single => 24,
            ComputeEngine::Double => 53,
            ComputeEngine::SimdF32x8 => 24,
            ComputeEngine::SimdF64x4 => 53,
            ComputeEngine::Precision => settings.precision,
        }
    }

    fn check_bounded(&self, xs: &Vec<i128>, ys: &Vec<i128>, settings: &BoundsSettings) -> (out:
        Vec<Bound>) {
        let f = self.frac_bits(settings);
        match self {
            ComputeEngine::SimdF32x8 => check_batch(xs, ys, f, settings.limit),
            ComputeEngine::SimdF64x4 => check_batch(xs, ys, f, settings.limit),
            _ => {
                let b = check_point(xs[0], ys[0], f, settings.limit);
                let mut out: Vec<Bound> = Vec::new();
                out.push(b);
                out
            },
        }
    }
}

/// One computation request: the viewport center and half-height as
/// fixed-point mantissas at `bounds.precision` fractional bits, the pixel
/// resolution, the backend selector, and the bounds-check parameters.
#[derive(Clone, Copy, Debug, PartialEq, Eq, Structural)]
pub struct ComputeSettings {
    pub x: i128,
    pub y: i128,
    pub scale: i128,
    pub width: u32,
    pub height: u32,
    pub engine: ComputeEngine,
    pub bounds: BoundsSettings,
}

impl ComputeSettings {
    /// The contract the engine assumes of its callers: positive
    /// resolution that fits a flat buffer, in-range center and scale
    /// mantissas, and a width that is a whole number of batches (the
    /// engine pads no partial batch).
    pub open spec fn valid(self) -> bool {
        &&& self.bounds.valid()
        &&& 0 < self.width
        &&& 0 < self.height
        &&& self.width as int * self.height as int <= usize::MAX as int
        &&& self.width as int % self.engine.batch_width_spec() as int == 0
        &&& fix_ok(self.x as int, self.bounds.precision as nat)
        &&& fix_ok(self.y as int, self.bounds.precision as nat)
        &&& fix_ok(self.scale as int, self.bounds.precision as nat)
    }

    pub fn new(
        x: i128,
        y: i128,
        scale: i128,
        width: u32,
        height: u32,
        engine: ComputeEngine,
        bounds: BoundsSettings,
    ) -> (s: ComputeSettings)
        ensures
            s == (ComputeSettings { x, y, scale, width, height, engine, bounds }),
    {
        ComputeSettings { x, y, scale, width, height, engine, bounds }
    }
}

/// Plane x-coordinate of pixel column `col` at `f` fractional bits:
/// `center_x + scale * (2*col - width) / (2*height)`, which is the closed
/// form of `x_start + col * x_step` for `x_step = scale * aspect / width`
/// with a single rounding.
pub open spec fn coord_x(s: ComputeSettings, col: int, f: nat) -> int {
    let c = rescale(s.x as int, s.bounds.precision as nat, f);
    let sc = rescale(s.scale as int, s.bounds.precision as nat, f);
    sat(c + (sc * (2 * col - s.width as int)) / (2 * s.height as int), f)
}

/// Plane y-coordinate of pixel row `row` at `f` fractional bits: row 0 is
/// the minimum plane y, so plane y grows downward in pixel order.
pub open spec fn coord_y(s: ComputeSettings, row: int, f: nat) -> int {
    let c = rescale(s.y as int, s.bounds.precision as nat, f);
    let sc = rescale(s.scale as int, s.bounds.precision as nat, f);
    sat(c + (sc * (2 * row - s.height as int)) / (2 * s.height as int), f)
}

/// The `Bound` owed for pixel `(col, row)`: the escape-time result at the
/// coordinate of that pixel, at the active backend's fractional width.
pub open spec fn pixel_spec(s: ComputeSettings, col: int, row: int) -> Bound {
    let f = s.engine.frac_bits_spec(&s.bounds);
    bound_spec(coord_x(s, col, f), coord_y(s, row, f), f, s.bounds.limit as nat)
}

/// One full row of pixel results, left to right.
pub open spec fn row_spec(s: ComputeSettings, row: int) -> Seq<Bound> {
    Seq::new(s.width as nat, |col: int| pixel_spec(s, col, row))
}

/// The whole grid, row-major: element `row * width + col` is the result
/// for pixel `(col, row)`.
pub open spec fn grid_spec(s: ComputeSettings) -> Seq<Bound> {
    Seq::new(
        (s.width as int * s.height as int) as nat,
        |i: int| pixel_spec(s, i % s.width as int, i / s.width as int),
    )
}

/// Shared helper for both coordinate axes: `center + scale * k / (2*h)`
/// clamped, where `k` is the doubled, centered pixel index.
fn coord_exec(c: i128, sc: i128, k: i128, h: u32, f: u32) -> (r: i128)
    requires
        1 <= f <= MAX_FRAC_BITS,
        fix_ok(c as int, f as nat),
        fix_ok(sc as int, f as nat),
        -0x200000000 <= k <= 0x200000000,
        0 < h,
    ensures
        r == sat(c as int + (sc as int * k as int) / (2 * h as int), f as nat),
        fix_ok(r as int, f as nat),
{
    proof {
        crate::bounded::lemma_sat_bound_le(f as nat);
        assert(-0x1000000000000000000000000 <= sc as int * k as int
            <= 0x1000000000000000000000000) by (nonlinear_arith)
            requires
                -0x8000000000000000 <= sc as int <= 0x8000000000000000,
                -0x200000000 <= k as int <= 0x200000000,
        ;
    }
    let num: i128 = sc * k;
    let q: i128 = div_floor(num, 2 * (h as i128));
    sat_exec(c + q, f)
}

/// Build the coordinate mantissas for one backend batch starting at
/// column `col` of row `row`.
fn batch_coords(s: &ComputeSettings, col: u32, k: usize, cy: i128, f: u32) -> (r: (Vec<i128>, Vec<
    i128,
>))
    requires
        s.valid(),
        1 <= f <= MAX_FRAC_BITS,
        f == s.engine.frac_bits_spec(&s.bounds),
        col as int + k as int <= s.width as int,
        fix_ok(cy as int, f as nat),
    ensures
        r.0@.len() == k,
        r.1@.len() == k,
        forall|i: int|
            0 <= i < k ==> (#[trigger] r.0@[i]) as int == coord_x(*s, col + i, f as nat) && fix_ok(
                r.0@[i] as int,
                f as nat,
            ),
        forall|i: int| 0 <= i < k ==> (#[trigger] r.1@[i]) == cy,
{
    let c = rescale_exec(s.x, s.bounds.precision, f);
    let sc = rescale_exec(s.scale, s.bounds.precision, f);
    let mut xs: Vec<i128> = Vec::new();
    let mut ys: Vec<i128> = Vec::new();
    let mut i: usize = 0;
    while i < k
        invariant
            i <= k,
            xs@.len() == i,
            ys@.len() == i,
            s.valid(),
            1 <= f <= MAX_FRAC_BITS,
            col as int + k as int <= s.width as int,
            fix_ok(cy as int, f as nat),
            c as int == rescale(s.x as int, s.bounds.precision as nat, f as nat),
            sc as int == rescale(s.scale as int, s.bounds.precision as nat, f as nat),
            fix_ok(c as int, f as nat),
            fix_ok(sc as int, f as nat),
            forall|j: int|
                0 <= j < i ==> (#[trigger] xs@[j]) as int == coord_x(*s, col + j, f as nat)
                    && fix_ok(xs@[j] as int, f as nat),
            forall|j: int| 0 <= j < i ==> (#[trigger] ys@[j]) == cy,
        decreases k - i,
    {
        let kk: i128 = 2 * ((col as i128) + (i as i128)) - (s.width as i128);
        let x = coord_exec(c, sc, kk, s.height, f);
        xs.push(x);
        ys.push(cy);
        i = i + 1;
    }
    (xs, ys)
}

/// When `col` and `width` are both whole multiples of the batch width,
/// a row that still has columns left has room for one more full batch.
proof fn lemma_batch_fits(col: int, width: int, k: int)
    requires
        0 < k,
        col % k == 0,
        width % k == 0,
        col < width,
    ensures
        col + k <= width,
{
    vstd::arithmetic::div_mod::lemma_fundamental_div_mod(col, k);
    vstd::arithmetic::div_mod::lemma_fundamental_div_mod(width, k);
    let a = col / k;
    let b = width / k;
    assert(col == k * a && width == k * b);
    assert(a < b) by (nonlinear_arith)
        requires
            k * a < k * b,
            0 < k,
    ;
    assert(k * a + k <= k * b) by (nonlinear_arith)
        requires
            a < b,
            0 < k,
    ;
}

/// Compute one row of the grid: columns are grouped into contiguous
/// batches of the backend's width and evaluated left to right.
pub fn compute_row(s: &ComputeSettings, row: u32) -> (out: Vec<Bound>)
    requires
        s.valid(),
        row < s.height,
    ensures
        out@ == row_spec(*s, row as int),
{
    let engine = s.engine;
    let f = engine.frac_bits(&s.bounds);
    let k = engine.batch_width();
    let c = rescale_exec(s.y, s.bounds.precision, f);
    let sc = rescale_exec(s.scale, s.bounds.precision, f);
    let kr: i128 = 2 * (row as i128) - (s.height as i128);
    let cy = coord_exec(c, sc, kr, s.height, f);
    let mut out: Vec<Bound> = Vec::new();
    let mut col: u32 = 0;
    while col < s.width
        invariant
            col <= s.width,
            col as int % k as int == 0,
            out@.len() == col,
            s.valid(),
            row < s.height,
            engine == s.engine,
            f == engine.frac_bits_spec(&s.bounds),
            1 <= f <= MAX_FRAC_BITS,
            k == engine.batch_width_spec(),
            1 <= k <= 8,
            cy as int == coord_y(*s, row as int, f as nat),
            fix_ok(cy as int, f as nat),
            forall|j: int| 0 <= j < col ==> (#[trigger] out@[j]) == pixel_spec(*s, j, row as int),
        decreases s.width - col,
    {
        proof {
            lemma_batch_fits(col as int, s.width as int, k as int);
        }
        let (xs, ys) = batch_coords(s, col, k, cy, f);
        let batch = engine.check_bounded(&xs, &ys, &s.bounds);
        let mut i: usize = 0;
        while i < k
            invariant
                i <= k,
                out@.len() == col + i,
                col as int + k as int <= s.width as int,
                batch@.len() == k,
                xs@.len() == k,
                ys@.len() == k,
                s.valid(),
                row < s.height,
                engine == s.engine,
                f == engine.frac_bits_spec(&s.bounds),
                cy as int == coord_y(*s, row as int, f as nat),
                forall|l: int|
                    0 <= l < k ==> (#[trigger] batch@[l]) == bound_spec(
                        xs@[l] as int,
                        ys@[l] as int,
                        f as nat,
                        s.bounds.limit as nat,
                    ),
                forall|l: int|
                    0 <= l < k ==> (#[trigger] xs@[l]) as int == coord_x(*s, col + l, f as nat),
                forall|l: int| 0 <= l < k ==> (#[trigger] ys@[l]) == cy,
                forall|j: int| 0 <= j < col + i ==> (#[trigger] out@[j]) == pixel_spec(
                    *s,
                    j,
                    row as int,
                ),
            decreases k - i,
        {
            out.push(batch[i]);
            i = i + 1;
        }
        proof {
            vstd::arithmetic::div_mod::lemma_mod_add_multiples_vanish(col as int, k as int);
        }
        col = col + (k as u32);
    }
    proof {
        assert(out@ =~= row_spec(*s, row as int));
    }
    out
}

/// The grid grows by exactly one row: taking one more row's worth of the
/// grid appends that row's results.
proof fn lemma_grid_take_row(s: ComputeSettings, y: int)
    requires
        s.valid(),
        0 <= y < s.height as int,
    ensures
        grid_spec(s).take((y + 1) * s.width as int) == grid_spec(s).take(y * s.width as int)
            + row_spec(s, y),
{
    let w = s.width as int;
    let h = s.height as int;
    assert(0 <= y * w && (y + 1) * w <= w * h && (y + 1) * w == y * w + w) by (nonlinear_arith)
        requires
            0 <= y < h,
            0 < w,
    ;
    assert forall|idx: int| y * w <= idx < (y + 1) * w implies grid_spec(s)[idx] == row_spec(
        s,
        y,
    )[idx - y * w] by {
        vstd::arithmetic::div_mod::lemma_fundamental_div_mod_converse(idx, w, y, idx - y * w);
    }
    assert(grid_spec(s).take((y + 1) * w) =~= grid_spec(s).take(y * w) + row_spec(s, y));
}

/// A limit of zero makes every pixel of every viewport `Bounded`: the
/// iteration body never runs.
pub proof fn lemma_limit_zero(s: ComputeSettings)
    requires
        s.valid(),
        s.bounds.limit == 0,
    ensures
        forall|i: int| 0 <= i < grid_spec(s).len() ==> #[trigger] grid_spec(s)[i] == Bound::Bounded,
{
}

/// The grid depends on the backend selector only through its fractional
/// width: two settings that differ in nothing but the engine produce the
/// same grid whenever their engines run at the same width.  In
/// particular the Double, SimdF64x4 and Precision-at-53-bits backends
/// agree exactly, pixel for pixel, as do Single and SimdF32x8 at 24
/// bits; the 24-bit backends may diverge from the 53-bit ones near the
/// escape boundary, which is why they are not related here.
pub proof fn lemma_cross_backend_agreement(s1: ComputeSettings, s2: ComputeSettings)
    requires
        s1.valid(),
        s2.valid(),
        s1.x == s2.x,
        s1.y == s2.y,
        s1.scale == s2.scale,
        s1.width == s2.width,
        s1.height == s2.height,
        s1.bounds.limit == s2.bounds.limit,
        s1.bounds.precision == s2.bounds.precision,
        s1.engine.frac_bits_spec(&s1.bounds) == s2.engine.frac_bits_spec(&s2.bounds),
    ensures
        grid_spec(s1) == grid_spec(s2),
{
    let f = s1.engine.frac_bits_spec(&s1.bounds);
    assert forall|i: int| 0 <= i < grid_spec(s1).len() implies grid_spec(s1)[i] == grid_spec(
        s2,
    )[i] by {
        let col = i % s1.width as int;
        let row = i / s1.width as int;
        assert(coord_x(s1, col, f) == coord_x(s2, col, f));
        assert(coord_y(s1, row, f) == coord_y(s2, row, f));
    }
    assert(grid_spec(s1) =~= grid_spec(s2));
}

/// The grid assembled from per-row buffers placed by row index.
pub open spec fn grid_of_rows(s: ComputeSettings, rows: Seq<Seq<Bound>>) -> Seq<Bound> {
    Seq::new(
        (s.width as int * s.height as int) as nat,
        |i: int| rows[i / s.width as int][i % s.width as int],
    )
}

/// Row-order invariance: placing every computed row at the offset its
/// own index names yields exactly the row-major grid, however the rows
/// were ordered when they arrived.  Both execution modes' contracts pin
/// their output to `grid_spec`, so they agree element for element; this
/// law states the reassembly step on its own.
pub proof fn lemma_row_order_invariant(s: ComputeSettings, rows: Seq<Seq<Bound>>)
    requires
        s.valid(),
        rows.len() == s.height,
        forall|y: int| 0 <= y < s.height ==> #[trigger] rows[y] == row_spec(s, y),
    ensures
        grid_of_rows(s, rows) == grid_spec(s),
{
    let w = s.width as int;
    assert forall|i: int| 0 <= i < s.width as int * s.height as int implies grid_of_rows(s, rows)[i]
        == grid_spec(s)[i] by {
        vstd::arithmetic::div_mod::lemma_div_pos_is_pos(i, w);
        vstd::arithmetic::div_mod::lemma_mod_division_less_than_divisor(i, w);
        vstd::arithmetic::div_mod::lemma_multiply_divide_lt(i, w, s.height as int);
        assert(rows[i / w] == row_spec(s, i / w));
    }
    assert(grid_of_rows(s, rows) =~= grid_spec(s));
}

/// The lifecycle stream of a computation over `h` rows is exactly one
/// `Start`, then one `Progress` per row carrying the count of rows
/// assembled so far (0 through h-1, a permutation of the row indices),
/// then exactly one `End`.
pub proof fn lemma_trace_shape(h: u32)
    ensures
        event_trace(h).len() == h + 2,
        event_trace(h)[0] == ComputeEvent::Start,
        event_trace(h)[h as int + 1] == ComputeEvent::End,
        forall|i: int|
            #![trigger event_trace(h)[i + 1]]
            0 <= i < h ==> event_trace(h)[i + 1] == ComputeEvent::Progress(
                #[verifier::truncate] (i as u32),
                h,
            ),
{
}

/// Batch-width consistency: a lane-batched backend and a scalar backend
/// that run at the same fractional width owe, lane for lane, the same
/// `Bound` for the same coordinate — every backend's `check_bounded`
/// contract pins each lane to `bound_spec` at its width.
pub proof fn lemma_batch_width_consistency(
    batched: ComputeEngine,
    scalar: ComputeEngine,
    bounds: BoundsSettings,
    cr: i128,
    ci: i128,
)
    requires
        bounds.valid(),
        batched.frac_bits_spec(&bounds) == scalar.frac_bits_spec(&bounds),
    ensures
        bound_spec(cr as int, ci as int, batched.frac_bits_spec(&bounds), bounds.limit as nat)
            == bound_spec(cr as int, ci as int, scalar.frac_bits_spec(&bounds), bounds.limit as nat),
{
}

/// The `Progress` events of one computation: one per assembled row, in
/// assembly order.
pub open spec fn progress_trace(h: u32) -> Seq<ComputeEvent> {
    Seq::new(h as nat, |i: int| ComputeEvent::Progress(i as u32, h))
}

/// The full lifecycle trace of one computation over `h` rows: one
/// `Start`, then `h` `Progress` events, then one `End`.
pub open spec fn event_trace(h: u32) -> Seq<ComputeEvent> {
    seq![ComputeEvent::Start] + progress_trace(h) + seq![ComputeEvent::End]
}

/// Why a computation was aborted: a worker died before handing its row
/// back, or the result channel yielded a row that cannot belong to this
/// computation (a foreign settings tag, or an index already filled), so
/// the grid could not be assembled completely.
#[derive(Clone, Copy, Debug, PartialEq, Eq, Structural)]
pub enum ComputeError {
    WorkerFailed,
}

/// A computed grid: the resolution it was computed at, and the row-major
/// results once they exist.  The resolution is present even while the
/// data is not, so a consumer can size a placeholder.
pub struct ComputedSet {
    width: u32,
    height: u32,
    data: Option<Vec<Bound>>,
}

impl ComputedSet {
    pub closed spec fn width_spec(self) -> u32 {
        self.width
    }

    pub closed spec fn height_spec(self) -> u32 {
        self.height
    }

    pub closed spec fn data_spec(self) -> Option<Seq<Bound>> {
        match self.data {
            Some(v) => Some(v@),
            None => None,
        }
    }

    /// A fully populated grid; the data must be exactly one `Bound` per
    /// pixel, row-major.
    pub fn new(width: u32, height: u32, data: Vec<Bound>) -> (s: ComputedSet)
        requires
            data@.len() == width as int * height as int,
        ensures
            s.width_spec() == width,
            s.height_spec() == height,
            s.data_spec() == Some(data@),
    {
        ComputedSet { width, height, data: Some(data) }
    }

    /// A grid that is not yet computed: resolution only, no data.
    pub fn empty(width: u32, height: u32) -> (s: ComputedSet)
        ensures
            s.width_spec() == width,
            s.height_spec() == height,
            s.data_spec() is None,
    {
        ComputedSet { width, height, data: None }
    }

    pub fn get_size(&self) -> (size: (u32, u32))
        ensures
            size.0 == self.width_spec(),
            size.1 == self.height_spec(),
    {
        (self.width, self.height)
    }

    /// The row-major results, or nothing when no computation has
    /// finished yet.
    pub fn iter(&self) -> (r: Option<&Vec<Bound>>)
        ensures
            match r {
                Some(v) => self.data_spec() == Some(v@),
                None => self.data_spec() is None,
            },
    {
        match &self.data {
            Some(data) => Some(data),
            None => None,
        }
    }
}

/// Compute every row on the calling thread, in increasing row order.
fn compute_grid_sequential(s: &ComputeSettings, sink: &mut ProgressSink) -> (out: Vec<Bound>)
    requires
        s.valid(),
    ensures
        out@ == grid_spec(*s),
        final(sink)@ == old(sink)@ + progress_trace(s.height),
{
    let mut out: Vec<Bound> = Vec::new();
    let mut y: u32 = 0;
    while y < s.height
        invariant
            y <= s.height,
            s.valid(),
            out@ == grid_spec(*s).take(y as int * s.width as int),
            sink@ == old(sink)@ + Seq::new(
                y as nat,
                |i: int| ComputeEvent::Progress(i as u32, s.height),
            ),
        decreases s.height - y,
    {
        let mut row = compute_row(s, y);
        proof {
            lemma_grid_take_row(*s, y as int);
        }
        out.append(&mut row);
        sink.notify(ComputeEvent::Progress(y, s.height));
        proof {
            assert(sink@ =~= old(sink)@ + Seq::new(
                (y + 1) as nat,
                |i: int| ComputeEvent::Progress(i as u32, s.height),
            ));
        }
        y = y + 1;
    }
    proof {
        assert(s.height as int * s.width as int == s.width as int * s.height as int)
            by (nonlinear_arith);
        assert(grid_spec(*s).take(s.height as int * s.width as int) =~= grid_spec(*s));
        assert(Seq::new(s.height as nat, |i: int| ComputeEvent::Progress(i as u32, s.height))
            =~= progress_trace(s.height));
    }
    out
}

/// A sequence is a prefix of itself with anything appended.
proof fn lemma_concat_prefix<T>(a: Seq<T>, b: Seq<T>)
    ensures
        a.is_prefix_of(a + b),
{
    assert(a =~= (a + b).subrange(0, a.len() as int));
}

/// Prefixes chain: a prefix of a prefix is a prefix.
proof fn lemma_prefix_trans<T>(a: Seq<T>, b: Seq<T>, c: Seq<T>)
    requires
        a.is_prefix_of(b),
        b.is_prefix_of(c),
    ensures
        a.is_prefix_of(c),
{
    assert(a =~= c.subrange(0, a.len() as int));
}

/// threadpool's bounded worker pool, declared so the engine can borrow
/// the pool its caller owns and sized.
#[verifier::external_type_specification]
#[verifier::external_body]
pub struct ExThreadPool(ThreadPool);

/// std's mpsc receiver, declared so the gather loop can hold the result
/// channel.
#[verifier::external_type_specification]
#[verifier::external_body]
#[verifier::reject_recursive_types(T)]
pub struct ExReceiver<T>(Receiver<T>);

/// One worker's completed result: the row, the index it belongs at, and
/// the settings it was computed for.  The type invariant pins the row's
/// contents to `row_spec`, so a value of this type carries its own
/// correctness across the result channel.
struct TaggedRow {
    y: u32,
    row: Vec<Bound>,
    settings: ComputeSettings,
}

impl TaggedRow {
    #[verifier::type_invariant]
    spec fn inv(self) -> bool {
        &&& self.settings.valid()
        &&& self.y < self.settings.height
        &&& self.row@ == row_spec(self.settings, self.y as int)
    }
}

/// Relies on std::sync::mpsc::channel: a fresh queue for tagged rows,
/// returned as its send and receive halves.
#[verifier::external_body]
fn row_channel() -> (Sender<TaggedRow>, Receiver<TaggedRow>) {
    channel()
}

/// Relies on std::sync::mpsc::Sender::clone: another sender for the same
/// queue, for one worker task to own.
#[verifier::external_body]
fn clone_sender(tx: &Sender<TaggedRow>) -> Sender<TaggedRow> {
    tx.clone()
}

/// Relies on std::sync::mpsc::Sender::send: queues the tagged row.  A
/// disconnected receiver makes the send a no-op; the gather loop counts
/// the rows it drains, so nothing is lost silently.
#[verifier::external_body]
fn send_row(tx: &Sender<TaggedRow>, message: TaggedRow) {
    let _ = tx.send(message);
}

/// Relies on std::sync::mpsc::Receiver::recv: the next queued message,
/// or nothing once every sender is gone (a worker died without sending).
#[verifier::external_body]
fn recv_row(rx: &Receiver<TaggedRow>) -> Option<TaggedRow> {
    rx.recv().ok()
}

/// Relies on std's Drop for mpsc::Sender: gives the engine's own send
/// half up, so that the channel disconnects once all workers finish.
#[verifier::external_body]
fn drop_sender(tx: Sender<TaggedRow>) {
    let _ = tx;
}

/// What one worker task runs: compute the row, tag it with its index and
/// settings, and queue it for the gather loop.
fn worker_body(settings: &ComputeSettings, y: u32, tx: &Sender<TaggedRow>)
    requires
        settings.valid(),
        y < settings.height,
{
    let row = compute_row(settings, y);
    send_row(tx, TaggedRow { y, row, settings: *settings });
}

/// Relies on threadpool::ThreadPool::execute: queues `worker_body` for
/// the given row to run on one of the pool's worker threads.
#[verifier::external_body]
fn spawn_row_task(pool: &ThreadPool, tx: Sender<TaggedRow>, settings: ComputeSettings, y: u32)
    requires
        settings.valid(),
        y < settings.height,
{
    pool.execute(move || worker_body(&settings, y, &tx));
}

/// Copy one completed row into the grid at its own offset.
fn place_row(grid: &mut Vec<Bound>, base: usize, row: &Vec<Bound>)
    requires
        base + row@.len() <= old(grid)@.len(),
        old(grid)@.len() <= usize::MAX,
    ensures
        final(grid)@.len() == old(grid)@.len(),
        forall|i: int| 0 <= i < row@.len() ==> final(grid)@[base + i] == row@[i],
        forall|j: int|
            0 <= j < old(grid)@.len() && !(base <= j < base + row@.len()) ==> final(grid)@[j]
                == old(grid)@[j],
{
    let mut i: usize = 0;
    while i < row.len()
        invariant
            i <= row@.len(),
            base + row@.len() <= grid@.len(),
            grid@.len() <= usize::MAX,
            grid@.len() == old(grid)@.len(),
            forall|m: int| 0 <= m < i ==> grid@[base + m] == row@[m],
            forall|j: int|
                0 <= j < grid@.len() && !(base <= j < base + row@.len()) ==> grid@[j] == old(
                    grid,
                )@[j],
        decreases row@.len() - i,
    {
        grid[base + i] = row[i];
        i = i + 1;
    }
}

/// How many entries of a flag sequence are set.
spec fn count_true(s: Seq<bool>) -> nat
    decreases s.len(),
{
    if s.len() == 0 {
        0
    } else {
        count_true(s.drop_last()) + (if s.last() {
            1nat
        } else {
            0nat
        })
    }
}

proof fn lemma_count_true_le(s: Seq<bool>)
    ensures
        count_true(s) <= s.len(),
    decreases s.len(),
{
    if s.len() > 0 {
        lemma_count_true_le(s.drop_last());
    }
}

/// A sequence of unset flags has count zero.
proof fn lemma_count_true_zero(s: Seq<bool>)
    requires
        forall|i: int| 0 <= i < s.len() ==> !s[i],
    ensures
        count_true(s) == 0,
    decreases s.len(),
{
    if s.len() > 0 {
        assert forall|i: int| 0 <= i < s.drop_last().len() implies !s.drop_last()[i] by {
            assert(s.drop_last()[i] == s[i]);
        }
        lemma_count_true_zero(s.drop_last());
    }
}

/// Setting one unset flag raises the count by exactly one.
proof fn lemma_count_true_update(s: Seq<bool>, i: int)
    requires
        0 <= i < s.len(),
        !s[i],
    ensures
        count_true(s.update(i, true)) == count_true(s) + 1,
    decreases s.len(),
{
    if i == s.len() - 1 {
        assert(s.update(i, true).drop_last() =~= s.drop_last());
    } else {
        assert(s.update(i, true).drop_last() =~= s.drop_last().update(i, true));
        assert(s.update(i, true).last() == s.last());
        lemma_count_true_update(s.drop_last(), i);
    }
}

/// A flag sequence whose count equals its length is set everywhere.
proof fn lemma_count_true_full(s: Seq<bool>)
    requires
        count_true(s) == s.len(),
    ensures
        forall|i: int| 0 <= i < s.len() ==> s[i],
    decreases s.len(),
{
    if s.len() > 0 {
        lemma_count_true_le(s.drop_last());
        lemma_count_true_full(s.drop_last());
        assert forall|i: int| 0 <= i < s.len() implies s[i] by {
            if i < s.len() - 1 {
                assert(s.drop_last()[i] == s[i]);
            }
        }
    }
}

/// A grid index belongs to row `y` exactly when it lies in row `y`'s
/// slot of the flat buffer.
proof fn lemma_slot_index(j: int, w: int, y: int)
    requires
        0 < w,
        0 <= y,
        y * w <= j < (y + 1) * w,
    ensures
        j / w == y,
        j % w == j - y * w,
{
    assert((y + 1) * w == y * w + w) by (nonlinear_arith);
    vstd::arithmetic::div_mod::lemma_fundamental_div_mod_converse(j, w, y, j - y * w);
}

/// The converse: an index whose quotient is `y` lies in row `y`'s slot.
proof fn lemma_slot_of_quotient(j: int, w: int)
    requires
        0 < w,
        0 <= j,
    ensures
        (j / w) * w <= j < (j / w + 1) * w,
        0 <= j / w,
{
    vstd::arithmetic::div_mod::lemma_fundamental_div_mod(j, w);
    vstd::arithmetic::div_mod::lemma_mod_division_less_than_divisor(j, w);
    vstd::arithmetic::div_mod::lemma_div_pos_is_pos(j, w);
    assert((j / w) * w == w * (j / w) && (j / w + 1) * w == w * (j / w) + w) by (nonlinear_arith);
}

/// Scatter one task per row onto the caller's pool, then drain exactly
/// `height` tagged rows from the result channel and place each at the
/// offset its tag names, so the assembled grid is row-order-correct
/// whatever order the workers finish in.  Each tagged row carries proof
/// of its own contents, so the assembled grid is exactly `grid_spec`.  A
/// missing row, a duplicated row, or a row tagged for different settings
/// aborts the computation rather than returning a partially assembled
/// grid.
fn compute_grid_parallel(pool: &ThreadPool, s: &ComputeSettings, sink: &mut ProgressSink) -> (r:
    Result<Vec<Bound>, ComputeError>)
    requires
        s.valid(),
    ensures
        match r {
            Ok(out) => out@ == grid_spec(*s) && final(sink)@ == old(sink)@ + progress_trace(
                s.height,
            ),
            Err(_) => old(sink)@.is_prefix_of(final(sink)@),
        },
{
    let st: ComputeSettings = *s;
    let (tx, rx) = row_channel();
    let mut y: u32 = 0;
    while y < s.height
        invariant
            y <= s.height,
            s.valid(),
            st == *s,
        decreases s.height - y,
    {
        let task_tx = clone_sender(&tx);
        spawn_row_task(pool, task_tx, st, y);
        y = y + 1;
    }
    drop_sender(tx);
    let w: usize = s.width as usize;
    let n: usize = w * (s.height as usize);
    let mut grid: Vec<Bound> = vec![Bound::Bounded; n];
    let mut filled: Vec<bool> = vec![false; s.height as usize];
    proof {
        lemma_count_true_zero(filled@);
        assert forall|j: int| #![trigger filled@[j / (s.width as int)]] 0 <= j < grid@.len()
            implies !filled@[j / (s.width as int)] by {
            lemma_slot_of_quotient(j, s.width as int);
            vstd::arithmetic::div_mod::lemma_multiply_divide_lt(j, s.width as int, s.height as int);
        }
    }
    let mut received: u32 = 0;
    while received < s.height
        invariant
            received <= s.height,
            s.valid(),
            w == s.width,
            grid@.len() == s.width as int * s.height as int,
            filled@.len() == s.height,
            count_true(filled@) == received,
            forall|j: int|
                0 <= j < grid@.len() && filled@[j / (s.width as int)] ==> #[trigger] grid@[j]
                    == grid_spec(*s)[j],
            sink@ == old(sink)@ + Seq::new(
                received as nat,
                |i: int| ComputeEvent::Progress(i as u32, s.height),
            ),
        decreases s.height - received,
    {
        proof {
            lemma_concat_prefix(
                old(sink)@,
                Seq::new(received as nat, |i: int| ComputeEvent::Progress(i as u32, s.height)),
            );
        }
        match recv_row(&rx) {
            None => {
                return Err(ComputeError::WorkerFailed);
            },
            Some(message) => {
                proof {
                    use_type_invariant(&message);
                }
                if message.settings != *s {
                    return Err(ComputeError::WorkerFailed);
                }
                let ry = message.y;
                if filled[ry as usize] {
                    return Err(ComputeError::WorkerFailed);
                }
                let ghost pre_grid = grid@;
                let ghost pre_filled = filled@;
                proof {
                    lemma_count_true_update(filled@, ry as int);
                }
                filled[ry as usize] = true;
                proof {
                    assert(ry as int * w as int + w as int <= s.width as int * s.height as int
                        && ry as int * w as int + w as int <= usize::MAX as int)
                        by (nonlinear_arith)
                        requires
                            0 <= ry as int,
                            (ry as int) < s.height as int,
                            0 <= w as int,
                            w as int == s.width as int,
                            s.width as int * s.height as int <= usize::MAX as int,
                    ;
                }
                let base: usize = (ry as usize) * w;
                place_row(&mut grid, base, &message.row);
                proof {
                    let wi = s.width as int;
                    let gl = grid@.len() as int;
                    assert(message.row@.len() == wi);
                    assert forall|j: int|
                        0 <= j < gl && filled@[j / wi] implies #[trigger] grid@[j] == grid_spec(
                        *s,
                    )[j] by {
                        lemma_slot_of_quotient(j, wi);
                        vstd::arithmetic::div_mod::lemma_multiply_divide_lt(j, wi, s.height as int);
                        assert((ry as int + 1) * wi == ry as int * wi + wi) by (nonlinear_arith);
                        if j / wi == ry as int {
                            let i = j - ry as int * wi;
                            assert(0 <= i < wi);
                            assert(grid@[base as int + i] == message.row@[i]);
                            lemma_slot_index(j, wi, ry as int);
                            assert(grid_spec(*s)[j] == pixel_spec(*s, j % wi, j / wi));
                        } else {
                            assert(pre_filled[j / wi]);
                            assert(!(ry as int * wi <= j < ry as int * wi + wi)) by {
                                if ry as int * wi <= j < ry as int * wi + wi {
                                    lemma_slot_index(j, wi, ry as int);
                                }
                            }
                            assert(grid@[j] == pre_grid[j]);
                            assert(pre_grid[j] == grid_spec(*s)[j]);
                        }
                    }
                }
                sink.notify(ComputeEvent::Progress(received, s.height));
                proof {
                    assert(sink@ =~= old(sink)@ + Seq::new(
                        (received + 1) as nat,
                        |i: int| ComputeEvent::Progress(i as u32, s.height),
                    ));
                }
                received = received + 1;
            },
        }
    }
    proof {
        lemma_count_true_full(filled@);
        let wi = s.width as int;
        assert forall|j: int| 0 <= j < grid@.len() implies grid@[j] == grid_spec(*s)[j] by {
            lemma_slot_of_quotient(j, wi);
            assert(j / wi < s.height as int) by {
                vstd::arithmetic::div_mod::lemma_multiply_divide_lt(j, wi, s.height as int);
            }
            assert(filled@[j / wi]);
        }
        assert(grid@ =~= grid_spec(*s));
        assert(Seq::new(s.height as nat, |i: int| ComputeEvent::Progress(i as u32, s.height))
            =~= progress_trace(s.height));
    }
    Ok(grid)
}

/// The compute engine's public entry point.
pub struct Compute {}

impl Compute {
    /// Run one computation: map the viewport onto per-pixel coordinates,
    /// drive the selected backend over every row, and assemble the
    /// row-major grid.  Without a pool, rows are computed on the calling
    /// thread in increasing order; with a pool, one task per row is
    /// scattered onto it and the tagged results are gathered by index.
    /// Both modes return exactly `grid_spec`.  Exactly one `Start`,
    /// `height` `Progress` events and one `End` are notified, in that
    /// order.  A failed worker aborts the computation rather than
    /// returning a partially assembled grid.
    pub fn compute_set(
        thread_pool: Option<&ThreadPool>,
        sink: &mut ProgressSink,
        settings: &ComputeSettings,
    ) -> (r: Result<ComputedSet, ComputeError>)
        requires
            settings.valid(),
        ensures
            match r {
                Ok(set) => {
                    &&& set.width_spec() == settings.width
                    &&& set.height_spec() == settings.height
                    &&& set.data_spec() == Some(grid_spec(*settings))
                    &&& final(sink)@ == old(sink)@ + event_trace(settings.height)
                },
                Err(_) => old(sink)@.is_prefix_of(final(sink)@),
            },
            thread_pool is None ==> r is Ok,
    {
        sink.notify(ComputeEvent::Start);
        let data = match thread_pool {
            Some(pool) => {
                match compute_grid_parallel(pool, settings, sink) {
                    Ok(d) => d,
                    Err(e) => {
                        proof {
                            lemma_concat_prefix(old(sink)@, seq![ComputeEvent::Start]);
                            assert(old(sink)@ + seq![ComputeEvent::Start] =~= old(sink)@.push(
                                ComputeEvent::Start,
                            ));
                            lemma_prefix_trans(
                                old(sink)@,
                                old(sink)@.push(ComputeEvent::Start),
                                sink@,
                            );
                        }
                        return Err(e);
                    },
                }
            },
            None => compute_grid_sequential(settings, sink),
        };
        sink.notify(ComputeEvent::End);
        proof {
            assert(sink@ =~= old(sink)@ + event_trace(settings.height));
        }
        Ok(ComputedSet::new(settings.width, settings.height, data))
    }
}

} // verus!
