//! End-to-end tests of the escape-time engine, against a direct
//! re-implementation of the documented iteration rule.

use std::sync::mpsc::channel;

use threadpool::ThreadPool;

use mandelbrot::bounded::{check_point, Bound, BoundsChecker, BoundsSettings};
use mandelbrot::compute::{Compute, ComputeEngine, ComputeSettings, ComputedSet};
use mandelbrot::events::{ComputeEvent, ProgressSink};

/// Mantissa of value `v * 2^-bits` given as (numerator, shift).
fn fix(num: i128, f: u32) -> i128 {
    num << f
}

fn rsat(x: i128, f: u32) -> i128 {
    let b = 4i128 << f;
    if x > b {
        b
    } else if x < -b {
        -b
    } else {
        x
    }
}

fn rdivf(n: i128, d: i128) -> i128 {
    if n >= 0 {
        n / d
    } else {
        -((-n + d - 1) / d)
    }
}

fn rmul(a: i128, b: i128, f: u32) -> i128 {
    rsat(rdivf(a * b, 1i128 << f), f)
}

/// Reference scalar escape-time check: the documented rule, written
/// directly.
fn rcheck(cr: i128, ci: i128, f: u32, limit: u64) -> Bound {
    let mut zr = 0i128;
    let mut zi = 0i128;
    let mut iter = 0u64;
    while iter < limit {
        let nzr = rsat(rmul(zr, zr, f) - rmul(zi, zi, f) + cr, f);
        let nzi = rsat(2 * rmul(zr, zi, f) + ci, f);
        if rmul(nzr, nzr, f) + rmul(nzi, nzi, f) >= 4i128 << f {
            return Bound::Unbounded(iter);
        }
        zr = nzr;
        zi = nzi;
        iter += 1;
    }
    Bound::Bounded
}

/// Reference coordinate mapping: `center + scale * k / (2 * height)`.
fn rcoord(center: i128, scale: i128, k: i128, height: i128, f: u32) -> i128 {
    rsat(center + rdivf(scale * k, 2 * height), f)
}

fn settings(
    x: i128,
    y: i128,
    scale: i128,
    width: u32,
    height: u32,
    engine: ComputeEngine,
    limit: u64,
    precision: u32,
) -> ComputeSettings {
    ComputeSettings::new(x, y, scale, width, height, engine, BoundsSettings::new(limit, precision))
}

fn grid(set: &ComputedSet) -> Vec<Bound> {
    set.iter().expect("computed set has data").clone()
}

#[test]
fn known_point_origin_is_bounded() {
    for limit in [1u64, 2, 10, 1000] {
        assert_eq!(check_point(0, 0, 53, limit), Bound::Bounded);
        assert_eq!(check_point(0, 0, 24, limit), Bound::Bounded);
    }
}

#[test]
fn known_point_one_escapes_on_second_update() {
    assert_eq!(check_point(fix(1, 53), 0, 53, 50), Bound::Unbounded(1));
    assert_eq!(check_point(fix(1, 24), 0, 24, 50), Bound::Unbounded(1));
    // With only one update allowed, |z_1| = 1 has not yet reached the
    // threshold.
    assert_eq!(check_point(fix(1, 53), 0, 53, 1), Bound::Bounded);
    assert_eq!(check_point(fix(1, 53), 0, 53, 0), Bound::Bounded);
}

#[test]
fn known_point_minus_one_is_bounded() {
    assert_eq!(check_point(-fix(1, 53), 0, 53, 10000), Bound::Bounded);
    assert_eq!(check_point(-fix(1, 24), 0, 24, 10000), Bound::Bounded);
}

#[test]
fn far_point_escapes_immediately() {
    assert_eq!(check_point(fix(3, 53), 0, 53, 100), Bound::Unbounded(0));
    assert_eq!(check_point(0, -fix(4, 53), 53, 100), Bound::Unbounded(0));
}

#[test]
fn limit_zero_grid_is_bounded_everywhere() {
    let s = settings(-fix(1, 51), 0, fix(7, 51), 3, 2, ComputeEngine::Double, 0, 53);
    let mut sink = ProgressSink::none();
    let set = Compute::compute_set(None, &mut sink, &s).unwrap();
    let data = grid(&set);
    assert_eq!(data.len(), 6);
    for b in data {
        assert_eq!(b, Bound::Bounded);
    }
}

#[test]
fn scale_zero_gives_a_degenerate_uniform_grid() {
    // Scale 0 maps every pixel to the center coordinate: a valid, if
    // useless, input.
    let inside = settings(0, 0, 0, 4, 3, ComputeEngine::Double, 50, 53);
    let mut sink = ProgressSink::none();
    for b in grid(&Compute::compute_set(None, &mut sink, &inside).unwrap()) {
        assert_eq!(b, Bound::Bounded);
    }
    let outside = settings(fix(3, 53), 0, 0, 4, 3, ComputeEngine::Double, 50, 53);
    for b in grid(&Compute::compute_set(None, &mut sink, &outside).unwrap()) {
        assert_eq!(b, Bound::Unbounded(0));
    }
}

#[test]
fn scenario_double_4x2() {
    // width 4, height 2, center (-0.5, 0), scale 1.75, limit 50, Double.
    let x = -fix(1, 52);
    let y = 0;
    let scale = fix(7, 51);
    let s = settings(x, y, scale, 4, 2, ComputeEngine::Double, 50, 53);
    let mut sink = ProgressSink::none();
    let set = Compute::compute_set(None, &mut sink, &s).unwrap();
    assert_eq!(set.get_size(), (4, 2));
    let data = grid(&set);
    assert_eq!(data.len(), 8);
    for row in 0..2i128 {
        for col in 0..4i128 {
            let cx = rcoord(x, scale, 2 * col - 4, 2, 53);
            let cy = rcoord(y, scale, 2 * row - 2, 2, 53);
            let expected = rcheck(cx, cy, 53, 50);
            assert_eq!(data[(row * 4 + col) as usize], expected, "pixel ({col}, {row})");
        }
    }
    // Spot values: the leftmost column sits at x = -2.25 and escapes on
    // the first update; pixel (2, 1) is the center -0.5 + 0i, inside the
    // main cardioid.
    assert_eq!(data[0], Bound::Unbounded(0));
    assert_eq!(data[4], Bound::Unbounded(0));
    assert_eq!(data[4 + 2], Bound::Bounded);
}

#[test]
fn cross_backend_agreement_at_53_bits() {
    let x = -fix(1, 52);
    let scale = fix(7, 51);
    let mut grids: Vec<Vec<Bound>> = Vec::new();
    for engine in [ComputeEngine::Double, ComputeEngine::SimdF64x4, ComputeEngine::Precision] {
        let s = settings(x, 0, scale, 8, 4, engine, 60, 53);
        let mut sink = ProgressSink::none();
        let set = Compute::compute_set(None, &mut sink, &s).unwrap();
        grids.push(grid(&set));
    }
    assert_eq!(grids[0], grids[1]);
    assert_eq!(grids[0], grids[2]);
}

#[test]
fn cross_backend_agreement_at_24_bits() {
    let x = -fix(1, 23);
    let scale = fix(7, 22);
    let s1 = settings(x, 0, scale, 8, 4, ComputeEngine::Single, 60, 24);
    let s2 = settings(x, 0, scale, 8, 4, ComputeEngine::SimdF32x8, 60, 24);
    let mut sink = ProgressSink::none();
    let g1 = grid(&Compute::compute_set(None, &mut sink, &s1).unwrap());
    let g2 = grid(&Compute::compute_set(None, &mut sink, &s2).unwrap());
    assert_eq!(g1, g2);
}

#[test]
fn single_precision_divergence_is_confined_to_the_boundary() {
    // The 24-bit backends may disagree with the 53-bit ones near the
    // escape boundary; far from it they agree.  Robust samples: the
    // origin, a far-escaping point, and the period-two cycle.
    for (cx_num, cy_num, expect) in
        [(0i128, 0i128, Bound::Bounded), (3, 0, Bound::Unbounded(0)), (-1, 0, Bound::Bounded)] {
        let b24 = check_point(fix(cx_num, 24), fix(cy_num, 24), 24, 200);
        let b53 = check_point(fix(cx_num, 53), fix(cy_num, 53), 53, 200);
        assert_eq!(b24, expect);
        assert_eq!(b53, expect);
    }
}

#[test]
fn precision_backend_follows_requested_width() {
    // At 10 fractional bits the same reference rule applies, at that
    // width.
    let s = settings(-fix(1, 9), 0, fix(7, 8), 4, 2, ComputeEngine::Precision, 30, 10);
    let mut sink = ProgressSink::none();
    let data = grid(&Compute::compute_set(None, &mut sink, &s).unwrap());
    for row in 0..2i128 {
        for col in 0..4i128 {
            let cx = rcoord(-fix(1, 9), fix(7, 8), 2 * col - 4, 2, 10);
            let cy = rcoord(0, fix(7, 8), 2 * row - 2, 2, 10);
            assert_eq!(data[(row * 4 + col) as usize], rcheck(cx, cy, 10, 30));
        }
    }
}

#[test]
fn batch_width_consistency() {
    // One row, eight columns: the lane-batched backends must equal the
    // scalar backend of the same width, coordinate for coordinate.
    let x = -fix(1, 52);
    let scale = fix(7, 51);
    let mut sink = ProgressSink::none();
    let d = grid(
        &Compute::compute_set(None, &mut sink, &settings(x, 0, scale, 8, 1, ComputeEngine::Double, 75, 53)).unwrap(),
    );
    let v = grid(
        &Compute::compute_set(None, &mut sink, &settings(x, 0, scale, 8, 1, ComputeEngine::SimdF64x4, 75, 53)).unwrap(),
    );
    assert_eq!(d, v);
    let x24 = -fix(1, 23);
    let scale24 = fix(7, 22);
    let s1 = grid(
        &Compute::compute_set(None, &mut sink, &settings(x24, 0, scale24, 8, 1, ComputeEngine::Single, 75, 24)).unwrap(),
    );
    let v8 = grid(
        &Compute::compute_set(None, &mut sink, &settings(x24, 0, scale24, 8, 1, ComputeEngine::SimdF32x8, 75, 24)).unwrap(),
    );
    assert_eq!(s1, v8);
}

#[test]
fn sequential_and_parallel_grids_agree() {
    let x = -fix(1, 52);
    let scale = fix(7, 51);
    for engine in [
        ComputeEngine::Single,
        ComputeEngine::Double,
        ComputeEngine::SimdF32x8,
        ComputeEngine::SimdF64x4,
        ComputeEngine::Precision,
    ] {
        let s = settings(x, 0, scale, 8, 8, engine, 100, 53);
        let mut sink = ProgressSink::none();
        let sequential = grid(&Compute::compute_set(None, &mut sink, &s).unwrap());
        let pool = ThreadPool::new(4);
        let parallel = grid(&Compute::compute_set(Some(&pool), &mut sink, &s).unwrap());
        assert_eq!(sequential, parallel);
    }
}

#[test]
fn progress_events_sequential() {
    let s = settings(-fix(1, 52), 0, fix(7, 51), 4, 3, ComputeEngine::Double, 20, 53);
    let (tx, rx) = channel();
    let mut sink = ProgressSink::new(Some(tx));
    Compute::compute_set(None, &mut sink, &s).unwrap();
    let events: Vec<ComputeEvent> = rx.try_iter().collect();
    let mut expected = vec![ComputeEvent::Start];
    for i in 0..3 {
        expected.push(ComputeEvent::Progress(i, 3));
    }
    expected.push(ComputeEvent::End);
    assert_eq!(events, expected);
}

#[test]
fn progress_events_parallel() {
    let s = settings(-fix(1, 52), 0, fix(7, 51), 4, 5, ComputeEngine::Double, 20, 53);
    let (tx, rx) = channel();
    let mut sink = ProgressSink::new(Some(tx));
    let pool = ThreadPool::new(2);
    Compute::compute_set(Some(&pool), &mut sink, &s).unwrap();
    let events: Vec<ComputeEvent> = rx.try_iter().collect();
    assert_eq!(events.len(), 7);
    assert_eq!(events[0], ComputeEvent::Start);
    assert_eq!(events[6], ComputeEvent::End);
    for i in 0..5 {
        assert_eq!(events[1 + i as usize], ComputeEvent::Progress(i, 5));
    }
}

#[test]
fn absent_observer_is_a_no_op() {
    let s = settings(-fix(1, 52), 0, fix(7, 51), 4, 2, ComputeEngine::Double, 20, 53);
    let mut with_none = ProgressSink::new(None);
    let a = grid(&Compute::compute_set(None, &mut with_none, &s).unwrap());
    let (tx, rx) = channel();
    let mut with_some = ProgressSink::new(Some(tx));
    let b = grid(&Compute::compute_set(None, &mut with_some, &s).unwrap());
    drop(rx);
    assert_eq!(a, b);
}

#[test]
fn engine_index_round_trip() {
    let all = ComputeEngine::all();
    assert_eq!(all.len(), 5);
    for (i, e) in all.iter().enumerate() {
        assert_eq!(e.to_index(), i as u32);
        assert_eq!(ComputeEngine::from_index(i as u32), Some(*e));
    }
    assert_eq!(ComputeEngine::from_index(5), None);
    assert_eq!(ComputeEngine::from_index(99), None);
}

#[test]
fn batch_widths() {
    assert_eq!(ComputeEngine::Single.batch_width(), 1);
    assert_eq!(ComputeEngine::Double.batch_width(), 1);
    assert_eq!(ComputeEngine::SimdF32x8.batch_width(), 8);
    assert_eq!(ComputeEngine::SimdF64x4.batch_width(), 4);
    assert_eq!(ComputeEngine::Precision.batch_width(), 1);
}

#[test]
fn bounds_settings_carries_both_fields() {
    let b = BoundsSettings::new(250, 53);
    assert_eq!(b.limit, 250);
    assert_eq!(b.precision, 53);
}

#[test]
fn computed_set_accessors() {
    let set = ComputedSet::new(2, 1, vec![Bound::Bounded, Bound::Unbounded(3)]);
    assert_eq!(set.get_size(), (2, 1));
    assert_eq!(set.iter().unwrap().as_slice(), &[Bound::Bounded, Bound::Unbounded(3)]);
    let empty = ComputedSet::empty(64, 64);
    assert_eq!(empty.get_size(), (64, 64));
    assert!(empty.iter().is_none());
}
