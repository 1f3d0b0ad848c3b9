//! Tests of the interactive viewport state.

use mandelbrot::compute::ComputeEngine;
use mandelbrot::viewport::{AppSettings, ZoomState};

#[test]
fn app_settings_defaults() {
    let s = AppSettings::new();
    assert_eq!(s.precision, 53);
    assert_eq!(s.res_width, 1600);
    assert_eq!(s.res_height, 900);
    assert_eq!(s.iterations, 1000);
    assert_eq!(s.engine, ComputeEngine::SimdF64x4);
}

#[test]
fn zoom_state_home_view() {
    let s = AppSettings::new();
    let z = ZoomState::new(&s);
    // center (-1/2, 0), scale 7/4, at 53 fractional bits
    assert_eq!(z.get_x(), -(1i128 << 52));
    assert_eq!(z.get_y(), 0);
    assert_eq!(z.get_scale(), 7i128 << 51);
}

#[test]
fn zoom_scale_halves_exactly() {
    let s = AppSettings::new();
    let mut z = ZoomState::new(&s);
    // factor 1/2
    z.zoom_scale(1i128 << 52, &s);
    assert_eq!(z.get_scale(), 7i128 << 50);
    assert_eq!(z.get_x(), -(1i128 << 52));
    assert_eq!(z.get_y(), 0);
}

#[test]
fn zoom_position_at_window_center_keeps_position() {
    let s = AppSettings::new();
    let mut z = ZoomState::new(&s);
    let half = 1i128 << 52;  // mouse coordinate 0.5
    let one = 1i128 << 53;  // factor 1.0
    z.zoom_position(half, half, one, &s);
    assert_eq!(z.get_x(), -(1i128 << 52));
    assert_eq!(z.get_y(), 0);
    assert_eq!(z.get_scale(), 7i128 << 51);
}

#[test]
fn drag_symmetric_around_center_only_rescales() {
    let s = AppSettings::new();
    let mut z = ZoomState::new(&s);
    let quarter = 1i128 << 51;  // 0.25
    let three_quarters = 3i128 << 51;  // 0.75
    z.set_by_dragging(quarter, quarter, three_quarters, three_quarters, &s);
    // The dragged rectangle is centered, so the position is unchanged;
    // its vertical extent is 1/2, so the scale halves: 1.75 / 2.
    assert_eq!(z.get_x(), -(1i128 << 52));
    assert_eq!(z.get_y(), 0);
    assert_eq!(z.get_scale(), 7i128 << 50);
}

#[test]
fn zoom_position_moves_toward_pointer() {
    let s = AppSettings::new();
    let mut z = ZoomState::new(&s);
    let one = 1i128 << 53;
    // Point at the right edge, keeping the scale: x moves right by
    // 0.5 * scale * ratio = 0.5 * 1.75 * (16/9), y is unchanged.
    z.zoom_position(one, 1i128 << 52, one, &s);
    assert!(z.get_x() > -(1i128 << 52));
    assert_eq!(z.get_y(), 0);
    assert_eq!(z.get_scale(), 7i128 << 51);
}
