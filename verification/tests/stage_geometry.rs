use niri::stage::geometry::{resolve_stage_window_size, WindowSize};

/// A length in logical pixels, in millionths.
fn px(v: f64) -> i64 {
    (v * 1e6).round() as i64
}

#[test]
fn resolve_stage_window_size_keeps_saved_width() {
    let saved = WindowSize { w: 1200, h: 800 };
    let size = resolve_stage_window_size(Some(saved), px(1800.), px(1080.));
    assert_eq!(size.w, 1200);
}

#[test]
fn resolve_stage_window_size_defaults_to_available_size() {
    let size = resolve_stage_window_size(None, px(1800.), px(900.));
    assert_eq!(size.w, 1800);
    assert_eq!(size.h, 900);
}

#[test]
fn resolve_stage_window_size_clamps_saved_height() {
    let saved = WindowSize { w: 1200, h: 2000 };
    let size = resolve_stage_window_size(Some(saved), px(1800.), px(900.));
    assert_eq!(size.w, 1200);
    assert_eq!(size.h, 900);
}

#[test]
fn fractional_areas_round_half_away_from_zero() {
    let size = resolve_stage_window_size(None, px(1799.5), px(899.4));
    assert_eq!(size, WindowSize { w: 1800, h: 899 });
    let size = resolve_stage_window_size(Some(WindowSize { w: 5000, h: 10 }), px(640.5), px(480.));
    assert_eq!(size, WindowSize { w: 641, h: 10 });
}

#[test]
fn sizes_are_at_least_one_pixel() {
    let size = resolve_stage_window_size(None, px(0.2), px(-30.));
    assert_eq!(size, WindowSize { w: 1, h: 1 });
    let size = resolve_stage_window_size(Some(WindowSize { w: 0, h: -5 }), px(100.), px(100.));
    assert_eq!(size, WindowSize { w: 1, h: 1 });
}
