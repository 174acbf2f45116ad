use niri::config::{
    clamp_i64, CenterFocusedColumn, Clipboard, ClipboardPart, ConfigNotification,
    ConfigNotificationPart, Cursor, CursorPart, HotkeyOverlay, HotkeyOverlayPart, KeyboardPointer,
    KeyboardPointerPart, Overview, OverviewPart, ScreenshotPath, StackPosition, Struts, ViewportZoom, ViewportZoomPart,
    XwaylandSatellite, XwaylandSatellitePart,
};

#[test]
fn clamp_keeps_values_in_range() {
    assert_eq!(clamp_i64(5, 1, 10), 5);
    assert_eq!(clamp_i64(-5, 1, 10), 1);
    assert_eq!(clamp_i64(50, 1, 10), 10);
}

#[test]
fn defaults() {
    assert_eq!(StackPosition::default(), StackPosition::Left);
    assert_eq!(CenterFocusedColumn::default(), CenterFocusedColumn::Never);
    let s = Struts::default();
    assert_eq!((s.left, s.right, s.top, s.bottom), (0, 0, 0, 0));
    let c = Cursor::default();
    assert_eq!(c.xcursor_theme, "default");
    assert_eq!(c.xcursor_size, 24);
    assert_eq!(
        ScreenshotPath::default().0.as_deref(),
        Some("~/Pictures/Screenshots/Screenshot from %Y-%m-%d %H-%M-%S.png")
    );
    assert_eq!(XwaylandSatellite::default().path, "xwayland-satellite");
}

#[test]
fn cursor_merge_replaces_given_values() {
    let mut c = Cursor::default();
    c.merge_with(&CursorPart {
        xcursor_theme: Some("Adwaita".to_owned()),
        xcursor_size: None,
        hide_when_typing: Some(true),
        hide_after_inactive_ms: Some(500),
    });
    assert_eq!(c.xcursor_theme, "Adwaita");
    assert_eq!(c.xcursor_size, 24);
    assert!(c.hide_when_typing);
    assert_eq!(c.hide_after_inactive_ms, Some(500));
}

#[test]
fn flag_sections_merge() {
    let mut h = HotkeyOverlay::default();
    h.merge_with(&HotkeyOverlayPart { skip_at_startup: Some(true), hide_not_bound: None });
    assert!(h.skip_at_startup && !h.hide_not_bound);
    let mut n = ConfigNotification::default();
    n.merge_with(&ConfigNotificationPart { disable_failed: Some(true) });
    assert!(n.disable_failed);
    let mut c = Clipboard::default();
    c.merge_with(&ClipboardPart { disable_primary: Some(true) });
    assert!(c.disable_primary);
}

#[test]
fn overview_zoom_defaults_to_half_and_merges() {
    let mut o = Overview::default();
    assert_eq!(o.zoom, 500_000);
    o.merge_with(&OverviewPart { zoom: None });
    assert_eq!(o.zoom, 500_000);
    o.merge_with(&OverviewPart { zoom: Some(250_000) });
    assert_eq!(o.zoom, 250_000);
}

#[test]
fn keyboard_pointer_merge_raises_the_maximum_speed() {
    let mut k = KeyboardPointer::default();
    k.merge_with(&KeyboardPointerPart {
        speed: Some(2000 * 1_000_000),
        max_speed: None,
        acceleration: Some(0),
        scroll_speed: Some(-5),
    });
    assert_eq!(k.speed, 2_000_000_000);
    assert_eq!(k.max_speed, 2_000_000_000);
    assert_eq!(k.acceleration, 0);
    assert_eq!(k.scroll_speed, 400_000_000);
}

#[test]
fn viewport_zoom_merge_orders_the_scales() {
    let mut z = ViewportZoom::default();
    z.merge_with(&ViewportZoomPart {
        default_scale: Some(80 * 1_000_000),
        min_scale: Some(2 * 1_000_000),
        max_scale: Some(1_000_000),
        step: None,
        wheel_step: Some(200_000),
        edge_pan: Some(true),
        edge_margin: Some(3),
        dead_zone_width: None,
        dead_zone_height: None,
    });
    assert_eq!(z.min_scale, 2_000_000);
    assert_eq!(z.max_scale, 2_000_000);
    assert_eq!(z.default_scale, 2_000_000);
    assert_eq!(z.step, 100_000);
    assert_eq!(z.wheel_step, 200_000);
    assert!(z.edge_pan);
}

#[test]
fn xwayland_satellite_on_wins_over_off() {
    let mut x = XwaylandSatellite::default();
    x.merge_with(&XwaylandSatellitePart { off: true, on: false, path: None });
    assert!(x.off);
    x.merge_with(&XwaylandSatellitePart { off: true, on: true, path: Some("/usr/bin/xs".to_owned()) });
    assert!(!x.off);
    assert_eq!(x.path, "/usr/bin/xs");
}
