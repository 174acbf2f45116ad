use niri::config::KeyboardPointer;
use niri::keyboard_pointer::{
    KeyboardFocus, KeyboardPointerKeyResult, KeyboardPointerState, PointerEffect, State,
    BTN_LEFT, BTN_RIGHT, KEY_ESCAPE, KEY_LOWER_A, KEY_LOWER_D, KEY_LOWER_K, KEY_LOWER_W,
    KEY_RETURN, KEY_SPACE, KEY_UPPER_S,
};

fn config() -> KeyboardPointer {
    KeyboardPointer::default()
}

fn state() -> State {
    State {
        keyboard_pointer: KeyboardPointerState::default(),
        keyboard_pointer_config: config(),
        pointer_visible: false,
        keyboard_pointer_timer: false,
        effects: Vec::new(),
    }
}

#[test]
fn toggling_switches_the_mode_on_and_off() {
    let mut s = state();
    s.toggle_keyboard_pointer();
    assert!(s.keyboard_pointer.active);
    assert!(s.pointer_visible);
    assert!(s.keyboard_pointer_timer);
    assert_eq!(s.keyboard_pointer.velocity, 350_000_000_000);
    assert_eq!(
        s.effects,
        vec![PointerEffect::StartTimer, PointerEffect::UpdateKeyboardFocus, PointerEffect::RedrawAll]
    );
    s.effects.clear();
    s.toggle_keyboard_pointer();
    assert_eq!(s.keyboard_pointer, KeyboardPointerState::default());
    assert!(!s.keyboard_pointer_timer);
    assert_eq!(
        s.effects,
        vec![PointerEffect::StopTimer, PointerEffect::UpdateKeyboardFocus, PointerEffect::RedrawAll]
    );
}

#[test]
fn activating_twice_changes_nothing() {
    let mut s = state();
    s.activate_keyboard_pointer();
    let n = s.effects.len();
    s.activate_keyboard_pointer();
    assert_eq!(s.effects.len(), n);
    s.deactivate_keyboard_pointer();
    let n = s.effects.len();
    s.deactivate_keyboard_pointer();
    assert_eq!(s.effects.len(), n);
}

#[test]
fn leaving_while_dragging_releases_the_button() {
    let mut s = state();
    s.activate_keyboard_pointer();
    s.effects.clear();
    assert_eq!(
        s.keyboard_pointer_handle_key(KEY_SPACE, true, false),
        KeyboardPointerKeyResult::ButtonPress(BTN_LEFT)
    );
    assert_eq!(
        s.keyboard_pointer_handle_key(KEY_ESCAPE, true, false),
        KeyboardPointerKeyResult::Exit
    );
    assert_eq!(
        s.effects,
        vec![
            PointerEffect::Button { button: BTN_LEFT, pressed: true },
            PointerEffect::Button { button: BTN_LEFT, pressed: false },
            PointerEffect::StopTimer,
            PointerEffect::UpdateKeyboardFocus,
            PointerEffect::RedrawAll,
        ]
    );
    assert!(!s.keyboard_pointer.active);
}

#[test]
fn return_clicks_and_shift_return_right_clicks() {
    let mut k = KeyboardPointerState::default();
    let c = config();
    assert_eq!(k.handle_key(KEY_RETURN, true, false, &c), KeyboardPointerKeyResult::Click(BTN_LEFT));
    assert_eq!(k.handle_key(KEY_RETURN, true, true, &c), KeyboardPointerKeyResult::Click(BTN_RIGHT));
    assert_eq!(k.handle_key(KEY_RETURN, false, false, &c), KeyboardPointerKeyResult::Continue);
}

#[test]
fn space_press_and_release_drag() {
    let mut k = KeyboardPointerState::default();
    let c = config();
    assert_eq!(k.handle_key(KEY_SPACE, true, false, &c), KeyboardPointerKeyResult::ButtonPress(BTN_LEFT));
    assert!(k.dragging);
    assert_eq!(k.handle_key(KEY_SPACE, true, false, &c), KeyboardPointerKeyResult::Continue);
    assert_eq!(k.handle_key(KEY_SPACE, false, false, &c), KeyboardPointerKeyResult::ButtonRelease(BTN_LEFT));
    assert!(!k.dragging);
    assert_eq!(k.handle_key(KEY_SPACE, false, false, &c), KeyboardPointerKeyResult::Continue);
}

#[test]
fn moving_accelerates_up_to_the_maximum_speed() {
    let mut k = KeyboardPointerState::default();
    let c = config();
    assert_eq!(k.tick(&c, 10), None);
    assert_eq!(k.velocity, 350_000_000_000);
    k.handle_key(KEY_LOWER_D, true, false, &c);
    assert!(k.right);
    // 350 px/s for 10 ms: 3.5 px.
    assert_eq!(k.tick(&c, 10), Some((1, 0, 3_500_000_000_000)));
    // Then 350 + 1400 * 0.01 = 364 px/s.
    assert_eq!(k.velocity, 364_000_000_000);
    for _ in 0..200 {
        k.tick(&c, 10);
    }
    assert_eq!(k.velocity, 1_200_000_000_000);
    k.handle_key(KEY_LOWER_W, true, false, &c);
    assert_eq!(k.tick(&c, 10), Some((1, -1, 3_500_000_000_000)));
    k.handle_key(KEY_LOWER_D, false, false, &c);
    k.handle_key(KEY_LOWER_W, false, false, &c);
    assert_eq!(k.tick(&c, 10), None);
    assert_eq!(k.velocity, 350_000_000_000);
}

#[test]
fn opposite_keys_cancel() {
    let mut k = KeyboardPointerState::default();
    let c = config();
    k.handle_key(KEY_LOWER_A, true, false, &c);
    k.handle_key(KEY_LOWER_D, true, false, &c);
    assert_eq!(k.tick(&c, 10), None);
    k.handle_key(KEY_UPPER_S, true, false, &c);
    assert_eq!(k.tick(&c, 10), Some((0, 1, 3_500_000_000_000)));
}

#[test]
fn scrolling_goes_at_the_configured_speed() {
    let mut k = KeyboardPointerState::default();
    let c = config();
    assert_eq!(k.scroll_tick(&c, 10), None);
    k.handle_key(KEY_LOWER_K, true, false, &c);
    assert_eq!(k.scroll_tick(&c, 10), Some((0, 1, 4_000_000_000_000)));
    assert_eq!(k.scroll_tick(&c, 25), Some((0, 1, 10_000_000_000_000)));
    let fast = KeyboardPointer { scroll_speed: 800_000_000, ..KeyboardPointer::default() };
    assert_eq!(k.scroll_tick(&fast, 10), Some((0, 1, 8_000_000_000_000)));
    let slow = KeyboardPointer { scroll_speed: 1_500_000, ..KeyboardPointer::default() };
    assert_eq!(k.scroll_tick(&slow, 10), Some((0, 1, 15_000_000_000)));
}

#[test]
fn a_tick_moves_and_scrolls_while_active() {
    let mut s = state();
    s.keyboard_pointer_tick();
    assert!(s.effects.is_empty());
    s.activate_keyboard_pointer();
    s.effects.clear();
    s.keyboard_pointer_handle_key(KEY_LOWER_A, true, false);
    s.keyboard_pointer_handle_key(KEY_LOWER_K, true, false);
    s.keyboard_pointer_tick();
    assert_eq!(
        s.effects,
        vec![
            PointerEffect::Move { dx: -1, dy: 0, distance: 3_500_000_000_000 },
            PointerEffect::Scroll { dx: 0, dy: 1, distance: 4_000_000_000_000 },
        ]
    );
}

#[test]
fn keyboard_focus_kind() {
    assert!(KeyboardFocus::KeyboardPointer.is_keyboard_pointer());
    assert!(!KeyboardFocus::Layout.is_keyboard_pointer());
    assert!(!KeyboardFocus::Overview.is_keyboard_pointer());
}
