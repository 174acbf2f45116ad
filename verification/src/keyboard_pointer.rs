//! Keyboard-driven pointer control (warpd-like normal mode): which keys move, scroll, click
//! and drag, and how fast the pointer goes.
//!
//! Keys are X keysym codes. Pointer speeds follow [`KeyboardPointer`]: the state holds the
//! current speed in nano-pixels per second, so that accelerating for a whole number of
//! milliseconds stays exact; distances come back in pico-pixels.

use vstd::prelude::*;
use crate::config::{KeyboardPointer, UNIT};

verus! {

pub const KEY_ESCAPE: u32 = 0xff1b;
pub const KEY_RETURN: u32 = 0xff0d;
pub const KEY_SPACE: u32 = 0x0020;
pub const KEY_LOWER_A: u32 = 0x0061;
pub const KEY_UPPER_A: u32 = 0x0041;
pub const KEY_LOWER_D: u32 = 0x0064;
pub const KEY_UPPER_D: u32 = 0x0044;
pub const KEY_LOWER_W: u32 = 0x0077;
pub const KEY_UPPER_W: u32 = 0x0057;
pub const KEY_LOWER_S: u32 = 0x0073;
pub const KEY_UPPER_S: u32 = 0x0053;
pub const KEY_LOWER_J: u32 = 0x006a;
pub const KEY_UPPER_J: u32 = 0x004a;
pub const KEY_LOWER_L: u32 = 0x006c;
pub const KEY_UPPER_L: u32 = 0x004c;
pub const KEY_LOWER_I: u32 = 0x0069;
pub const KEY_UPPER_I: u32 = 0x0049;
pub const KEY_LOWER_K: u32 = 0x006b;
pub const KEY_UPPER_K: u32 = 0x004b;

/// Left mouse button (evdev code).
pub const BTN_LEFT: u32 = 0x110;
/// Right mouse button (evdev code).
pub const BTN_RIGHT: u32 = 0x111;

/// Timer period of the pointer motion (milliseconds).
pub const TICK_MS: u64 = 10;

#[derive(Debug, Clone, Copy, PartialEq, Eq, Structural)]
pub enum KeyboardPointerKeyResult {
    Continue,
    Exit,
    Click(u32),
    ButtonPress(u32),
    ButtonRelease(u32),
}

#[derive(Debug, Clone, Copy, PartialEq, Eq, Structural)]
pub struct KeyboardPointerState {
    pub active: bool,
    pub left: bool,
    pub right: bool,
    pub up: bool,
    pub down: bool,
    pub scroll_left: bool,
    pub scroll_right: bool,
    pub scroll_up: bool,
    pub scroll_down: bool,
    pub dragging: bool,
    /// Current pointer speed, in nano-pixels per second.
    pub velocity: i64,
}

/// What toggling the mode did.
#[derive(Debug, Clone, Copy, PartialEq, Eq, Structural)]
pub enum KeyboardPointerToggle {
    /// The mode turned on: show the pointer, start the motion timer, refocus, redraw.
    Activated,
    /// The mode turned off: release the left button when a drag was held, stop the timer,
    /// refocus, redraw.
    Deactivated { release_drag: bool },
}

/// The largest speed a valid configuration allows, in nano-pixels per second.
pub open spec fn max_velocity() -> int {
    10_000 * UNIT * 1000
}

/// The configuration values lie in the ranges the configuration accepts.
pub open spec fn config_ok(c: KeyboardPointer) -> bool {
    &&& 0 <= c.speed <= 10_000 * UNIT
    &&& 0 <= c.max_speed <= 10_000 * UNIT
    &&& 0 <= c.acceleration <= 100_000 * UNIT
    &&& 0 <= c.scroll_speed <= 10_000 * UNIT
}

/// How far scrolling goes in `dt_ms` milliseconds, in pico-pixels: `scroll_speed` is in
/// millionths of a logical pixel per second.
pub open spec fn scroll_distance(c: KeyboardPointer, dt_ms: int) -> int {
    c.scroll_speed * dt_ms * 1000
}

pub open spec fn idle_state() -> KeyboardPointerState {
    KeyboardPointerState {
        active: false,
        left: false,
        right: false,
        up: false,
        down: false,
        scroll_left: false,
        scroll_right: false,
        scroll_up: false,
        scroll_down: false,
        dragging: false,
        velocity: 0,
    }
}

/// The state after a key press (`pressed`) or release: the flags that the key drives.
pub open spec fn set_key_flag(s: KeyboardPointerState, key: u32, pressed: bool) -> KeyboardPointerState {
    if key == KEY_LOWER_A || key == KEY_UPPER_A {
        KeyboardPointerState { left: pressed, ..s }
    } else if key == KEY_LOWER_D || key == KEY_UPPER_D {
        KeyboardPointerState { right: pressed, ..s }
    } else if key == KEY_LOWER_W || key == KEY_UPPER_W {
        KeyboardPointerState { up: pressed, ..s }
    } else if key == KEY_LOWER_S || key == KEY_UPPER_S {
        KeyboardPointerState { down: pressed, ..s }
    } else if key == KEY_LOWER_J || key == KEY_UPPER_J {
        KeyboardPointerState { scroll_left: pressed, ..s }
    } else if key == KEY_LOWER_L || key == KEY_UPPER_L {
        KeyboardPointerState { scroll_right: pressed, ..s }
    } else if key == KEY_LOWER_I || key == KEY_UPPER_I {
        KeyboardPointerState { scroll_up: pressed, ..s }
    } else if key == KEY_LOWER_K || key == KEY_UPPER_K {
        KeyboardPointerState { scroll_down: pressed, ..s }
    } else {
        s
    }
}

pub open spec fn moving(s: KeyboardPointerState) -> bool {
    s.left || s.right || s.up || s.down
}

/// A key event in pointer mode: the state after and the result.
pub open spec fn handle_key_spec(
    s: KeyboardPointerState,
    key: u32,
    pressed: bool,
    shift: bool,
    config: KeyboardPointer,
) -> (KeyboardPointerState, KeyboardPointerKeyResult) {
    if key == KEY_ESCAPE && pressed {
        (s, KeyboardPointerKeyResult::Exit)
    } else if pressed && key == KEY_RETURN {
        (s, KeyboardPointerKeyResult::Click(if shift { BTN_RIGHT } else { BTN_LEFT }))
    } else if pressed && key == KEY_SPACE && !s.dragging {
        (KeyboardPointerState { dragging: true, ..s }, KeyboardPointerKeyResult::ButtonPress(BTN_LEFT))
    } else if !pressed && key == KEY_SPACE && s.dragging {
        (
            KeyboardPointerState { dragging: false, ..s },
            KeyboardPointerKeyResult::ButtonRelease(BTN_LEFT),
        )
    } else {
        let s1 = set_key_flag(s, key, pressed);
        let s2 = if pressed && moving(s1) {
            KeyboardPointerState { velocity: (config.speed * 1000) as i64, ..s1 }
        } else {
            s1
        };
        (s2, KeyboardPointerKeyResult::Continue)
    }
}

/// The direction along one axis that two opposite keys give.
pub open spec fn axis(neg: bool, pos: bool) -> int {
    (if pos { 1int } else { 0int }) - (if neg { 1int } else { 0int })
}

/// Switching the mode: off from on (releasing a held drag), on from off with the initial
/// speed.
pub open spec fn toggled(s: KeyboardPointerState, config: KeyboardPointer) -> (
    KeyboardPointerState,
    KeyboardPointerToggle,
) {
    if s.active {
        (idle_state(), KeyboardPointerToggle::Deactivated { release_drag: s.dragging })
    } else {
        (
            KeyboardPointerState {
                active: true,
                velocity: (config.speed * 1000) as i64,
                ..idle_state()
            },
            KeyboardPointerToggle::Activated,
        )
    }
}

/// Switching the mode on and then off again leaves it off and idle, with no drag to release.
pub proof fn law_toggle_twice(s: KeyboardPointerState, config: KeyboardPointer)
    requires
        !s.active,
    ensures
        toggled(s, config).1 == KeyboardPointerToggle::Activated,
        toggled(toggled(s, config).0, config) == (
            idle_state(),
            KeyboardPointerToggle::Deactivated { release_drag: false },
        ),
{
}

/// Pressing and then releasing space starts a drag (left button pressed) and ends it (left
/// button released), leaving the state as it was.
pub proof fn law_drag_press_release(s: KeyboardPointerState, shift: bool, config: KeyboardPointer)
    requires
        !s.dragging,
    ensures
        ({
            let (s1, r1) = handle_key_spec(s, KEY_SPACE, true, shift, config);
            let (s2, r2) = handle_key_spec(s1, KEY_SPACE, false, shift, config);
            &&& r1 == KeyboardPointerKeyResult::ButtonPress(BTN_LEFT)
            &&& r2 == KeyboardPointerKeyResult::ButtonRelease(BTN_LEFT)
            &&& s2 == s
        }),
{
}

/// Escape pressed always leaves the mode and changes nothing else.
pub proof fn law_escape_exits(s: KeyboardPointerState, shift: bool, config: KeyboardPointer)
    ensures
        handle_key_spec(s, KEY_ESCAPE, true, shift, config) == (s, KeyboardPointerKeyResult::Exit),
{
}

/// The direction keys, either case: A moves left, D right, W up, S down; J scrolls left, L
/// right, I up, K down. A press sets that key's own direction, a release clears it, and every
/// other direction stays as it was.
#[verifier::spinoff_prover]
pub proof fn law_direction_keys(
    s: KeyboardPointerState,
    key: u32,
    pressed: bool,
    shift: bool,
    config: KeyboardPointer,
)
    ensures
        (key == KEY_LOWER_A || key == KEY_UPPER_A) ==> ({
            let r = handle_key_spec(s, key, pressed, shift, config);
            r.1 == KeyboardPointerKeyResult::Continue && r.0.left == pressed && r.0.right == s.right && r.0.up == s.up && r.0.down == s.down && r.0.scroll_left == s.scroll_left && r.0.scroll_right == s.scroll_right && r.0.scroll_up == s.scroll_up && r.0.scroll_down == s.scroll_down
        }),
        (key == KEY_LOWER_D || key == KEY_UPPER_D) ==> ({
            let r = handle_key_spec(s, key, pressed, shift, config);
            r.1 == KeyboardPointerKeyResult::Continue && r.0.left == s.left && r.0.right == pressed && r.0.up == s.up && r.0.down == s.down && r.0.scroll_left == s.scroll_left && r.0.scroll_right == s.scroll_right && r.0.scroll_up == s.scroll_up && r.0.scroll_down == s.scroll_down
        }),
        (key == KEY_LOWER_W || key == KEY_UPPER_W) ==> ({
            let r = handle_key_spec(s, key, pressed, shift, config);
            r.1 == KeyboardPointerKeyResult::Continue && r.0.left == s.left && r.0.right == s.right && r.0.up == pressed && r.0.down == s.down && r.0.scroll_left == s.scroll_left && r.0.scroll_right == s.scroll_right && r.0.scroll_up == s.scroll_up && r.0.scroll_down == s.scroll_down
        }),
        (key == KEY_LOWER_S || key == KEY_UPPER_S) ==> ({
            let r = handle_key_spec(s, key, pressed, shift, config);
            r.1 == KeyboardPointerKeyResult::Continue && r.0.left == s.left && r.0.right == s.right && r.0.up == s.up && r.0.down == pressed && r.0.scroll_left == s.scroll_left && r.0.scroll_right == s.scroll_right && r.0.scroll_up == s.scroll_up && r.0.scroll_down == s.scroll_down
        }),
        (key == KEY_LOWER_J || key == KEY_UPPER_J) ==> ({
            let r = handle_key_spec(s, key, pressed, shift, config);
            r.1 == KeyboardPointerKeyResult::Continue && r.0.left == s.left && r.0.right == s.right && r.0.up == s.up && r.0.down == s.down && r.0.scroll_left == pressed && r.0.scroll_right == s.scroll_right && r.0.scroll_up == s.scroll_up && r.0.scroll_down == s.scroll_down
        }),
        (key == KEY_LOWER_L || key == KEY_UPPER_L) ==> ({
            let r = handle_key_spec(s, key, pressed, shift, config);
            r.1 == KeyboardPointerKeyResult::Continue && r.0.left == s.left && r.0.right == s.right && r.0.up == s.up && r.0.down == s.down && r.0.scroll_left == s.scroll_left && r.0.scroll_right == pressed && r.0.scroll_up == s.scroll_up && r.0.scroll_down == s.scroll_down
        }),
        (key == KEY_LOWER_I || key == KEY_UPPER_I) ==> ({
            let r = handle_key_spec(s, key, pressed, shift, config);
            r.1 == KeyboardPointerKeyResult::Continue && r.0.left == s.left && r.0.right == s.right && r.0.up == s.up && r.0.down == s.down && r.0.scroll_left == s.scroll_left && r.0.scroll_right == s.scroll_right && r.0.scroll_up == pressed && r.0.scroll_down == s.scroll_down
        }),
        (key == KEY_LOWER_K || key == KEY_UPPER_K) ==> ({
            let r = handle_key_spec(s, key, pressed, shift, config);
            r.1 == KeyboardPointerKeyResult::Continue && r.0.left == s.left && r.0.right == s.right && r.0.up == s.up && r.0.down == s.down && r.0.scroll_left == s.scroll_left && r.0.scroll_right == s.scroll_right && r.0.scroll_up == s.scroll_up && r.0.scroll_down == pressed
        }),
{
}

/// A key press other than Escape, Return and Space that leaves a movement key held starts the
/// pointer again at the configured initial speed; any other such key event keeps the speed.
pub proof fn law_movement_press_sets_initial_speed(
    s: KeyboardPointerState,
    key: u32,
    pressed: bool,
    shift: bool,
    config: KeyboardPointer,
)
    requires
        config_ok(config),
        key != KEY_ESCAPE,
        key != KEY_RETURN,
        key != KEY_SPACE,
    ensures
        ({
            let r = handle_key_spec(s, key, pressed, shift, config).0;
            let held = r.left || r.right || r.up || r.down;
            &&& pressed && held ==> r.velocity == config.speed * 1000
            &&& !(pressed && held) ==> r.velocity == s.velocity
        }),
{
}

/// With no scroll key held, pressing J scrolls towards the left, L towards the right, I
/// upwards and K downwards, each along one axis only.
pub proof fn law_scroll_key_direction(s: KeyboardPointerState, shift: bool, config: KeyboardPointer)
    requires
        !s.scroll_left,
        !s.scroll_right,
        !s.scroll_up,
        !s.scroll_down,
    ensures
        ({
            let r = handle_key_spec(s, KEY_LOWER_J, true, shift, config).0;
            axis(r.scroll_left, r.scroll_right) == -1 && axis(r.scroll_up, r.scroll_down) == 0
        }),
        ({
            let r = handle_key_spec(s, KEY_LOWER_L, true, shift, config).0;
            axis(r.scroll_left, r.scroll_right) == 1 && axis(r.scroll_up, r.scroll_down) == 0
        }),
        ({
            let r = handle_key_spec(s, KEY_LOWER_I, true, shift, config).0;
            axis(r.scroll_left, r.scroll_right) == 0 && axis(r.scroll_up, r.scroll_down) == -1
        }),
        ({
            let r = handle_key_spec(s, KEY_LOWER_K, true, shift, config).0;
            axis(r.scroll_left, r.scroll_right) == 0 && axis(r.scroll_up, r.scroll_down) == 1
        }),
{
}

/// A key event keeps the speed within what a valid configuration allows.
pub proof fn law_key_keeps_speed_bounded(
    s: KeyboardPointerState,
    key: u32,
    pressed: bool,
    shift: bool,
    config: KeyboardPointer,
)
    requires
        config_ok(config),
        0 <= s.velocity <= max_velocity(),
    ensures
        0 <= handle_key_spec(s, key, pressed, shift, config).0.velocity <= max_velocity(),
{
}

impl KeyboardPointerState {
    pub fn default() -> (r: Self)
        ensures
            r == idle_state(),
    {
        KeyboardPointerState {
            active: false,
            left: false,
            right: false,
            up: false,
            down: false,
            scroll_left: false,
            scroll_right: false,
            scroll_up: false,
            scroll_down: false,
            dragging: false,
            velocity: 0,
        }
    }

    fn set_flag(&mut self, key: u32, pressed: bool)
        ensures
            *final(self) == set_key_flag(*old(self), key, pressed),
    {
        if key == KEY_LOWER_A || key == KEY_UPPER_A {
            self.left = pressed;
        } else if key == KEY_LOWER_D || key == KEY_UPPER_D {
            self.right = pressed;
        } else if key == KEY_LOWER_W || key == KEY_UPPER_W {
            self.up = pressed;
        } else if key == KEY_LOWER_S || key == KEY_UPPER_S {
            self.down = pressed;
        } else if key == KEY_LOWER_J || key == KEY_UPPER_J {
            self.scroll_left = pressed;
        } else if key == KEY_LOWER_L || key == KEY_UPPER_L {
            self.scroll_right = pressed;
        } else if key == KEY_LOWER_I || key == KEY_UPPER_I {
            self.scroll_up = pressed;
        } else if key == KEY_LOWER_K || key == KEY_UPPER_K {
            self.scroll_down = pressed;
        }
    }

    /// A key event while the mode is on (`key` an X keysym, `shift` whether Shift is held).
    pub fn handle_key(&mut self, key: u32, pressed: bool, shift: bool, config: &KeyboardPointer) -> (r:
        KeyboardPointerKeyResult)
        requires
            config_ok(*config),
        ensures
            (*final(self), r) == handle_key_spec(*old(self), key, pressed, shift, *config),
    {
        if key == KEY_ESCAPE && pressed {
            return KeyboardPointerKeyResult::Exit;
        }
        if pressed {
            if key == KEY_RETURN {
                if shift {
                    return KeyboardPointerKeyResult::Click(BTN_RIGHT);
                }
                return KeyboardPointerKeyResult::Click(BTN_LEFT);
            }
            if key == KEY_SPACE && !self.dragging {
                self.dragging = true;
                return KeyboardPointerKeyResult::ButtonPress(BTN_LEFT);
            }
        } else if key == KEY_SPACE && self.dragging {
            self.dragging = false;
            return KeyboardPointerKeyResult::ButtonRelease(BTN_LEFT);
        }
        self.set_flag(key, pressed);
        if pressed && (self.left || self.right || self.up || self.down) {
            self.velocity = config.speed * 1000;
        }
        KeyboardPointerKeyResult::Continue
    }

    /// Pointer motion for a tick of `dt_ms` milliseconds: the direction on each axis and the
    /// distance along it in pico-pixels, when a movement key is held. The speed then grows by
    /// the acceleration, up to the maximum speed; with no movement key held it drops back to
    /// the initial speed.
    pub fn tick(&mut self, config: &KeyboardPointer, dt_ms: u64) -> (r: Option<(i8, i8, u128)>)
        requires
            config_ok(*config),
            0 <= old(self).velocity <= max_velocity(),
        ensures
            0 <= final(self).velocity <= max_velocity(),
            axis(old(self).left, old(self).right) == 0 && axis(old(self).up, old(self).down) == 0
                ==> r is None && *final(self) == (KeyboardPointerState {
                velocity: (config.speed * 1000) as i64,
                ..*old(self)
            }),
            !(axis(old(self).left, old(self).right) == 0 && axis(old(self).up, old(self).down)
                == 0) ==> r == Some(
                (
                    axis(old(self).left, old(self).right) as i8,
                    axis(old(self).up, old(self).down) as i8,
                    (old(self).velocity * dt_ms) as u128,
                ),
            ) && *final(self) == (KeyboardPointerState {
                velocity: if old(self).velocity + config.acceleration * dt_ms > config.max_speed
                    * 1000 {
                    (config.max_speed * 1000) as i64
                } else {
                    (old(self).velocity + config.acceleration * dt_ms) as i64
                },
                ..*old(self)
            }),
    {
        let dx: i8 = (if self.right { 1i8 } else { 0i8 }) - (if self.left { 1i8 } else { 0i8 });
        let dy: i8 = (if self.down { 1i8 } else { 0i8 }) - (if self.up { 1i8 } else { 0i8 });
        if dx == 0 && dy == 0 {
            self.velocity = config.speed * 1000;
            return None;
        }
        let v = self.velocity as u128;
        let a = config.acceleration as u128;
        let t = dt_ms as u128;
        assert(v * t <= 10_000_000_000_000 * 0x1_0000_0000_0000_0000) by (nonlinear_arith)
            requires
                v <= 10_000_000_000_000,
                t < 0x1_0000_0000_0000_0000,
        ;
        assert(a * t <= 100_000_000_000 * 0x1_0000_0000_0000_0000) by (nonlinear_arith)
            requires
                a <= 100_000_000_000,
                t < 0x1_0000_0000_0000_0000,
        ;
        let step: u128 = self.velocity as u128 * dt_ms as u128;
        let grown: u128 = self.velocity as u128 + config.acceleration as u128 * dt_ms as u128;
        let cap: u128 = config.max_speed as u128 * 1000;
        if grown > cap {
            self.velocity = config.max_speed * 1000;
        } else {
            self.velocity = grown as i64;
        }
        Some((dx, dy, step))
    }

    /// Scrolling for a tick of `dt_ms` milliseconds: the direction on each axis and the distance
    /// that the configured scroll speed covers in that time, in pico-pixels, when a scroll key
    /// is held.
    pub fn scroll_tick(&self, config: &KeyboardPointer, dt_ms: u64) -> (r: Option<(i8, i8, u128)>)
        requires
            config_ok(*config),
        ensures
            axis(self.scroll_left, self.scroll_right) == 0 && axis(self.scroll_up, self.scroll_down)
                == 0 ==> r is None,
            !(axis(self.scroll_left, self.scroll_right) == 0 && axis(
                self.scroll_up,
                self.scroll_down,
            ) == 0) ==> r == Some(
                (
                    axis(self.scroll_left, self.scroll_right) as i8,
                    axis(self.scroll_up, self.scroll_down) as i8,
                    scroll_distance(*config, dt_ms as int) as u128,
                ),
            ),
    {
        let dx: i8 = (if self.scroll_right { 1i8 } else { 0i8 }) - (if self.scroll_left { 1i8 } else { 0i8 });
        let dy: i8 = (if self.scroll_down { 1i8 } else { 0i8 }) - (if self.scroll_up { 1i8 } else { 0i8 });
        if dx == 0 && dy == 0 {
            return None;
        }
        let speed: u128 = config.scroll_speed as u128;
        let t: u128 = dt_ms as u128;
        assert(speed * t <= 10_000_000_000 * 0x1_0000_0000_0000_0000) by (nonlinear_arith)
            requires
                speed <= 10_000_000_000,
                t < 0x1_0000_0000_0000_0000,
        ;
        Some((dx, dy, speed * t * 1000))
    }

    /// Turns the mode on; tells whether it was off.
    pub fn activate_keyboard_pointer(&mut self, config: &KeyboardPointer) -> (r: bool)
        requires
            config_ok(*config),
        ensures
            r == !old(self).active,
            r ==> *final(self) == (KeyboardPointerState {
                active: true,
                velocity: (config.speed * 1000) as i64,
                ..idle_state()
            }),
            !r ==> *final(self) == *old(self),
    {
        if self.active {
            return false;
        }
        let mut s = Self::default();
        s.active = true;
        s.velocity = config.speed * 1000;
        *self = s;
        true
    }

    /// Turns the mode off: `None` when it was already off, else whether a held drag must be
    /// released.
    pub fn deactivate_keyboard_pointer(&mut self) -> (r: Option<bool>)
        ensures
            !old(self).active ==> r is None && *final(self) == *old(self),
            old(self).active ==> r == Some(old(self).dragging) && *final(self) == idle_state(),
    {
        if !self.active {
            return None;
        }
        let release = self.dragging;
        *self = Self::default();
        Some(release)
    }

    /// Switches the mode.
    pub fn toggle_keyboard_pointer(&mut self, config: &KeyboardPointer) -> (r: KeyboardPointerToggle)
        requires
            config_ok(*config),
        ensures
            (*final(self), r) == toggled(*old(self), *config),
    {
        if self.active {
            let release = self.dragging;
            self.deactivate_keyboard_pointer();
            KeyboardPointerToggle::Deactivated { release_drag: release }
        } else {
            self.activate_keyboard_pointer(config);
            KeyboardPointerToggle::Activated
        }
    }
}


/// Work for the compositor that a keyboard-pointer decision asks for, to be done in order.
#[derive(Debug, Clone, Copy, PartialEq, Eq, Structural)]
pub enum PointerEffect {
    /// Press (`pressed`) or release a pointer button, then redraw.
    Button { button: u32, pressed: bool },
    /// Press and release a pointer button, then redraw.
    Click { button: u32 },
    /// Move the pointer `distance` pico-pixels along the direction `(dx, dy)` (each of -1, 0,
    /// 1; a diagonal is normalized), staying within the outputs.
    Move { dx: i8, dy: i8, distance: u128 },
    /// Scroll `distance` pico-pixels along the direction `(dx, dy)`.
    Scroll { dx: i8, dy: i8, distance: u128 },
    /// Start the motion timer, every `TICK_MS` milliseconds (replacing a running one).
    StartTimer,
    /// Stop the motion timer.
    StopTimer,
    /// Recompute the keyboard focus.
    UpdateKeyboardFocus,
    /// Redraw every output.
    RedrawAll,
}

/// What has the keyboard focus.
#[derive(Debug, Clone, Copy, PartialEq, Eq, Structural)]
pub enum KeyboardFocus {
    Layout,
    LayerShell,
    LockScreen,
    ScreenshotUi,
    ExitConfirmDialog,
    Overview,
    /// Keyboard-pointer mode takes the keys.
    KeyboardPointer,
}

impl KeyboardFocus {
    pub fn is_keyboard_pointer(&self) -> (r: bool)
        ensures
            r == (*self is KeyboardPointer),
    {
        match self {
            KeyboardFocus::KeyboardPointer => true,
            _ => false,
        }
    }
}

/// The compositor's keyboard-pointer mode: its state, its configuration, whether the pointer
/// is shown and the motion timer runs, and the work asked of the compositor so far.
#[derive(Debug)]
pub struct State {
    pub keyboard_pointer: KeyboardPointerState,
    pub keyboard_pointer_config: KeyboardPointer,
    pub pointer_visible: bool,
    pub keyboard_pointer_timer: bool,
    pub effects: Vec<PointerEffect>,
}

/// The state of the mode just switched on.
pub open spec fn activated(config: KeyboardPointer) -> KeyboardPointerState {
    KeyboardPointerState { active: true, velocity: (config.speed * 1000) as i64, ..idle_state() }
}

/// The work that switching the mode off asks for: release a held drag, stop the timer when
/// it runs, refocus and redraw.
pub open spec fn deactivation_effects(dragging: bool, timer: bool) -> Seq<PointerEffect> {
    (if dragging {
        seq![PointerEffect::Button { button: BTN_LEFT, pressed: false }]
    } else {
        seq![]
    }) + (if timer {
        seq![PointerEffect::StopTimer]
    } else {
        seq![]
    }) + seq![PointerEffect::UpdateKeyboardFocus, PointerEffect::RedrawAll]
}

/// The work that switching the mode on asks for.
pub open spec fn activation_effects() -> Seq<PointerEffect> {
    seq![PointerEffect::StartTimer, PointerEffect::UpdateKeyboardFocus, PointerEffect::RedrawAll]
}

impl State {
    /// Switches the mode on (no change when it is on): fresh state at the initial speed, the
    /// pointer shown, the timer started.
    pub fn activate_keyboard_pointer(&mut self)
        requires
            config_ok(old(self).keyboard_pointer_config),
        ensures
            old(self).keyboard_pointer.active ==> *final(self) == *old(self),
            !old(self).keyboard_pointer.active ==> {
                &&& final(self).keyboard_pointer == activated(old(self).keyboard_pointer_config)
                &&& final(self).pointer_visible
                &&& final(self).keyboard_pointer_timer
                &&& final(self).keyboard_pointer_config == old(self).keyboard_pointer_config
                &&& final(self).effects@ == old(self).effects@ + activation_effects()
            },
    {
        if self.keyboard_pointer.active {
            return;
        }
        let config = self.keyboard_pointer_config;
        self.keyboard_pointer.activate_keyboard_pointer(&config);
        self.pointer_visible = true;
        self.keyboard_pointer_timer = true;
        self.effects.push(PointerEffect::StartTimer);
        self.effects.push(PointerEffect::UpdateKeyboardFocus);
        self.effects.push(PointerEffect::RedrawAll);
        proof {
            assert(self.effects@ =~= old(self).effects@ + activation_effects());
        }
    }

    /// Switches the mode off (no change when it is off): a held drag is released, the timer
    /// stopped, the state reset.
    pub fn deactivate_keyboard_pointer(&mut self)
        ensures
            !old(self).keyboard_pointer.active ==> *final(self) == *old(self),
            old(self).keyboard_pointer.active ==> {
                &&& final(self).keyboard_pointer == idle_state()
                &&& !final(self).keyboard_pointer_timer
                &&& final(self).pointer_visible == old(self).pointer_visible
                &&& final(self).keyboard_pointer_config == old(self).keyboard_pointer_config
                &&& final(self).effects@ == old(self).effects@ + deactivation_effects(
                    old(self).keyboard_pointer.dragging,
                    old(self).keyboard_pointer_timer,
                )
            },
    {
        if !self.keyboard_pointer.active {
            return;
        }
        if self.keyboard_pointer.dragging {
            self.effects.push(PointerEffect::Button { button: BTN_LEFT, pressed: false });
        }
        self.keyboard_pointer.deactivate_keyboard_pointer();
        if self.keyboard_pointer_timer {
            self.keyboard_pointer_timer = false;
            self.effects.push(PointerEffect::StopTimer);
        }
        self.effects.push(PointerEffect::UpdateKeyboardFocus);
        self.effects.push(PointerEffect::RedrawAll);
        proof {
            assert(self.effects@ =~= old(self).effects@ + deactivation_effects(
                old(self).keyboard_pointer.dragging,
                old(self).keyboard_pointer_timer,
            ));
        }
    }

    /// Switches the mode.
    pub fn toggle_keyboard_pointer(&mut self)
        requires
            config_ok(old(self).keyboard_pointer_config),
        ensures
            old(self).keyboard_pointer.active ==> {
                &&& final(self).keyboard_pointer == idle_state()
                &&& !final(self).keyboard_pointer_timer
                &&& final(self).pointer_visible == old(self).pointer_visible
                &&& final(self).keyboard_pointer_config == old(self).keyboard_pointer_config
                &&& final(self).effects@ == old(self).effects@ + deactivation_effects(
                    old(self).keyboard_pointer.dragging,
                    old(self).keyboard_pointer_timer,
                )
            },
            !old(self).keyboard_pointer.active ==> {
                &&& final(self).keyboard_pointer == activated(old(self).keyboard_pointer_config)
                &&& final(self).pointer_visible
                &&& final(self).keyboard_pointer_timer
                &&& final(self).keyboard_pointer_config == old(self).keyboard_pointer_config
                &&& final(self).effects@ == old(self).effects@ + activation_effects()
            },
    {
        if self.keyboard_pointer.active {
            self.deactivate_keyboard_pointer();
        } else {
            self.activate_keyboard_pointer();
        }
    }

    /// A key event while the mode is on: the state is updated, `Exit` switches the mode off,
    /// clicks and button changes are asked of the compositor.
    pub fn keyboard_pointer_handle_key(&mut self, key: u32, pressed: bool, shift: bool) -> (r:
        KeyboardPointerKeyResult)
        requires
            config_ok(old(self).keyboard_pointer_config),
        ensures
            ({
                let (s1, res) = handle_key_spec(
                    old(self).keyboard_pointer,
                    key,
                    pressed,
                    shift,
                    old(self).keyboard_pointer_config,
                );
                &&& r == res
                &&& final(self).keyboard_pointer_config == old(self).keyboard_pointer_config
                &&& final(self).pointer_visible == old(self).pointer_visible
                &&& match res {
                    KeyboardPointerKeyResult::Exit => if s1.active {
                        &&& final(self).keyboard_pointer == idle_state()
                        &&& !final(self).keyboard_pointer_timer
                        &&& final(self).effects@ == old(self).effects@ + deactivation_effects(
                            s1.dragging,
                            old(self).keyboard_pointer_timer,
                        )
                    } else {
                        &&& final(self).keyboard_pointer == s1
                        &&& final(self).keyboard_pointer_timer == old(self).keyboard_pointer_timer
                        &&& final(self).effects@ == old(self).effects@
                    },
                    KeyboardPointerKeyResult::Click(b) => {
                        &&& final(self).keyboard_pointer == s1
                        &&& final(self).keyboard_pointer_timer == old(self).keyboard_pointer_timer
                        &&& final(self).effects@ == old(self).effects@.push(
                            PointerEffect::Click { button: b },
                        )
                    },
                    KeyboardPointerKeyResult::ButtonPress(b) => {
                        &&& final(self).keyboard_pointer == s1
                        &&& final(self).keyboard_pointer_timer == old(self).keyboard_pointer_timer
                        &&& final(self).effects@ == old(self).effects@.push(
                            PointerEffect::Button { button: b, pressed: true },
                        )
                    },
                    KeyboardPointerKeyResult::ButtonRelease(b) => {
                        &&& final(self).keyboard_pointer == s1
                        &&& final(self).keyboard_pointer_timer == old(self).keyboard_pointer_timer
                        &&& final(self).effects@ == old(self).effects@.push(
                            PointerEffect::Button { button: b, pressed: false },
                        )
                    },
                    KeyboardPointerKeyResult::Continue => {
                        &&& final(self).keyboard_pointer == s1
                        &&& final(self).keyboard_pointer_timer == old(self).keyboard_pointer_timer
                        &&& final(self).effects@ == old(self).effects@
                    },
                }
            }),
    {
        let config = self.keyboard_pointer_config;
        let result = self.keyboard_pointer.handle_key(key, pressed, shift, &config);
        match result {
            KeyboardPointerKeyResult::Exit => self.deactivate_keyboard_pointer(),
            KeyboardPointerKeyResult::Click(button) => {
                self.effects.push(PointerEffect::Click { button });
            },
            KeyboardPointerKeyResult::ButtonPress(button) => {
                self.effects.push(PointerEffect::Button { button, pressed: true });
            },
            KeyboardPointerKeyResult::ButtonRelease(button) => {
                self.effects.push(PointerEffect::Button { button, pressed: false });
            },
            KeyboardPointerKeyResult::Continue => {},
        }
        result
    }

    /// One timer tick of `TICK_MS` milliseconds while the mode is on: the pointer moves when a
    /// movement key is held, and scrolls when a scroll key is.
    pub fn keyboard_pointer_tick(&mut self)
        requires
            config_ok(old(self).keyboard_pointer_config),
            0 <= old(self).keyboard_pointer.velocity <= max_velocity(),
        ensures
            !old(self).keyboard_pointer.active ==> *final(self) == *old(self),
            0 <= final(self).keyboard_pointer.velocity <= max_velocity(),
            final(self).keyboard_pointer_config == old(self).keyboard_pointer_config,
            final(self).pointer_visible == old(self).pointer_visible,
            final(self).keyboard_pointer_timer == old(self).keyboard_pointer_timer,
            old(self).keyboard_pointer.active ==> ({
                let k = old(self).keyboard_pointer;
                let c = old(self).keyboard_pointer_config;
                let mx = axis(k.left, k.right);
                let my = axis(k.up, k.down);
                let sx = axis(k.scroll_left, k.scroll_right);
                let sy = axis(k.scroll_up, k.scroll_down);
                let moves = if mx == 0 && my == 0 {
                    seq![]
                } else {
                    seq![
                        PointerEffect::Move {
                            dx: mx as i8,
                            dy: my as i8,
                            distance: (k.velocity * TICK_MS) as u128,
                        },
                    ]
                };
                let scrolls = if sx == 0 && sy == 0 {
                    seq![]
                } else {
                    seq![
                        PointerEffect::Scroll {
                            dx: sx as i8,
                            dy: sy as i8,
                            distance: scroll_distance(c, TICK_MS as int) as u128,
                        },
                    ]
                };
                &&& final(self).effects@ == old(self).effects@ + moves + scrolls
                &&& final(self).keyboard_pointer == (KeyboardPointerState {
                    velocity: if mx == 0 && my == 0 {
                        (c.speed * 1000) as i64
                    } else if k.velocity + c.acceleration * TICK_MS > c.max_speed * 1000 {
                        (c.max_speed * 1000) as i64
                    } else {
                        (k.velocity + c.acceleration * TICK_MS) as i64
                    },
                    ..k
                })
            }),
    {
        if !self.keyboard_pointer.active {
            return;
        }
        let config = self.keyboard_pointer_config;
        let ghost e0 = self.effects@;
        let moved = self.keyboard_pointer.tick(&config, TICK_MS);
        if let Some((dx, dy, distance)) = moved {
            self.effects.push(PointerEffect::Move { dx, dy, distance });
        }
        let ghost e1 = self.effects@;
        let scrolled = self.keyboard_pointer.scroll_tick(&config, TICK_MS);
        if let Some((dx, dy, distance)) = scrolled {
            self.effects.push(PointerEffect::Scroll { dx, dy, distance });
        }
        proof {
            let k = old(self).keyboard_pointer;
            let mx = axis(k.left, k.right);
            let my = axis(k.up, k.down);
            let sx = axis(k.scroll_left, k.scroll_right);
            let sy = axis(k.scroll_up, k.scroll_down);
            if mx == 0 && my == 0 {
                assert(e1 =~= e0 + seq![]);
            } else {
                assert(e1 =~= e0 + seq![
                    PointerEffect::Move {
                        dx: mx as i8,
                        dy: my as i8,
                        distance: (k.velocity * TICK_MS) as u128,
                    },
                ]);
            }
            if sx == 0 && sy == 0 {
                assert(self.effects@ =~= e1 + seq![]);
            }
        }
    }
}


/// Whether a configuration lies in the ranges keyboard-pointer mode works with.
pub fn keyboard_pointer_config_ok(config: &KeyboardPointer) -> (r: bool)
    ensures
        r == config_ok(*config),
{
    0 <= config.speed && config.speed <= 10_000 * UNIT && 0 <= config.max_speed && config.max_speed
        <= 10_000 * UNIT && 0 <= config.acceleration && config.acceleration <= 100_000 * UNIT
        && 0 <= config.scroll_speed && config.scroll_speed <= 10_000 * UNIT
}

impl State {
    /// Whether a timer tick may run: the configuration is in range and the speed within the
    /// largest one it allows.
    pub fn keyboard_pointer_tick_allowed(&self) -> (r: bool)
        ensures
            r == (config_ok(self.keyboard_pointer_config) && 0 <= self.keyboard_pointer.velocity
                <= max_velocity()),
    {
        keyboard_pointer_config_ok(&self.keyboard_pointer_config) && 0 <= self.keyboard_pointer.velocity
            && self.keyboard_pointer.velocity <= 10_000 * UNIT * 1000
    }
}

} // verus!
