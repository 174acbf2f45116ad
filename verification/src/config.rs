//! Configuration sections for the Stage Manager and related features.

use vstd::prelude::*;

verus! {

/// One unit (`1.0`) in the millionths fixed-point representation.
pub const UNIT: i64 = 1_000_000;

/// `min(max(v, lo), hi)`, the clamp of an ordered value to `[lo, hi]` for `lo <= hi`.
pub open spec fn clamp_spec(v: int, lo: int, hi: int) -> int {
    if v < lo {
        lo
    } else if v > hi {
        hi
    } else {
        v
    }
}

pub fn clamp_i64(v: i64, lo: i64, hi: i64) -> (r: i64)
    requires
        lo <= hi,
    ensures
        r == clamp_spec(v as int, lo as int, hi as int),
{
    if v < lo {
        lo
    } else if v > hi {
        hi
    } else {
        v
    }
}

/// Where the cast stack strip is placed relative to the stage.
#[derive(Debug, Clone, Copy, PartialEq, Eq, Structural)]
pub enum StackPosition {
    /// Vertical cast strip on the left (default).
    Left,
    /// Vertical cast strip on the right.
    Right,
    /// Horizontal cast strip at the top.
    Top,
    /// Horizontal cast strip at the bottom.
    Bottom,
}

impl StackPosition {
    pub open spec fn is_vertical_spec(self) -> bool {
        self is Left || self is Right
    }

    #[verifier::when_used_as_spec(is_vertical_spec)]
    pub fn is_vertical(self) -> (r: bool)
        ensures
            r == self.is_vertical_spec(),
    {
        match self {
            StackPosition::Left | StackPosition::Right => true,
            _ => false,
        }
    }

    pub fn default() -> (r: Self)
        ensures
            r == StackPosition::Left,
    {
        StackPosition::Left
    }
}

/// When the focused column is centered.
#[derive(Debug, Clone, Copy, PartialEq, Eq, Structural)]
pub enum CenterFocusedColumn {
    /// Focusing a column will not center the column.
    Never,
    /// The focused column will always be centered.
    Always,
    /// Focusing a column will center it if it doesn't fit on the screen together with the
    /// previously focused column.
    OnOverflow,
}

impl CenterFocusedColumn {
    pub fn default() -> (r: Self)
        ensures
            r == CenterFocusedColumn::Never,
    {
        CenterFocusedColumn::Never
    }
}

/// Stage Manager layout mode configuration.
#[derive(Debug, Clone, Copy, PartialEq, Eq, Structural)]
pub struct StageManagerConfig {
    /// Where the cast stack strip is placed.
    pub stack_position: StackPosition,
    /// Fraction of the screen width occupied by the stage area (0.1–0.9), in millionths.
    pub proportion: i64,
    /// Maximum number of app groups visible in the cast strip (overflow goes hidden).
    pub max_cast_groups: usize,
    /// Cast thumbnail scale relative to monitor width (0.1–0.3), in millionths.
    pub thumb_scale: i64,
    /// Group cast strip slots by app ID (macOS-style). When false, each window gets its own slot.
    pub stack_by_app: bool,
    /// After focusing a cast strip slot, promote it to main (keeps saved window size).
    pub auto_use_as_main: bool,
    /// Dwell time before auto-use-as-main triggers (milliseconds).
    pub auto_use_as_main_delay_ms: u32,
}

/// The `stage-manager { .. }` section as written in the configuration: each field is
/// present only when its node was given. Numbers are in millionths.
#[derive(Debug, Clone, Copy, PartialEq, Eq, Structural)]
pub struct StageManagerPart {
    pub stack_position: Option<StackPosition>,
    /// Range 0–1 (in millionths: 0–1_000_000).
    pub proportion: Option<i64>,
    /// Range 1–12 (in millionths).
    pub max_cast_groups: Option<i64>,
    /// Range 0–1 (in millionths).
    pub thumb_scale: Option<i64>,
    pub stack_by_app: Option<bool>,
    pub auto_use_as_main: Option<bool>,
    /// Range 0–60000 (in millionths).
    pub auto_use_as_main_delay_ms: Option<i64>,
}

impl StageManagerPart {
    /// A section with no node given.
    pub fn default() -> (r: Self)
        ensures
            r.stack_position is None,
            r.proportion is None,
            r.max_cast_groups is None,
            r.thumb_scale is None,
            r.stack_by_app is None,
            r.auto_use_as_main is None,
            r.auto_use_as_main_delay_ms is None,
    {
        StageManagerPart {
            stack_position: None,
            proportion: None,
            max_cast_groups: None,
            thumb_scale: None,
            stack_by_app: None,
            auto_use_as_main: None,
            auto_use_as_main_delay_ms: None,
        }
    }
}

/// The integer part of a millionths value, as `as` truncates a float toward zero and
/// saturates at the bounds of the target type.
pub open spec fn trunc_to_nat(v: int) -> int {
    if v < 0 {
        0
    } else {
        v / (UNIT as int)
    }
}

pub open spec fn default_stage_manager_config() -> StageManagerConfig {
    StageManagerConfig {
        stack_position: StackPosition::Left,
        proportion: 700_000,
        max_cast_groups: 6,
        thumb_scale: 150_000,
        stack_by_app: false,
        auto_use_as_main: false,
        auto_use_as_main_delay_ms: 2000,
    }
}

/// What a `stage-manager` section gives: each value taken from the section when present,
/// else from the defaults, then clamped to its range.
pub open spec fn stage_manager_from_part_spec(part: StageManagerPart) -> StageManagerConfig {
    let d = default_stage_manager_config();
    let proportion = match part.proportion {
        Some(p) => p as int,
        None => d.proportion as int,
    };
    let max_cast = match part.max_cast_groups {
        Some(n) => trunc_to_nat(n as int),
        None => d.max_cast_groups as int,
    };
    let thumb = match part.thumb_scale {
        Some(p) => p as int,
        None => d.thumb_scale as int,
    };
    let delay = match part.auto_use_as_main_delay_ms {
        Some(n) => trunc_to_nat(n as int),
        None => d.auto_use_as_main_delay_ms as int,
    };
    StageManagerConfig {
        stack_position: match part.stack_position {
            Some(p) => p,
            None => d.stack_position,
        },
        proportion: clamp_spec(proportion, 100_000, 900_000) as i64,
        max_cast_groups: clamp_spec(max_cast, 1, 12) as usize,
        thumb_scale: clamp_spec(thumb, 100_000, 300_000) as i64,
        stack_by_app: match part.stack_by_app {
            Some(f) => f,
            None => d.stack_by_app,
        },
        auto_use_as_main: match part.auto_use_as_main {
            Some(f) => f,
            None => d.auto_use_as_main,
        },
        auto_use_as_main_delay_ms: clamp_spec(delay, 0, 60_000) as u32,
    }
}

impl StageManagerConfig {
    pub fn default() -> (r: Self)
        ensures
            r == default_stage_manager_config(),
    {
        StageManagerConfig {
            stack_position: StackPosition::Left,
            proportion: 700_000,
            max_cast_groups: 6,
            thumb_scale: 150_000,
            stack_by_app: false,
            auto_use_as_main: false,
            auto_use_as_main_delay_ms: 2000,
        }
    }

    /// Builds the configuration from a `stage-manager` section.
    pub fn from_part(part: &StageManagerPart) -> (r: Self)
        ensures
            r == stage_manager_from_part_spec(*part),
    {
        let d = Self::default();
        let proportion = match part.proportion {
            Some(p) => p,
            None => d.proportion,
        };
        let max_cast_groups: i64 = match part.max_cast_groups {
            Some(n) => if n < 0 { 0 } else { n / UNIT },
            None => 6,
        };
        let thumb_scale = match part.thumb_scale {
            Some(p) => p,
            None => d.thumb_scale,
        };
        let delay: i64 = match part.auto_use_as_main_delay_ms {
            Some(n) => if n < 0 { 0 } else { n / UNIT },
            None => 2000,
        };
        let stack_position = match part.stack_position {
            Some(p) => p,
            None => d.stack_position,
        };
        let stack_by_app = match part.stack_by_app {
            Some(f) => f,
            None => d.stack_by_app,
        };
        let auto_use_as_main = match part.auto_use_as_main {
            Some(f) => f,
            None => d.auto_use_as_main,
        };
        let max_cast = clamp_i64(max_cast_groups, 1, 12);
        let delay = clamp_i64(delay, 0, 60_000);
        StageManagerConfig {
            stack_position,
            proportion: clamp_i64(proportion, 100_000, 900_000),
            max_cast_groups: max_cast as usize,
            thumb_scale: clamp_i64(thumb_scale, 100_000, 300_000),
            stack_by_app,
            auto_use_as_main,
            auto_use_as_main_delay_ms: delay as u32,
        }
    }
}


/// A Stage Manager configuration built from any section lies in the documented ranges: the
/// stage takes 0.1–0.9 of the width, the strip shows 1–12 groups, thumbnails scale 0.1–0.3,
/// and the dwell time is at most 60 s.
pub proof fn law_stage_manager_config_in_range(part: StageManagerPart)
    ensures
        ({
            let c = stage_manager_from_part_spec(part);
            &&& 100_000 <= c.proportion <= 900_000
            &&& 1 <= c.max_cast_groups <= 12
            &&& 100_000 <= c.thumb_scale <= 300_000
            &&& c.auto_use_as_main_delay_ms <= 60_000
        }),
{
}

/// A section that sets nothing gives the default configuration; a section gives each value
/// it sets when that value lies in its range.
pub proof fn law_stage_manager_section_values(part: StageManagerPart)
    ensures
        part.stack_position is None && part.proportion is None && part.max_cast_groups is None
            && part.thumb_scale is None && part.stack_by_app is None && part.auto_use_as_main
            is None && part.auto_use_as_main_delay_ms is None ==> stage_manager_from_part_spec(part)
            == default_stage_manager_config(),
        part.proportion matches Some(p) ==> (100_000 <= p <= 900_000
            ==> stage_manager_from_part_spec(part).proportion == p),
        part.stack_position matches Some(p) ==> stage_manager_from_part_spec(part).stack_position
            == p,
        part.stack_by_app matches Some(f) ==> stage_manager_from_part_spec(part).stack_by_app == f,
        part.auto_use_as_main matches Some(f) ==> stage_manager_from_part_spec(part).auto_use_as_main
            == f,
{
}

/// Outer gaps reserved at the sides of the working area, in millionths of a logical pixel.
#[derive(Debug, Clone, Copy, PartialEq, Eq, Structural)]
pub struct Struts {
    pub left: i64,
    pub right: i64,
    pub top: i64,
    pub bottom: i64,
}

impl Struts {
    pub fn default() -> (r: Self)
        ensures
            r.left == 0 && r.right == 0 && r.top == 0 && r.bottom == 0,
    {
        Struts { left: 0, right: 0, top: 0, bottom: 0 }
    }
}

/// A command run at startup, as its arguments.
#[derive(Debug, Clone, PartialEq, Eq)]
pub struct SpawnAtStartup {
    pub command: Vec<String>,
}

/// A shell command line run at startup.
#[derive(Debug, Clone, PartialEq, Eq)]
pub struct SpawnShAtStartup {
    pub command: String,
}

/// Cursor settings.
#[derive(Debug, PartialEq)]
pub struct Cursor {
    pub xcursor_theme: String,
    pub xcursor_size: u8,
    pub hide_when_typing: bool,
    pub hide_after_inactive_ms: Option<u32>,
}

/// The `cursor { .. }` section as written.
#[derive(Debug, PartialEq)]
pub struct CursorPart {
    pub xcursor_theme: Option<String>,
    pub xcursor_size: Option<u8>,
    pub hide_when_typing: Option<bool>,
    pub hide_after_inactive_ms: Option<u32>,
}

/// A present value of a section replaces the current one.
pub open spec fn merged<T>(cur: T, part: Option<T>) -> T {
    match part {
        Some(v) => v,
        None => cur,
    }
}

pub open spec fn merged_str(cur: Seq<char>, part: Option<String>) -> Seq<char> {
    match part {
        Some(v) => v@,
        None => cur,
    }
}

impl Cursor {
    pub fn default() -> (r: Self)
        ensures
            r.xcursor_theme@ == "default"@,
            r.xcursor_size == 24,
            !r.hide_when_typing,
            r.hide_after_inactive_ms is None,
    {
        Cursor {
            xcursor_theme: "default".to_owned(),
            xcursor_size: 24,
            hide_when_typing: false,
            hide_after_inactive_ms: None,
        }
    }

    pub fn merge_with(&mut self, part: &CursorPart)
        ensures
            final(self).xcursor_theme@ == merged_str(old(self).xcursor_theme@, part.xcursor_theme),
            final(self).xcursor_size == merged(old(self).xcursor_size, part.xcursor_size),
            final(self).hide_when_typing == merged(old(self).hide_when_typing, part.hide_when_typing),
            final(self).hide_after_inactive_ms == merged(
                old(self).hide_after_inactive_ms,
                match part.hide_after_inactive_ms {
                    Some(v) => Some(Some(v)),
                    None => None,
                },
            ),
    {
        if let Some(x) = &part.xcursor_theme {
            self.xcursor_theme = x.clone();
        }
        if let Some(x) = part.xcursor_size {
            self.xcursor_size = x;
        }
        if let Some(x) = part.hide_when_typing {
            self.hide_when_typing = x;
        }
        if part.hide_after_inactive_ms.is_some() {
            self.hide_after_inactive_ms = part.hide_after_inactive_ms;
        }
    }
}

/// Where screenshots are saved (`None`: not saved to disk).
#[derive(Debug, Clone, PartialEq)]
pub struct ScreenshotPath(pub Option<String>);

impl ScreenshotPath {
    pub fn default() -> (r: Self)
        ensures
            r.0 is Some,
            r.0->Some_0@ == "~/Pictures/Screenshots/Screenshot from %Y-%m-%d %H-%M-%S.png"@,
    {
        ScreenshotPath(Some("~/Pictures/Screenshots/Screenshot from %Y-%m-%d %H-%M-%S.png".to_owned()))
    }
}

#[derive(Debug, Clone, Copy, PartialEq, Eq, Structural)]
pub struct HotkeyOverlay {
    pub skip_at_startup: bool,
    pub hide_not_bound: bool,
}

#[derive(Debug, Clone, Copy, PartialEq, Eq, Structural)]
pub struct HotkeyOverlayPart {
    pub skip_at_startup: Option<bool>,
    pub hide_not_bound: Option<bool>,
}

impl HotkeyOverlay {
    pub fn default() -> (r: Self)
        ensures
            !r.skip_at_startup && !r.hide_not_bound,
    {
        HotkeyOverlay { skip_at_startup: false, hide_not_bound: false }
    }

    pub fn merge_with(&mut self, part: &HotkeyOverlayPart)
        ensures
            final(self).skip_at_startup == merged(old(self).skip_at_startup, part.skip_at_startup),
            final(self).hide_not_bound == merged(old(self).hide_not_bound, part.hide_not_bound),
    {
        if let Some(x) = part.skip_at_startup {
            self.skip_at_startup = x;
        }
        if let Some(x) = part.hide_not_bound {
            self.hide_not_bound = x;
        }
    }
}

#[derive(Debug, Clone, Copy, PartialEq, Eq, Structural)]
pub struct ConfigNotification {
    pub disable_failed: bool,
}

#[derive(Debug, Clone, Copy, PartialEq, Eq, Structural)]
pub struct ConfigNotificationPart {
    pub disable_failed: Option<bool>,
}

impl ConfigNotification {
    pub fn default() -> (r: Self)
        ensures
            !r.disable_failed,
    {
        ConfigNotification { disable_failed: false }
    }

    pub fn merge_with(&mut self, part: &ConfigNotificationPart)
        ensures
            final(self).disable_failed == merged(old(self).disable_failed, part.disable_failed),
    {
        if let Some(x) = part.disable_failed {
            self.disable_failed = x;
        }
    }
}

#[derive(Debug, Clone, Copy, PartialEq, Eq, Structural)]
pub struct Clipboard {
    pub disable_primary: bool,
}

#[derive(Debug, Clone, Copy, PartialEq, Eq, Structural)]
pub struct ClipboardPart {
    pub disable_primary: Option<bool>,
}

impl Clipboard {
    pub fn default() -> (r: Self)
        ensures
            !r.disable_primary,
    {
        Clipboard { disable_primary: false }
    }

    pub fn merge_with(&mut self, part: &ClipboardPart)
        ensures
            final(self).disable_primary == merged(old(self).disable_primary, part.disable_primary),
    {
        if let Some(x) = part.disable_primary {
            self.disable_primary = x;
        }
    }
}

/// The overview's settings: the zoom of the workspaces, in millionths. The backdrop colour and
/// the workspace shadow are drawn by the renderer, which keeps them.
#[derive(Debug, Clone, Copy, PartialEq, Eq, Structural)]
pub struct Overview {
    pub zoom: i64,
}

/// The `overview { .. }` section as written (millionths).
#[derive(Debug, Clone, Copy, PartialEq, Eq, Structural)]
pub struct OverviewPart {
    /// Range 0–1.
    pub zoom: Option<i64>,
}

impl Overview {
    pub fn default() -> (r: Self)
        ensures
            r.zoom == 500_000,
    {
        Overview { zoom: 500_000 }
    }

    /// Merges a section: a zoom that is written replaces the current one.
    pub fn merge_with(&mut self, part: &OverviewPart)
        ensures
            final(self).zoom == merged(old(self).zoom, part.zoom),
    {
        if let Some(z) = part.zoom {
            self.zoom = z;
        }
    }
}

/// Keyboard-driven pointer control (built-in warpd-like normal mode). Speeds in millionths of
/// a logical pixel per second, acceleration in millionths of a logical pixel per second squared.
#[derive(Debug, Clone, Copy, PartialEq, Eq, Structural)]
pub struct KeyboardPointer {
    /// Initial speed.
    pub speed: i64,
    pub max_speed: i64,
    pub acceleration: i64,
    /// Scroll speed.
    pub scroll_speed: i64,
}

/// The `keyboard-pointer { .. }` section as written (millionths).
#[derive(Debug, Clone, Copy, PartialEq, Eq, Structural)]
pub struct KeyboardPointerPart {
    /// Range 1–10000.
    pub speed: Option<i64>,
    /// Range 1–10000.
    pub max_speed: Option<i64>,
    /// Range 0–100000.
    pub acceleration: Option<i64>,
    /// Range 1–10000.
    pub scroll_speed: Option<i64>,
}

/// A present, positive value replaces the current one.
pub open spec fn merged_positive(cur: i64, part: Option<i64>) -> i64 {
    match part {
        Some(v) => if v > 0 {
            v
        } else {
            cur
        },
        None => cur,
    }
}

impl KeyboardPointer {
    pub fn default() -> (r: Self)
        ensures
            r.speed == 350 * UNIT,
            r.max_speed == 1200 * UNIT,
            r.acceleration == 1400 * UNIT,
            r.scroll_speed == 400 * UNIT,
    {
        KeyboardPointer {
            speed: 350 * UNIT,
            max_speed: 1200 * UNIT,
            acceleration: 1400 * UNIT,
            scroll_speed: 400 * UNIT,
        }
    }

    /// Merges a section: positive speeds replace the current ones, any acceleration does; the
    /// maximum speed is then raised to the speed when below it.
    pub fn merge_with(&mut self, part: &KeyboardPointerPart)
        ensures
            final(self).speed == merged_positive(old(self).speed, part.speed),
            final(self).acceleration == merged(old(self).acceleration, part.acceleration),
            final(self).scroll_speed == merged_positive(old(self).scroll_speed, part.scroll_speed),
            final(self).speed <= final(self).max_speed,
            final(self).max_speed == if merged_positive(old(self).max_speed, part.max_speed)
                < merged_positive(old(self).speed, part.speed) {
                merged_positive(old(self).speed, part.speed)
            } else {
                merged_positive(old(self).max_speed, part.max_speed)
            },
    {
        if let Some(v) = part.speed {
            if v > 0 {
                self.speed = v;
            }
        }
        if let Some(v) = part.max_speed {
            if v > 0 {
                self.max_speed = v;
            }
        }
        if let Some(v) = part.acceleration {
            self.acceleration = v;
        }
        if let Some(v) = part.scroll_speed {
            if v > 0 {
                self.scroll_speed = v;
            }
        }
        if self.max_speed < self.speed {
            self.max_speed = self.speed;
        }
    }
}

/// Full-screen viewport zoom (magnifier) settings; scales and steps in millionths.
#[derive(Debug, Clone, Copy, PartialEq, Eq, Structural)]
pub struct ViewportZoom {
    /// Scale applied when toggling zoom on.
    pub default_scale: i64,
    pub min_scale: i64,
    pub max_scale: i64,
    /// Keyboard +/- step.
    pub step: i64,
    /// Scroll wheel step (with Mod held while zoom is active).
    pub wheel_step: i64,
    /// When true, lock the magnified frame in place and pan only at the screen edges
    /// (macOS Magnifier-style).
    pub edge_pan: bool,
}

/// The `viewport-zoom { .. }` section as written (millionths).
#[derive(Debug, Clone, Copy, PartialEq, Eq, Structural)]
pub struct ViewportZoomPart {
    /// Range 1–64.
    pub default_scale: Option<i64>,
    /// Range 1–64.
    pub min_scale: Option<i64>,
    /// Range 1–64.
    pub max_scale: Option<i64>,
    /// Range 0–1.
    pub step: Option<i64>,
    /// Range 0–1.
    pub wheel_step: Option<i64>,
    pub edge_pan: Option<bool>,
    /// Ignored (removed).
    pub edge_margin: Option<i64>,
    /// Ignored (removed).
    pub dead_zone_width: Option<i64>,
    /// Ignored (removed).
    pub dead_zone_height: Option<i64>,
}

impl ViewportZoom {
    pub fn default() -> (r: Self)
        ensures
            r.default_scale == 1_500_000,
            r.min_scale == UNIT,
            r.max_scale == 64 * UNIT,
            r.step == 100_000,
            r.wheel_step == 50_000,
            !r.edge_pan,
    {
        ViewportZoom {
            default_scale: 1_500_000,
            min_scale: UNIT,
            max_scale: 64 * UNIT,
            step: 100_000,
            wheel_step: 50_000,
            edge_pan: false,
        }
    }

    /// Merges a section: positive values replace the current ones; then the minimum scale is
    /// clamped to 1–64, the maximum to min–64 and the default to min–max.
    pub fn merge_with(&mut self, part: &ViewportZoomPart)
        ensures
            ({
                let min = clamp_spec(
                    merged_positive(old(self).min_scale, part.min_scale) as int,
                    UNIT as int,
                    64 * UNIT,
                );
                let max = clamp_spec(
                    merged_positive(old(self).max_scale, part.max_scale) as int,
                    min,
                    64 * UNIT,
                );
                &&& final(self).min_scale == min
                &&& final(self).max_scale == max
                &&& final(self).default_scale == clamp_spec(
                    merged_positive(old(self).default_scale, part.default_scale) as int,
                    min,
                    max,
                )
                &&& final(self).step == merged_positive(old(self).step, part.step)
                &&& final(self).wheel_step == merged_positive(old(self).wheel_step, part.wheel_step)
                &&& final(self).edge_pan == merged(old(self).edge_pan, part.edge_pan)
            }),
            UNIT <= final(self).min_scale <= final(self).max_scale <= 64 * UNIT,
            final(self).min_scale <= final(self).default_scale <= final(self).max_scale,
    {
        if let Some(v) = part.default_scale {
            if v > 0 {
                self.default_scale = v;
            }
        }
        if let Some(v) = part.min_scale {
            if v > 0 {
                self.min_scale = v;
            }
        }
        if let Some(v) = part.max_scale {
            if v > 0 {
                self.max_scale = v;
            }
        }
        if let Some(v) = part.step {
            if v > 0 {
                self.step = v;
            }
        }
        if let Some(v) = part.wheel_step {
            if v > 0 {
                self.wheel_step = v;
            }
        }
        if let Some(x) = part.edge_pan {
            self.edge_pan = x;
        }
        self.min_scale = clamp_i64(self.min_scale, UNIT, 64 * UNIT);
        self.max_scale = clamp_i64(self.max_scale, self.min_scale, 64 * UNIT);
        self.default_scale = clamp_i64(self.default_scale, self.min_scale, self.max_scale);
    }
}

/// Environment variables set for spawned processes.
#[derive(Debug, Clone, PartialEq, Eq)]
pub struct Environment(pub Vec<EnvironmentVariable>);

/// An environment variable; `None` unsets it.
#[derive(Debug, Clone, PartialEq, Eq)]
pub struct EnvironmentVariable {
    pub name: String,
    pub value: Option<String>,
}

/// The xwayland-satellite integration.
#[derive(Debug, Clone, PartialEq, Eq)]
pub struct XwaylandSatellite {
    pub off: bool,
    pub path: String,
}

/// The `xwayland-satellite { .. }` section as written.
#[derive(Debug, Clone, PartialEq, Eq)]
pub struct XwaylandSatellitePart {
    pub off: bool,
    pub on: bool,
    pub path: Option<String>,
}

impl XwaylandSatellite {
    pub fn default() -> (r: Self)
        ensures
            !r.off,
            r.path@ == "xwayland-satellite"@,
    {
        XwaylandSatellite { off: false, path: "xwayland-satellite".to_owned() }
    }

    /// `off` turns the integration off, `on` turns it back on (it wins over `off`).
    pub fn merge_with(&mut self, part: &XwaylandSatellitePart)
        ensures
            final(self).off == (!part.on && (old(self).off || part.off)),
            final(self).path@ == merged_str(old(self).path@, part.path),
    {
        self.off = self.off || part.off;
        if part.on {
            self.off = false;
        }
        if let Some(p) = &part.path {
            self.path = p.clone();
        }
    }
}

} // verus!
