//! Sizes of the window shown on the stage.
//!
//! Lengths of the stage area come in millionths of a logical pixel; window sizes are whole
//! logical pixels.

use vstd::prelude::*;

verus! {

/// A window size in logical pixels.
#[derive(Debug, Clone, Copy, PartialEq, Eq, Structural)]
pub struct WindowSize {
    pub w: i32,
    pub h: i32,
}

/// `x` millionths rounded to the nearest whole number, halves away from zero.
pub open spec fn round_micros(x: int) -> int {
    if x >= 0 {
        (x + 500_000) / 1_000_000
    } else {
        -((-x + 500_000) / 1_000_000)
    }
}

/// A length of `x` millionths as whole pixels: rounded, at least 1, at most `i32::MAX`.
pub open spec fn whole_pixels(x: int) -> i32 {
    let r = round_micros(x);
    if r < 1 {
        1
    } else if r > i32::MAX {
        i32::MAX
    } else {
        r as i32
    }
}

/// The size of a window put on the stage: its saved size (by default the whole stage area),
/// each side no longer than the area's.
pub open spec fn stage_window_size(
    saved: Option<WindowSize>,
    available_width: int,
    available_height: int,
) -> WindowSize {
    let s = match saved {
        Some(s) => s,
        None => WindowSize {
            w: whole_pixels(available_width),
            h: whole_pixels(available_height),
        },
    };
    WindowSize {
        w: whole_pixels(if s.w * 1_000_000 < available_width {
            s.w * 1_000_000
        } else {
            available_width
        }),
        h: whole_pixels(if s.h * 1_000_000 < available_height {
            s.h * 1_000_000
        } else {
            available_height
        }),
    }
}

fn to_whole_pixels(x: i64) -> (r: i32)
    ensures
        r == whole_pixels(x as int),
{
    let x = x as i128;
    let r: i128 = if x >= 0 {
        (x + 500_000) / 1_000_000
    } else {
        -((-x + 500_000) / 1_000_000)
    };
    if r < 1 {
        1
    } else if r > i32::MAX as i128 {
        i32::MAX
    } else {
        r as i32
    }
}

/// The size of a window put on the stage, from its saved size and the size of the stage area
/// (in millionths of a logical pixel).
pub fn resolve_stage_window_size(
    saved: Option<WindowSize>,
    available_width: i64,
    available_height: i64,
) -> (r: WindowSize)
    ensures
        r == stage_window_size(saved, available_width as int, available_height as int),
{
    let default_w = to_whole_pixels(available_width);
    let default_h = to_whole_pixels(available_height);
    let size = match saved {
        Some(s) => s,
        None => WindowSize { w: default_w, h: default_h },
    };
    let w = size.w as i64 * 1_000_000;
    let h = size.h as i64 * 1_000_000;
    let w = if w < available_width {
        w
    } else {
        available_width
    };
    let h = if h < available_height {
        h
    } else {
        available_height
    };
    WindowSize { w: to_whole_pixels(w), h: to_whole_pixels(h) }
}


proof fn lemma_round_whole(k: int)
    requires
        k >= 0,
    ensures
        round_micros(k * 1_000_000) == k,
{
    assert((k * 1_000_000 + 500_000) / 1_000_000 == k) by (nonlinear_arith)
        requires
            k >= 0,
    ;
}

proof fn lemma_round_bound(x: int)
    requires
        x >= 0,
    ensures
        round_micros(x) * 1_000_000 <= x + 500_000,
        round_micros(x) >= 0,
{
    let q = (x + 500_000) / 1_000_000;
    assert(q * 1_000_000 <= x + 500_000 && q >= 0) by (nonlinear_arith)
        requires
            x >= 0,
            q == (x + 500_000) / 1_000_000,
    ;
}

/// A window put on the stage is at least one pixel on each side; a saved side that fits the
/// stage area is kept; and no side is longer than the area, up to rounding to whole pixels.
pub proof fn law_stage_window_size(saved: Option<WindowSize>, available_width: int, available_height: int)
    requires
        1_000_000 <= available_width <= i32::MAX * 1_000_000,
        1_000_000 <= available_height <= i32::MAX * 1_000_000,
    ensures
        ({
            let r = stage_window_size(saved, available_width, available_height);
            &&& r.w >= 1 && r.h >= 1
            &&& r.w * 1_000_000 <= available_width + 500_000
            &&& r.h * 1_000_000 <= available_height + 500_000
            &&& saved matches Some(s) ==> (1 <= s.w && s.w * 1_000_000 <= available_width ==> r.w
                == s.w)
            &&& saved matches Some(s) ==> (1 <= s.h && s.h * 1_000_000 <= available_height ==> r.h
                == s.h)
        }),
{
    let d = WindowSize { w: whole_pixels(available_width), h: whole_pixels(available_height) };
    let s = match saved {
        Some(s) => s,
        None => d,
    };
    let wx = if s.w * 1_000_000 < available_width {
        s.w * 1_000_000
    } else {
        available_width
    };
    let hx = if s.h * 1_000_000 < available_height {
        s.h * 1_000_000
    } else {
        available_height
    };
    lemma_round_bound(available_width);
    lemma_round_bound(available_height);
    if s.w >= 1 {
        lemma_round_whole(s.w as int);
    }
    if s.h >= 1 {
        lemma_round_whole(s.h as int);
    }
    if wx >= 0 {
        lemma_round_bound(wx);
    }
    if hx >= 0 {
        lemma_round_bound(hx);
    }
}

} // verus!
