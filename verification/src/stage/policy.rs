//! Stage manager decisions on pointer, keyboard and timer events. Each function decides; the
//! caller performs the effects it is handed and then re-lays out the workspace when told that
//! something changed.

use vstd::prelude::*;
use crate::config::StageManagerConfig;
use crate::stage::group::WindowId;
use crate::stage::state::{
    FocusDirection, StageAction, StageManagerState, StageView, WorkspaceInfo, active_windows_of,
    force_to_cast_spec, is_cast, is_stage, strip_neighbor,
    dragged_to_cast_spec, dragged_to_stage_spec, parallel_active, set_stage_single_spec,
    tick_auto_use_as_main_spec,
};

verus! {

/// Place a window dropped from another monitor onto the stage or cast strip: the state after,
/// the effects and whether anything changed.
pub open spec fn cross_monitor_move_finish_spec(
    m: StageView,
    ws: WorkspaceInfo,
    max_cast: usize,
    window: WindowId,
) -> (StageView, Seq<StageAction>, bool) {
    if m.active matches Some(g) && g.1.len() == 1 && g.1[0] == window {
        (m, seq![], false)
    } else if m.active matches Some(g) && g.1.len() > 0 {
        let r = force_to_cast_spec(m, ws, window, max_cast);
        (r.0, seq![StageAction::SaveActiveSizes] + r.1, true)
    } else {
        let r = set_stage_single_spec(m, ws, window, max_cast);
        (r.0, seq![StageAction::SaveActiveSizes] + r.1, true)
    }
}

/// End of a drag from the strip (or stage) at a pointer position that lies in the stage area
/// (`in_stage_area`) or the strip area (`in_stack_area`).
pub open spec fn strip_drag_end_spec(
    m: StageView,
    ws: WorkspaceInfo,
    max_cast: usize,
    window: WindowId,
    in_stage_area: bool,
    in_stack_area: bool,
) -> (StageView, Seq<StageAction>, bool) {
    if in_stage_area {
        let r = dragged_to_stage_spec(m, ws, window, max_cast);
        (r.0, seq![StageAction::SaveActiveSizes] + r.1, r.2)
    } else if in_stack_area && is_stage(m, window) {
        let r = dragged_to_cast_spec(m, ws, window, max_cast);
        (r.0, seq![StageAction::SaveActiveSizes] + r.1, r.2)
    } else {
        (m, seq![], false)
    }
}

/// Promote a focused cast slot to main after the dwell delay (see
/// [`tick_auto_use_as_main_spec`]); `now` is in nanoseconds of the layout clock.
pub fn tick_auto_use_as_main(
    state: &mut StageManagerState,
    ws: &WorkspaceInfo,
    config: &StageManagerConfig,
    suppress: bool,
    focused: Option<WindowId>,
    now: u64,
    effects: &mut Vec<StageAction>,
) -> (r: bool)
    requires
        old(state)@.cast.len() + old(state)@.hidden.len() <= usize::MAX,
    ensures
        final(state)@ == tick_auto_use_as_main_spec(
            old(state)@,
            *ws,
            config.auto_use_as_main,
            config.auto_use_as_main_delay_ms,
            config.max_cast_groups,
            suppress,
            focused,
            now,
        ).0,
        final(effects)@ == old(effects)@ + tick_auto_use_as_main_spec(
            old(state)@,
            *ws,
            config.auto_use_as_main,
            config.auto_use_as_main_delay_ms,
            config.max_cast_groups,
            suppress,
            focused,
            now,
        ).1,
        r == tick_auto_use_as_main_spec(
            old(state)@,
            *ws,
            config.auto_use_as_main,
            config.auto_use_as_main_delay_ms,
            config.max_cast_groups,
            suppress,
            focused,
            now,
        ).2,
{
    state.tick_auto_use_as_main(
        ws,
        config.auto_use_as_main,
        config.auto_use_as_main_delay_ms,
        config.max_cast_groups,
        suppress,
        focused,
        now,
        effects,
    )
}

/// Place a window dropped from another monitor onto the stage or cast strip.
pub fn cross_monitor_move_finish(
    state: &mut StageManagerState,
    ws: &WorkspaceInfo,
    config: &StageManagerConfig,
    window: WindowId,
    effects: &mut Vec<StageAction>,
) -> (r: bool)
    ensures
        final(state)@ == cross_monitor_move_finish_spec(
            old(state)@,
            *ws,
            config.max_cast_groups,
            window,
        ).0,
        final(effects)@ == old(effects)@ + cross_monitor_move_finish_spec(
            old(state)@,
            *ws,
            config.max_cast_groups,
            window,
        ).1,
        r == cross_monitor_move_finish_spec(old(state)@, *ws, config.max_cast_groups, window).2,
{
    let act = state.active_windows();
    if act.len() == 1 && act[0] == window && state.stage_has_main() {
        proof {
            assert(effects@ =~= old(effects)@ + seq![]);
        }
        return false;
    }
    effects.push(StageAction::SaveActiveSizes);
    let ghost e1 = effects@;
    if state.stage_has_main() {
        state.force_window_to_cast(ws, window, config.max_cast_groups, effects);
    } else {
        state.set_stage_single(ws, window, config.max_cast_groups, effects);
    }
    proof {
        let r = cross_monitor_move_finish_spec(old(state)@, *ws, config.max_cast_groups, window);
        assert(effects@ =~= old(effects)@ + r.1);
    }
    true
}

/// End of a drag from the strip (or the stage): merge onto the stage when dropped on the stage
/// area, send a stage window to the strip when dropped on the strip area.
pub fn strip_drag_end(
    state: &mut StageManagerState,
    ws: &WorkspaceInfo,
    config: &StageManagerConfig,
    window: WindowId,
    in_stage_area: bool,
    in_stack_area: bool,
    effects: &mut Vec<StageAction>,
) -> (r: bool)
    ensures
        final(state)@ == strip_drag_end_spec(
            old(state)@,
            *ws,
            config.max_cast_groups,
            window,
            in_stage_area,
            in_stack_area,
        ).0,
        final(effects)@ == old(effects)@ + strip_drag_end_spec(
            old(state)@,
            *ws,
            config.max_cast_groups,
            window,
            in_stage_area,
            in_stack_area,
        ).1,
        r == strip_drag_end_spec(
            old(state)@,
            *ws,
            config.max_cast_groups,
            window,
            in_stage_area,
            in_stack_area,
        ).2,
{
    if in_stage_area {
        effects.push(StageAction::SaveActiveSizes);
        let ghost e1 = effects@;
        let r = state.on_window_dragged_to_stage(ws, window, config.max_cast_groups, effects);
        proof {
            let s = strip_drag_end_spec(
                old(state)@,
                *ws,
                config.max_cast_groups,
                window,
                in_stage_area,
                in_stack_area,
            );
            assert(effects@ =~= old(effects)@ + s.1);
        }
        r
    } else if in_stack_area && state.is_stage_window(window) {
        effects.push(StageAction::SaveActiveSizes);
        let r = state.on_window_dragged_to_cast(ws, window, config.max_cast_groups, effects);
        proof {
            let s = strip_drag_end_spec(
                old(state)@,
                *ws,
                config.max_cast_groups,
                window,
                in_stage_area,
                in_stack_area,
            );
            assert(effects@ =~= old(effects)@ + s.1);
        }
        r
    } else {
        proof {
            assert(effects@ =~= old(effects)@ + seq![]);
        }
        false
    }
}

/// Pointer moved; `hovered` is the strip slot under the pointer when the pointer is in the
/// strip area. Tells whether the hovered slot changed.
pub fn pointer_motion(state: &mut StageManagerState, hovered: Option<usize>) -> (r: bool)
    ensures
        parallel_active(old(state)@) ==> !r && final(state)@ == old(state)@,
        !parallel_active(old(state)@) ==> r == (old(state)@.hovered_cast != hovered),
        !parallel_active(old(state)@) ==> final(state)@ == (StageView {
            hovered_cast: hovered,
            ..old(state)@
        }),
{
    if state.parallel_stage_active() {
        return false;
    }
    state.set_hovered_cast(hovered)
}

/// A step of leaving stage manager mode.
#[derive(Debug, Clone, Copy, PartialEq, Eq, Structural)]
pub enum DisableStep {
    /// Drop the window's strip-thumbnail geometry.
    ClearThumb { window: WindowId },
    /// Move the window's tile from the floating space back to the scrolling layout.
    MoveToScrolling { window: WindowId },
    /// Make the floating space inactive.
    SetFloatingInactive,
    /// Reset the scrolling view offset.
    ResetViewOffset,
}

/// The steps that take a workspace out of stage manager mode, given its floating windows in
/// order: thumbnails cleared first, then each window moved back, then the spaces reset.
pub open spec fn disable_steps(floating: Seq<WindowId>) -> Seq<DisableStep> {
    floating.map_values(|w: WindowId| DisableStep::ClearThumb { window: w }) + floating.map_values(
        |w: WindowId| DisableStep::MoveToScrolling { window: w },
    ) + seq![DisableStep::SetFloatingInactive, DisableStep::ResetViewOffset]
}

pub fn disable(floating: &Vec<WindowId>) -> (r: Vec<DisableStep>)
    ensures
        r@ == disable_steps(floating@),
{
    let mut out: Vec<DisableStep> = Vec::new();
    let mut i: usize = 0;
    while i < floating.len()
        invariant
            i <= floating@.len(),
            out@ == floating@.take(i as int).map_values(
                |w: WindowId| DisableStep::ClearThumb { window: w },
            ),
        decreases floating@.len() - i,
    {
        out.push(DisableStep::ClearThumb { window: floating[i] });
        proof {
            assert(out@ =~= floating@.take(i + 1).map_values(
                |w: WindowId| DisableStep::ClearThumb { window: w },
            ));
        }
        i += 1;
    }
    let ghost first = out@;
    let mut j: usize = 0;
    while j < floating.len()
        invariant
            j <= floating@.len(),
            out@ == first + floating@.take(j as int).map_values(
                |w: WindowId| DisableStep::MoveToScrolling { window: w },
            ),
        decreases floating@.len() - j,
    {
        out.push(DisableStep::MoveToScrolling { window: floating[j] });
        proof {
            assert(out@ =~= first + floating@.take(j + 1).map_values(
                |w: WindowId| DisableStep::MoveToScrolling { window: w },
            ));
        }
        j += 1;
    }
    out.push(DisableStep::SetFloatingInactive);
    out.push(DisableStep::ResetViewOffset);
    proof {
        assert(floating@.take(i as int) =~= floating@);
        assert(out@ =~= disable_steps(floating@));
    }
    out
}


/// Where keyboard focus moves in a direction.
#[derive(Debug)]
pub enum FocusMove {
    /// The focused window is in the strip: to this strip thumbnail (`None`: nowhere).
    Strip(Option<WindowId>),
    /// The focused window is on the stage: to the nearest of these stage windows in that
    /// direction, by their positions.
    Stage(Vec<WindowId>),
    /// The focused window is not the stage manager's: the layout's own focus move applies.
    Elsewhere,
}

/// Focus moves that keep strip navigation off the stage: along the strip from a strip
/// window, among the stage windows from a stage window.
pub fn try_focus_neighbor(
    state: &StageManagerState,
    config: &StageManagerConfig,
    active: Option<WindowId>,
    direction: FocusDirection,
) -> (r: FocusMove)
    ensures
        match active {
            None => r is Elsewhere,
            Some(a) => if is_cast(state@, a) {
                r == FocusMove::Strip(strip_neighbor(state@, config.stack_position, a, direction))
            } else if is_stage(state@, a) {
                r matches FocusMove::Stage(ws) && ws@ == active_windows_of(state@)
            } else {
                r is Elsewhere
            },
        },
{
    let a = match active {
        Some(a) => a,
        None => {
            return FocusMove::Elsewhere;
        },
    };
    if state.is_cast_window(a) {
        return FocusMove::Strip(state.focus_cast_stack_neighbor(config.stack_position, a, direction));
    }
    if state.is_stage_window(a) {
        return FocusMove::Stage(state.active_windows());
    }
    FocusMove::Elsewhere
}

} // verus!
