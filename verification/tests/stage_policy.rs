use niri::config::StageManagerConfig;
use niri::stage::policy::{
    cross_monitor_move_finish, pointer_motion, strip_drag_end, tick_auto_use_as_main,
    try_focus_neighbor, FocusMove,
};
use niri::stage::state::{FocusDirection, StageAction, StageManagerState, WindowInfo, WorkspaceInfo};

fn ws(ids: &[u64]) -> WorkspaceInfo {
    WorkspaceInfo {
        stack_by_app: false,
        windows: ids.iter().map(|&id| WindowInfo { id, stack_key: id, parent: None }).collect(),
    }
}

fn stage(s: &StageManagerState) -> Vec<u64> {
    s.active_group.as_ref().map(|g| g.windows.clone()).unwrap_or_default()
}

fn strip(s: &StageManagerState) -> Vec<Vec<u64>> {
    s.cast_groups.iter().map(|g| g.windows.clone()).collect()
}

fn setup(ids: &[u64]) -> (StageManagerState, WorkspaceInfo) {
    let w = ws(ids);
    let mut s = StageManagerState::new();
    let mut fx = Vec::new();
    for &id in ids {
        s.on_window_added(&w, id, 6, &mut fx);
    }
    (s, w)
}

const MS: u64 = 1_000_000;

#[test]
fn dwell_timer_promotes_the_focused_slot_after_the_delay() {
    let (mut s, w) = setup(&[1, 2, 3]);
    let mut config = StageManagerConfig::default();
    config.auto_use_as_main = true;
    config.auto_use_as_main_delay_ms = 500;
    let mut fx = Vec::new();
    // Focus lands on window 2 (second strip slot): the timer starts.
    assert!(tick_auto_use_as_main(&mut s, &w, &config, false, Some(2), 1000 * MS, &mut fx));
    assert!(s.auto_use_as_main_timer_active(true));
    assert_eq!(stage(&s), vec![1]);
    // Not yet.
    assert!(!tick_auto_use_as_main(&mut s, &w, &config, false, Some(2), 1400 * MS, &mut fx));
    assert_eq!(stage(&s), vec![1]);
    assert!(fx.is_empty());
    // The delay has passed.
    assert!(tick_auto_use_as_main(&mut s, &w, &config, false, Some(2), 1500 * MS, &mut fx));
    assert_eq!(stage(&s), vec![2]);
    assert_eq!(fx[0], StageAction::SaveActiveSizes);
    assert!(!s.auto_use_as_main_timer_active(true));
}

#[test]
fn dwell_timer_is_off_when_disabled_or_suppressed() {
    let (mut s, w) = setup(&[1, 2]);
    let mut config = StageManagerConfig::default();
    let mut fx = Vec::new();
    assert!(!tick_auto_use_as_main(&mut s, &w, &config, false, Some(2), 0, &mut fx));
    config.auto_use_as_main = true;
    assert!(!tick_auto_use_as_main(&mut s, &w, &config, true, Some(2), 0, &mut fx));
    assert!(!s.auto_use_as_main_timer_active(true));
    assert!(tick_auto_use_as_main(&mut s, &w, &config, false, Some(2), 0, &mut fx));
    s.clear_auto_use_as_main_timer();
    assert!(!s.auto_use_as_main_timer_active(true));
}

#[test]
fn a_window_from_another_monitor_goes_to_the_strip() {
    let (mut s, w) = setup(&[1, 2]);
    let config = StageManagerConfig::default();
    let mut fx = Vec::new();
    assert!(cross_monitor_move_finish(&mut s, &w, &config, 9, &mut fx));
    assert_eq!(stage(&s), vec![1]);
    assert_eq!(strip(&s), vec![vec![9], vec![2]]);
    assert_eq!(fx, vec![StageAction::SaveActiveSizes]);
    fx.clear();
    assert!(!cross_monitor_move_finish(&mut s, &w, &config, 1, &mut fx));
    assert!(fx.is_empty());
}

#[test]
fn a_window_from_another_monitor_takes_an_empty_stage() {
    let mut s = StageManagerState::new();
    let w = ws(&[4]);
    let config = StageManagerConfig::default();
    let mut fx = Vec::new();
    assert!(cross_monitor_move_finish(&mut s, &w, &config, 4, &mut fx));
    assert_eq!(stage(&s), vec![4]);
    assert_eq!(
        fx,
        vec![StageAction::SaveActiveSizes, StageAction::RestoreSavedPosition { window: 4 }]
    );
}

#[test]
fn drag_ends_decide_by_the_drop_area() {
    let (mut s, w) = setup(&[1, 2, 3]);
    let config = StageManagerConfig::default();
    let mut fx = Vec::new();
    assert!(!strip_drag_end(&mut s, &w, &config, 2, false, false, &mut fx));
    assert!(fx.is_empty());
    assert!(strip_drag_end(&mut s, &w, &config, 2, true, false, &mut fx));
    assert_eq!(stage(&s), vec![2, 1]);
    fx.clear();
    assert!(strip_drag_end(&mut s, &w, &config, 1, false, true, &mut fx));
    assert_eq!(stage(&s), vec![2]);
    assert_eq!(fx[0], StageAction::SaveActiveSizes);
    fx.clear();
    assert!(!strip_drag_end(&mut s, &w, &config, 3, false, true, &mut fx));
}

#[test]
fn hovering_is_ignored_while_two_windows_share_the_stage() {
    let (mut s, w) = setup(&[1, 2, 3]);
    assert!(pointer_motion(&mut s, Some(1)));
    assert!(!pointer_motion(&mut s, Some(1)));
    assert_eq!(s.hovered_cast, Some(1));
    let mut fx = Vec::new();
    s.on_window_dragged_to_stage(&w, 3, 6, &mut fx);
    assert!(!pointer_motion(&mut s, Some(0)));
}

#[test]
fn passive_focus_drops_the_click_deferral() {
    let (mut s, w) = setup(&[1, 2]);
    s.on_cast_focused_passive(2);
    let mut fx = Vec::new();
    // Without the deferral, the first activation promotes.
    assert!(s.on_window_activated(&w, 2, 6, &mut fx));
    assert_eq!(stage(&s), vec![2]);
}

#[test]
fn a_window_that_gains_a_parent_on_the_stage_becomes_its_dialog() {
    let (mut s, mut w) = setup(&[1, 2]);
    w.windows[1].parent = Some(1);
    let mut fx = Vec::new();
    assert!(s.on_parent_changed(&w, 2, 6, &mut fx));
    assert_eq!(stage(&s), vec![2]);
    assert_eq!(strip(&s), vec![vec![1]]);
    assert!(s.is_stage_dialog(2));
    assert!(!s.on_parent_changed(&w, 1, 6, &mut fx));
}

#[test]
fn raising_puts_the_focused_window_on_top() {
    let (mut s, w) = setup(&[1, 2]);
    let mut fx = Vec::new();
    s.on_window_dragged_to_stage(&w, 2, 6, &mut fx);
    assert_eq!(s.raise_stage_z_order(&w, Some(1)), vec![2, 1, 1]);
    assert_eq!(s.raise_stage_z_order(&w, None), vec![2, 1]);
    assert_eq!(s.resolve_activation_target(&w, 1), 1);
    assert_eq!(s.stage_modal_overlay_for_parent(&w, 1), None);
}

#[test]
fn focus_moves_stay_on_the_strip_or_the_stage() {
    let (mut s, w) = setup(&[1, 2, 3]);
    let config = StageManagerConfig::default();
    assert!(matches!(
        try_focus_neighbor(&s, &config, Some(3), FocusDirection::Down),
        FocusMove::Strip(Some(2))
    ));
    assert!(matches!(
        try_focus_neighbor(&s, &config, Some(3), FocusDirection::Right),
        FocusMove::Strip(None)
    ));
    let mut fx = Vec::new();
    s.on_window_dragged_to_stage(&w, 2, 6, &mut fx);
    match try_focus_neighbor(&s, &config, Some(1), FocusDirection::Left) {
        FocusMove::Stage(ws) => assert_eq!(ws, vec![2, 1]),
        other => panic!("unexpected {other:?}"),
    }
    assert!(matches!(try_focus_neighbor(&s, &config, Some(9), FocusDirection::Up), FocusMove::Elsewhere));
    assert!(matches!(try_focus_neighbor(&s, &config, None, FocusDirection::Up), FocusMove::Elsewhere));
}
