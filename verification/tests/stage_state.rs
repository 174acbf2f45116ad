use niri::config::{StackPosition, StageManagerConfig};
use niri::stage::group::StageGroup;
use niri::stage::policy::{disable, DisableStep};
use niri::stage::state::{
    FocusDirection, StageAction, StageManagerState, WindowInfo, WorkspaceInfo,
};

fn ws(ids: &[(u64, u64)]) -> WorkspaceInfo {
    WorkspaceInfo {
        stack_by_app: false,
        windows: ids
            .iter()
            .map(|&(id, key)| WindowInfo { id, stack_key: key, parent: None })
            .collect(),
    }
}

fn stage(s: &StageManagerState) -> Vec<u64> {
    s.active_group.as_ref().map(|g| g.windows.clone()).unwrap_or_default()
}

fn groups(gs: &[StageGroup]) -> Vec<Vec<u64>> {
    gs.iter().map(|g| g.windows.clone()).collect()
}

fn add_all(s: &mut StageManagerState, w: &WorkspaceInfo, ids: &[u64], max: usize) {
    let mut fx = Vec::new();
    for &id in ids {
        s.on_window_added(w, id, max, &mut fx);
    }
    assert!(fx.is_empty());
}

#[test]
fn first_window_goes_on_stage_and_others_to_the_strip() {
    let w = ws(&[(1, 1), (2, 2), (3, 3)]);
    let mut s = StageManagerState::new();
    add_all(&mut s, &w, &[1, 2, 3], 6);
    assert_eq!(stage(&s), vec![1]);
    assert_eq!(groups(&s.cast_groups), vec![vec![3], vec![2]]);
    assert!(s.hidden_groups.is_empty());
    assert!(s.is_stage_window(1));
    assert!(s.is_cast_window(2));
    assert!(!s.is_cast_window(1));
    assert!(s.stage_has_main());
    assert_eq!(s.all_managed_windows(), vec![1, 3, 2]);
}

#[test]
fn strip_overflow_goes_hidden_in_order() {
    let w = ws(&[(1, 1), (2, 2), (3, 3), (4, 4), (5, 5)]);
    let mut s = StageManagerState::new();
    add_all(&mut s, &w, &[1, 2, 3, 4, 5], 2);
    assert_eq!(stage(&s), vec![1]);
    assert_eq!(groups(&s.cast_groups), vec![vec![5], vec![4]]);
    assert_eq!(groups(&s.hidden_groups), vec![vec![3], vec![2]]);
    assert_eq!(s.total_strip_groups(), 4);
    assert_eq!(s.cast_index_for(3), Some(2));
    assert_eq!(s.strip_front_at(3), Some(2));
    assert_eq!(s.strip_front_at(4), None);
}

#[test]
fn closing_the_stage_window_brings_the_first_strip_group() {
    let w = ws(&[(1, 1), (2, 2), (3, 3), (4, 4), (5, 5)]);
    let mut s = StageManagerState::new();
    add_all(&mut s, &w, &[1, 2, 3, 4, 5], 2);
    let mut fx = Vec::new();
    assert_eq!(s.on_window_removed(1, 2, &mut fx), None);
    assert!(fx.is_empty());
    assert_eq!(stage(&s), vec![5]);
    assert_eq!(groups(&s.cast_groups), vec![vec![4]]);
    assert_eq!(groups(&s.hidden_groups), vec![vec![3], vec![2]]);
    assert_eq!(s.on_window_removed(3, 2, &mut fx), None);
    assert_eq!(groups(&s.hidden_groups), vec![vec![2]]);
    assert!(!s.all_managed_windows().contains(&3));
}

#[test]
fn first_activation_of_a_new_strip_window_is_deferred() {
    let w = ws(&[(1, 1), (2, 2)]);
    let mut s = StageManagerState::new();
    add_all(&mut s, &w, &[1, 2], 6);
    let mut fx = Vec::new();
    assert!(!s.on_window_activated(&w, 2, 6, &mut fx));
    assert_eq!(stage(&s), vec![1]);
    assert!(s.on_window_activated(&w, 2, 6, &mut fx));
    assert_eq!(stage(&s), vec![2]);
    assert_eq!(groups(&s.cast_groups), vec![vec![1]]);
    assert_eq!(
        fx,
        vec![
            StageAction::ParkForCast { window: 1, save_position: true },
            StageAction::RestoreSavedPosition { window: 2 },
        ]
    );
}

#[test]
fn promoting_a_strip_window_replaces_the_stage() {
    let w = ws(&[(1, 1), (2, 2), (3, 3)]);
    let mut s = StageManagerState::new();
    add_all(&mut s, &w, &[1, 2, 3], 6);
    let mut fx = Vec::new();
    assert!(s.promote_cast_to_stage(&w, 2, 6, &mut fx));
    assert_eq!(stage(&s), vec![2]);
    assert_eq!(groups(&s.cast_groups), vec![vec![1], vec![3]]);
    assert!(!s.promote_cast_to_stage(&w, 2, 6, &mut fx));
    assert!(!s.promote_cast_to_stage(&w, 99, 6, &mut fx));
}

#[test]
fn toggle_main_sends_the_stage_window_to_the_strip_and_back() {
    let w = ws(&[(1, 1), (2, 2)]);
    let mut s = StageManagerState::new();
    add_all(&mut s, &w, &[1, 2], 6);
    let mut fx = Vec::new();
    assert!(s.toggle_main(&w, 1, 6, &mut fx));
    assert!(s.active_group.is_none());
    assert_eq!(groups(&s.cast_groups), vec![vec![1], vec![2]]);
    assert_eq!(fx, vec![StageAction::ParkForCast { window: 1, save_position: true }]);
    fx.clear();
    assert!(s.toggle_main(&w, 1, 6, &mut fx));
    assert_eq!(stage(&s), vec![1]);
    assert_eq!(groups(&s.cast_groups), vec![vec![2]]);
}

#[test]
fn dragging_to_the_stage_shows_two_windows_in_parallel() {
    let w = ws(&[(1, 1), (2, 2), (3, 3)]);
    let mut s = StageManagerState::new();
    add_all(&mut s, &w, &[1, 2, 3], 6);
    let mut fx = Vec::new();
    assert!(s.on_window_dragged_to_stage(&w, 2, 6, &mut fx));
    assert_eq!(stage(&s), vec![2, 1]);
    assert!(s.parallel_stage_active());
    assert_eq!(s.primary_stage_windows(), vec![2, 1]);
    assert_eq!(
        fx,
        vec![
            StageAction::ClearDefaultLayout { window: 2 },
            StageAction::ClearDefaultLayout { window: 1 },
        ]
    );
    fx.clear();
    // A third window replaces the second one, which goes back to the strip.
    assert!(s.on_window_dragged_to_stage(&w, 3, 6, &mut fx));
    assert_eq!(stage(&s), vec![3, 2]);
    assert_eq!(groups(&s.cast_groups), vec![vec![1]]);
    assert_eq!(fx[0], StageAction::ParkForCast { window: 1, save_position: false });
    // Dragging a stage window back to the strip.
    fx.clear();
    assert!(s.on_window_dragged_to_cast(&w, 3, 6, &mut fx));
    assert_eq!(stage(&s), vec![2]);
    assert_eq!(groups(&s.cast_groups), vec![vec![3], vec![1]]);
    assert!(!s.on_window_dragged_to_cast(&w, 1, 6, &mut fx));
}

#[test]
fn promote_parallel_needs_a_strip_window() {
    let w = ws(&[(1, 1), (2, 2)]);
    let mut s = StageManagerState::new();
    add_all(&mut s, &w, &[1, 2], 6);
    let mut fx = Vec::new();
    assert!(!s.promote_parallel(&w, 1, 6, &mut fx));
    assert!(s.promote_parallel(&w, 2, 6, &mut fx));
    assert_eq!(stage(&s), vec![2, 1]);
}

#[test]
fn stacking_by_app_shares_a_slot() {
    let mut w = ws(&[(1, 10), (2, 20), (3, 20), (4, 30)]);
    w.stack_by_app = true;
    let mut s = StageManagerState::new();
    add_all(&mut s, &w, &[1, 2, 3, 4], 6);
    assert_eq!(stage(&s), vec![1]);
    assert_eq!(groups(&s.cast_groups), vec![vec![4], vec![3, 2]]);
    assert_eq!(s.cast_group_front_for(2), Some(3));
    assert_eq!(s.cast_stack_window_ids(), vec![4, 3]);
}

#[test]
fn a_dialog_of_the_stage_window_takes_the_stage_until_it_closes() {
    let mut w = ws(&[(1, 1), (2, 2)]);
    let mut s = StageManagerState::new();
    add_all(&mut s, &w, &[1, 2], 6);
    w.windows.push(WindowInfo { id: 3, stack_key: 3, parent: Some(1) });
    let mut fx = Vec::new();
    assert!(s.is_stage_child_of_active(&w, 3));
    s.on_window_added(&w, 3, 6, &mut fx);
    assert_eq!(stage(&s), vec![3]);
    assert_eq!(groups(&s.cast_groups), vec![vec![1], vec![2]]);
    assert_eq!(fx, vec![StageAction::ParkForCast { window: 1, save_position: true }]);
    assert!(s.is_stage_dialog(3));
    assert!(s.has_stage_modal_overlay());
    fx.clear();
    assert_eq!(s.on_window_removed(3, 6, &mut fx), Some(1));
    assert_eq!(stage(&s), vec![1]);
    assert_eq!(groups(&s.cast_groups), vec![vec![2]]);
    assert_eq!(fx, vec![StageAction::RestoreSavedPosition { window: 1 }]);
}

#[test]
fn a_closed_stage_dialog_gives_its_parent_back_with_a_full_strip() {
    let mut w = ws(&[(1, 1), (2, 2), (3, 3)]);
    let mut s = StageManagerState::new();
    add_all(&mut s, &w, &[1, 2, 3], 1);
    w.windows.push(WindowInfo { id: 4, stack_key: 4, parent: Some(1) });
    let mut fx = Vec::new();
    s.on_window_added(&w, 4, 1, &mut fx);
    assert_eq!(s.active_windows(), vec![4]);
    assert!(s.is_cast_window(1));
    assert!(s.is_stage_dialog(4));
    fx.clear();
    assert_eq!(s.on_window_removed(4, 1, &mut fx), Some(1));
    assert_eq!(s.active_windows(), vec![1]);
    assert!(!s.is_cast_window(1));
    assert!(!s.is_cast_window(4));
    assert!(!s.is_stage_dialog(4));
}

#[test]
fn interactive_move_keeps_the_window() {
    let w = ws(&[(1, 1), (2, 2)]);
    let mut s = StageManagerState::new();
    add_all(&mut s, &w, &[1, 2], 6);
    s.begin_interactive_move_stage(1);
    assert!(s.is_interactive_move_of(1));
    let mut fx = Vec::new();
    assert_eq!(s.on_window_removed(1, 6, &mut fx), None);
    assert_eq!(stage(&s), vec![1]);
    s.end_interactive_move_stage();
    assert!(!s.is_interactive_move_of(1));
}

#[test]
fn force_to_cast_moves_a_window_to_the_strip() {
    let w = ws(&[(1, 1), (2, 2)]);
    let mut s = StageManagerState::new();
    add_all(&mut s, &w, &[1, 2], 6);
    let mut fx = Vec::new();
    assert!(s.force_window_to_cast(&w, 1, 6, &mut fx));
    assert!(s.active_group.is_none());
    assert_eq!(groups(&s.cast_groups), vec![vec![1], vec![2]]);
    assert_eq!(fx, vec![StageAction::ParkForCast { window: 1, save_position: true }]);
}

#[test]
fn rebuilding_from_the_workspace_groups_by_key() {
    let w = ws(&[(1, 10), (2, 20), (3, 10), (4, 30)]);
    let s = StageManagerState::from_workspace(&w, Some(2), 6);
    assert_eq!(stage(&s), vec![2]);
    assert_eq!(groups(&s.cast_groups), vec![vec![3, 1], vec![4]]);
    let s = StageManagerState::from_workspace(&w, None, 6);
    assert_eq!(stage(&s), vec![1]);
    assert_eq!(groups(&s.cast_groups), vec![vec![3], vec![2], vec![4]]);
    let s = StageManagerState::from_workspace(&ws(&[]), None, 6);
    assert!(s.active_group.is_none());
}

#[test]
fn rebuilding_from_the_workspace_caps_the_strip() {
    let w = ws(&[(1, 10), (2, 20), (3, 30), (4, 40)]);
    let s = StageManagerState::from_workspace(&w, Some(1), 1);
    assert_eq!(stage(&s), vec![1]);
    assert_eq!(groups(&s.cast_groups), vec![vec![2]]);
    assert_eq!(groups(&s.hidden_groups), vec![vec![3], vec![4]]);
    let s = StageManagerState::from_workspace(&w, Some(1), 3);
    assert_eq!(groups(&s.cast_groups), vec![vec![2], vec![3], vec![4]]);
    assert!(s.hidden_groups.is_empty());
}

#[test]
fn keyboard_focus_moves_along_the_strip_axis() {
    let w = ws(&[(1, 1), (2, 2), (3, 3), (4, 4)]);
    let mut s = StageManagerState::new();
    add_all(&mut s, &w, &[1, 2, 3, 4], 6);
    assert_eq!(s.cast_stack_window_ids(), vec![4, 3, 2]);
    let left = StackPosition::Left;
    assert_eq!(s.focus_cast_stack_neighbor(left, 3, FocusDirection::Down), Some(2));
    assert_eq!(s.focus_cast_stack_neighbor(left, 3, FocusDirection::Up), Some(4));
    assert_eq!(s.focus_cast_stack_neighbor(left, 4, FocusDirection::Up), None);
    assert_eq!(s.focus_cast_stack_neighbor(left, 3, FocusDirection::Left), None);
    let top = StackPosition::Top;
    assert_eq!(s.focus_cast_stack_neighbor(top, 3, FocusDirection::Right), Some(2));
    assert_eq!(s.focus_cast_stack_neighbor(top, 1, FocusDirection::Right), None);
}

#[test]
fn hovering_and_timers() {
    let w = ws(&[(1, 1), (2, 2)]);
    let mut s = StageManagerState::new();
    add_all(&mut s, &w, &[1, 2], 6);
    assert!(s.set_hovered_cast(Some(0)));
    assert!(!s.set_hovered_cast(Some(0)));
    assert_eq!(s.hovered_cast, Some(0));
    s.clear_pointer_hover();
    assert_eq!(s.hovered_cast, None);
    assert!(!s.auto_use_as_main_timer_active(true));
}

#[test]
fn disabling_moves_floating_windows_back() {
    let steps = disable(&vec![7, 8]);
    assert_eq!(
        steps,
        vec![
            DisableStep::ClearThumb { window: 7 },
            DisableStep::ClearThumb { window: 8 },
            DisableStep::MoveToScrolling { window: 7 },
            DisableStep::MoveToScrolling { window: 8 },
            DisableStep::SetFloatingInactive,
            DisableStep::ResetViewOffset,
        ]
    );
    assert_eq!(
        disable(&vec![]),
        vec![DisableStep::SetFloatingInactive, DisableStep::ResetViewOffset]
    );
}

#[test]
fn default_config_values() {
    let c = StageManagerConfig::default();
    assert_eq!(c.max_cast_groups, 6);
    assert_eq!(c.auto_use_as_main_delay_ms, 2000);
}

fn distinct(v: &[u64]) -> bool {
    let mut seen = std::collections::HashSet::new();
    v.iter().all(|x| seen.insert(*x))
}

#[test]
fn every_window_stays_managed_exactly_once() {
    let mut w = ws(&[(1, 1), (2, 1), (3, 2), (4, 3), (5, 3)]);
    w.stack_by_app = true;
    let mut s = StageManagerState::new();
    let mut fx = Vec::new();
    for id in 1..=5 {
        s.on_window_added(&w, id, 2, &mut fx);
        assert!(distinct(&s.all_managed_windows()));
    }
    let mut all = s.all_managed_windows();
    all.sort();
    assert_eq!(all, vec![1, 2, 3, 4, 5]);
    s.on_window_dragged_to_stage(&w, 4, 2, &mut fx);
    assert!(distinct(&s.all_managed_windows()));
    s.promote_cast_to_stage(&w, 2, 2, &mut fx);
    assert!(distinct(&s.all_managed_windows()));
    s.toggle_main(&w, 3, 2, &mut fx);
    assert!(distinct(&s.all_managed_windows()));
    s.force_window_to_cast(&w, 5, 2, &mut fx);
    assert!(distinct(&s.all_managed_windows()));
    s.on_window_removed(1, 2, &mut fx);
    let mut all = s.all_managed_windows();
    assert!(distinct(&all));
    all.sort();
    assert_eq!(all, vec![2, 3, 4, 5]);
    assert!(s.cast_groups.len() <= 2);
    assert!(s.cast_groups.iter().all(|g| !g.windows.is_empty()));
    assert!(s.hidden_groups.iter().all(|g| !g.windows.is_empty()));
}
