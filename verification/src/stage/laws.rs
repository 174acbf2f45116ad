//! Properties that hold of the stage manager's decisions on every input.

use vstd::prelude::*;
use crate::stage::policy::{cross_monitor_move_finish_spec, strip_drag_end_spec};
use crate::stage::group::{GroupView, WindowId, first_index, lemma_first_index, ne, to_front, without};
use crate::stage::state::{
    MAX_PARALLEL_STAGE, StageView, WorkspaceInfo, active_windows_of, dragged_to_cast_spec,
    dragged_to_stage_spec, enforce_cast_limit_spec, flat, groups_without, force_to_cast_spec, insert_all_spec,
    insert_into_cast_spec, kept, managed, on_parent_changed_spec, on_window_activated_spec,
    on_window_added_spec, on_window_removed_spec, open_stage_dialog_spec, promote_cast_to_stage_spec,
    promote_parallel_spec, set_stage_single_spec, take_out_of_group, toggle_main_spec,
    is_stage, is_cast, target_for, without_in_strip, popped, next_id, find_slot, key_of,
    stage_parent_on_stage_spec, remove_from_active, parent_ne, demote_active_spec, first_with,
    lemma_first_with_range, slot_matches, in_groups, stage_parent_of_spec, clear_timer, opt_usize,
    strip, strip_front, tick_auto_use_as_main_spec, parallel_active, StageAction, key_index,
    build_groups, place_groups, from_workspace_spec, placed_from_workspace, window_ids, refill_stage, dialog_parent, dialog_ne, active_after_close, is_dialog,
    overlay_for, resolve_activation, last_child_of, window_entry, strip_neighbor, fronts,
    FocusDirection, lemma_first_with,
};
use crate::config::StackPosition;

verus! {

// ---------------------------------------------------------------------------------------------
// Group lists.

pub proof fn lemma_flat_append(a: Seq<GroupView>, b: Seq<GroupView>)
    ensures
        flat(a + b) == flat(a) + flat(b),
    decreases b.len(),
{
    if b.len() == 0 {
        assert(a + b =~= a);
        assert(flat(b) =~= seq![]);
        assert(flat(a) + flat(b) =~= flat(a));
    } else {
        lemma_flat_append(a, b.drop_last());
        assert((a + b).drop_last() =~= a + b.drop_last());
        assert((a + b).last() == b.last());
        assert(flat(a) + flat(b) =~= flat(a) + flat(b.drop_last()) + b.last().1);
    }
}

/// Inserting windows into the strip leaves the stage as it was.
pub proof fn lemma_insert_all_keeps_stage(m: StageView, ws: WorkspaceInfo, wins: Seq<WindowId>)
    ensures
        insert_all_spec(m, ws, wins).active == m.active,
    decreases wins.len(),
{
    if wins.len() > 0 {
        lemma_insert_all_keeps_stage(m, ws, wins.drop_last());
    }
}


/// `without(s, id)` holds exactly the windows of `s` other than `id`.
pub proof fn lemma_without_contains(s: Seq<WindowId>, id: WindowId, x: WindowId)
    ensures
        without(s, id).contains(x) <==> (s.contains(x) && x != id),
{
    broadcast use vstd::seq_lib::group_filter_ensures;

    if without(s, id).contains(x) {
        s.lemma_filter_contains_rev(ne(id), x);
        let k = choose|k: int| 0 <= k < without(s, id).len() && without(s, id)[k] == x;
        assert(ne(id)(without(s, id)[k]));
    }
    if s.contains(x) && x != id {
        let k = choose|k: int| 0 <= k < s.len() && s[k] == x;
        assert(ne(id)(s[k]));
    }
}

/// Taking a window out of every group takes it out of the windows of the groups.
pub proof fn lemma_flat_groups_without(gs: Seq<GroupView>, id: WindowId)
    ensures
        flat(groups_without(gs, id)) == without(flat(gs), id),
    decreases gs.len(),
{
    broadcast use vstd::seq_lib::group_filter_ensures;
    broadcast use Seq::filter_distributes_over_add;

    if gs.len() == 0 {
        assert(flat(gs) =~= seq![]);
        assert(without(flat(gs), id) =~= seq![]);
    } else {
        lemma_flat_groups_without(gs.drop_last(), id);
        let rest = groups_without(gs.drop_last(), id);
        let g = gs.last();
        let w = without(g.1, id);
        assert(flat(gs) == flat(gs.drop_last()) + g.1);
        assert(without(flat(gs), id) == without(flat(gs.drop_last()), id) + w);
        if w.len() > 0 {
            assert(rest.push((g.0, w)).drop_last() =~= rest);
        } else {
            assert(without(flat(gs.drop_last()), id) + w =~= without(flat(gs.drop_last()), id));
        }
    }
}

/// Every group of `groups_without(gs, id)` is a nonempty group of `gs` with `id` taken out.
pub proof fn lemma_groups_without_groups(gs: Seq<GroupView>, id: WindowId, i: int)
    requires
        0 <= i < groups_without(gs, id).len(),
    ensures
        !groups_without(gs, id)[i].1.contains(id),
        groups_without(gs, id)[i].1.len() > 0,
    decreases gs.len(),
{
    broadcast use vstd::seq_lib::group_filter_ensures;

    if gs.len() > 0 {
        let rest = groups_without(gs.drop_last(), id);
        let w = without(gs.last().1, id);
        if i < rest.len() {
            lemma_groups_without_groups(gs.drop_last(), id, i);
        } else {
            lemma_without_contains(gs.last().1, id, id);
        }
    }
}

// ---------------------------------------------------------------------------------------------
// The cast limit.

/// Enforcing the cast limit leaves at most `max_cast` groups visible in the strip, and moves
/// the others to the front of the hidden overflow: the strip read in order (visible, then
/// hidden) is unchanged, so is the stage, and so is every managed window in its place.
pub proof fn law_enforce_cast_limit(m: StageView, max_cast: usize)
    ensures
        enforce_cast_limit_spec(m, max_cast).cast.len() <= max_cast,
        enforce_cast_limit_spec(m, max_cast).cast + enforce_cast_limit_spec(m, max_cast).hidden
            == m.cast + m.hidden,
        enforce_cast_limit_spec(m, max_cast).active == m.active,
        managed(enforce_cast_limit_spec(m, max_cast)) == managed(m),
        m.cast.len() <= max_cast ==> enforce_cast_limit_spec(m, max_cast) == m,
{
    let r = enforce_cast_limit_spec(m, max_cast);
    if m.cast.len() > max_cast {
        assert(r.cast + r.hidden =~= m.cast + m.hidden);
    }
    lemma_flat_append(r.cast, r.hidden);
    lemma_flat_append(m.cast, m.hidden);
    assert(managed(r) =~= active_windows_of(r) + flat(r.cast + r.hidden));
    assert(managed(m) =~= active_windows_of(m) + flat(m.cast + m.hidden));
}

/// Every window event leaves at most `max_cast` groups visible in the strip, when there were
/// at most that many before.
pub proof fn law_events_keep_cast_limit(
    m: StageView,
    ws: WorkspaceInfo,
    id: WindowId,
    max_cast: usize,
)
    requires
        m.cast.len() <= max_cast,
    ensures
        on_window_added_spec(m, ws, id, max_cast).0.cast.len() <= max_cast,
        on_window_removed_spec(m, id, max_cast).0.cast.len() <= max_cast,
        on_window_activated_spec(m, ws, id, max_cast).0.cast.len() <= max_cast,
        promote_cast_to_stage_spec(m, ws, id, max_cast).0.cast.len() <= max_cast,
        dragged_to_stage_spec(m, ws, id, max_cast).0.cast.len() <= max_cast,
        dragged_to_cast_spec(m, ws, id, max_cast).0.cast.len() <= max_cast,
        force_to_cast_spec(m, ws, id, max_cast).0.cast.len() <= max_cast,
        toggle_main_spec(m, ws, id, max_cast).0.cast.len() <= max_cast,
        promote_parallel_spec(m, ws, id, max_cast).0.cast.len() <= max_cast,
        on_parent_changed_spec(m, ws, id, max_cast).0.cast.len() <= max_cast,
{
    lemma_promote_keeps_cast_limit(m, ws, id, max_cast);
    lemma_set_stage_single_keeps_cast_limit(m, ws, id, max_cast);
}

proof fn lemma_set_stage_single_keeps_cast_limit(
    m: StageView,
    ws: WorkspaceInfo,
    id: WindowId,
    max_cast: usize,
)
    requires
        m.cast.len() <= max_cast,
    ensures
        set_stage_single_spec(m, ws, id, max_cast).0.cast.len() <= max_cast,
{
}

proof fn lemma_take_out_of_group_len(gs: Seq<GroupView>, i: int, t: WindowId)
    requires
        0 <= i < gs.len(),
    ensures
        take_out_of_group(gs, i, t).len() <= gs.len(),
{
}

proof fn lemma_promote_keeps_cast_limit(
    m: StageView,
    ws: WorkspaceInfo,
    id: WindowId,
    max_cast: usize,
)
    requires
        m.cast.len() <= max_cast,
    ensures
        promote_cast_to_stage_spec(m, ws, id, max_cast).0.cast.len() <= max_cast,
{
    crate::stage::state::lemma_first_with_range(m.cast, crate::stage::state::target_for(m, id));
    let t = crate::stage::state::target_for(m, id);
    match crate::stage::state::first_with(m.cast, t) {
        Some(i) => {
            lemma_take_out_of_group_len(m.cast, i, t);
        },
        None => {},
    }
}


// ---------------------------------------------------------------------------------------------
// The stage.

proof fn lemma_kept_len(s: Seq<WindowId>)
    ensures
        kept(s).len() <= 1,
{
}

/// Dragging a strip window onto the stage merges it into the stage group, which then holds
/// at most `MAX_PARALLEL_STAGE` windows, the dragged one among them; the same holds when the
/// focused strip app is shown in parallel on the stage.
pub proof fn law_drag_merge_stage_holds_at_most_two(
    m: StageView,
    ws: WorkspaceInfo,
    id: WindowId,
    max_cast: usize,
)
    ensures
        dragged_to_stage_spec(m, ws, id, max_cast).2 ==> {
            let a = active_windows_of(dragged_to_stage_spec(m, ws, id, max_cast).0);
            a.len() <= MAX_PARALLEL_STAGE && a.contains(id)
        },
        promote_parallel_spec(m, ws, id, max_cast).2 ==> {
            let a = active_windows_of(promote_parallel_spec(m, ws, id, max_cast).0);
            a.len() <= MAX_PARALLEL_STAGE && a.contains(target_for(m, id))
        },
{
    lemma_drag_merge(m, ws, id, max_cast);
    lemma_drag_merge(m, ws, target_for(m, id), max_cast);
}

proof fn lemma_drag_merge(m: StageView, ws: WorkspaceInfo, id: WindowId, max_cast: usize)
    ensures
        dragged_to_stage_spec(m, ws, id, max_cast).2 ==> {
            let a = active_windows_of(dragged_to_stage_spec(m, ws, id, max_cast).0);
            a.len() <= MAX_PARALLEL_STAGE && a.contains(id)
        },
{
    if !is_stage(m, id) {
        let m1 = without_in_strip(m, id);
        let demoted = match m1.active {
            Some(g) => popped(g.1),
            None => seq![],
        };
        let m2 = match m1.active {
            Some(g) => StageView {
                active: Some(
                    (
                        g.0,
                        if kept(g.1).contains(id) {
                            kept(g.1)
                        } else {
                            seq![id] + kept(g.1)
                        },
                    ),
                ),
                ..m1
            },
            None => StageView {
                active: Some((m1.next_group_id, seq![id])),
                next_group_id: next_id(m1.next_group_id),
                ..m1
            },
        };
        match m1.active {
            Some(g) => {
                lemma_kept_len(g.1);
                if !kept(g.1).contains(id) {
                    assert((seq![id] + kept(g.1))[0] == id);
                }
            },
            None => {
                assert(seq![id][0] == id);
            },
        }
        lemma_insert_all_keeps_stage(m2, ws, demoted);
        let m3 = insert_all_spec(m2, ws, demoted);
        let pair = m3.active matches Some(g) && g.1.len() == 2;
        let m4 = if pair {
            StageView {
                interaction_target: None,
                interaction_since: None,
                hovered_cast: None,
                ..m3
            }
        } else {
            m3
        };
        law_enforce_cast_limit(m4, max_cast);
    }
}

/// A window that opens is managed afterwards: on the stage or in the strip.
pub proof fn law_added_window_is_managed(
    m: StageView,
    ws: WorkspaceInfo,
    id: WindowId,
    max_cast: usize,
)
    ensures
        managed(on_window_added_spec(m, ws, id, max_cast).0).contains(id),
{
    let r = on_window_added_spec(m, ws, id, max_cast).0;
    if m.active is None && m.cast.len() == 0 && m.hidden.len() == 0 {
        assert(active_windows_of(r)[0] == id);
        assert(managed(r)[0] == id);
    } else if is_stage(m, id) {
        let g = m.active->Some_0;
        let f = to_front(g.1, id);
        assert(f[0] == id);
        assert(managed(r)[0] == id);
    } else {
        match stage_parent_on_stage_spec(m, ws, id) {
            Some(p) => {
                lemma_dialog_on_stage(m, ws, id, p, max_cast);
                let a = active_windows_of(open_stage_dialog_spec(m, ws, id, p, max_cast).0);
                assert(managed(r)[0] == a[0]);
            },
            None => {
                let m1 = StageView {
                    new_cast_windows: without(m.new_cast_windows, id).push(id),
                    ..m
                };
                lemma_inserted_in_front_group(m1, ws, id);
                let c = insert_into_cast_spec(m1, ws, id);
                law_enforce_cast_limit(c, max_cast);
                lemma_flat_append(seq![c.cast[0]], c.cast.drop_first());
                assert(seq![c.cast[0]] + c.cast.drop_first() =~= c.cast);
                assert(seq![c.cast[0]].drop_last() =~= Seq::<GroupView>::empty());
                assert(flat(Seq::<GroupView>::empty()) =~= Seq::<WindowId>::empty());
                assert(flat(seq![c.cast[0]]) =~= c.cast[0].1);
                assert(flat(c.cast)[0] == id);
                assert(flat(c.cast).contains(id));
                assert(managed(c) =~= active_windows_of(c) + flat(c.cast) + flat(c.hidden));
                let k = active_windows_of(c).len() as int;
                assert(managed(c)[k] == id);
            },
        }
    }
}

/// Inserting `id` into the strip puts it at the front of the first strip group.
pub proof fn lemma_inserted_in_front_group(m: StageView, ws: WorkspaceInfo, id: WindowId)
    ensures
        insert_into_cast_spec(m, ws, id).cast.len() > 0,
        insert_into_cast_spec(m, ws, id).cast[0].1.len() > 0,
        insert_into_cast_spec(m, ws, id).cast[0].1[0] == id,
        insert_into_cast_spec(m, ws, id).active == m.active,
{
    if ws.stack_by_app {
        match find_slot(ws, m.cast, key_of(ws, id)) {
            Some(idx) => {
                let g = m.cast[idx];
                if g.1.contains(id) {
                    assert(to_front(g.1, id)[0] == id);
                } else {
                    assert((seq![id] + g.1)[0] == id);
                }
            },
            None => {},
        }
    }
}

/// A dialog opening on a stage window is shown alone on the stage.
pub proof fn lemma_dialog_on_stage(
    m: StageView,
    ws: WorkspaceInfo,
    dialog: WindowId,
    parent: WindowId,
    max_cast: usize,
)
    ensures
        active_windows_of(open_stage_dialog_spec(m, ws, dialog, parent, max_cast).0) == seq![dialog],
{
    let m1 = StageView {
        new_cast_windows: without(m.new_cast_windows, dialog),
        ..without_in_strip(m, dialog)
    };
    let m2 = if is_stage(m1, parent) {
        insert_into_cast_spec(remove_from_active(m1, parent), ws, parent)
    } else {
        m1
    };
    let dp = m2.stage_dialog_parents.filter(parent_ne(parent)).push((dialog, parent));
    let m3 = without_in_strip(StageView { stage_dialog_parents: dp, ..m2 }, dialog);
    let m4 = StageView {
        active: Some((m3.next_group_id, seq![dialog])),
        next_group_id: next_id(m3.next_group_id),
        ..m3
    };
    law_enforce_cast_limit(m4, max_cast);
}

/// Putting a single window on the stage leaves exactly that window there.
pub proof fn lemma_stage_single(m: StageView, ws: WorkspaceInfo, id: WindowId, max_cast: usize)
    ensures
        active_windows_of(set_stage_single_spec(m, ws, id, max_cast).0) == seq![id],
{
    if !(m.active matches Some(g) && g.1 == seq![id]) {
        let was_parallel = m.active matches Some(g) && g.1.len() > 1;
        let m1 = without_in_strip(m, id);
        let (m2, a2) = demote_active_spec(m1, ws, !was_parallel);
        let m3 = without_in_strip(m2, id);
        let m4 = StageView {
            active: Some((m3.next_group_id, seq![id])),
            next_group_id: next_id(m3.next_group_id),
            ..m3
        };
        law_enforce_cast_limit(m4, max_cast);
    }
}

/// Choosing a strip window (click, task switcher) puts the front window of its strip group
/// alone on the stage, in place of what was there; this happens whenever the window is in
/// the strip and not on the stage.
pub proof fn law_promote_puts_window_on_stage(
    m: StageView,
    ws: WorkspaceInfo,
    id: WindowId,
    max_cast: usize,
)
    ensures
        !is_stage(m, id) && is_cast(m, target_for(m, id)) ==> promote_cast_to_stage_spec(
            m,
            ws,
            id,
            max_cast,
        ).2,
        promote_cast_to_stage_spec(m, ws, id, max_cast).2 ==> active_windows_of(
            promote_cast_to_stage_spec(m, ws, id, max_cast).0,
        ) == seq![target_for(m, id)],
{
    let t = target_for(m, id);
    lemma_first_with_range(m.cast, t);
    lemma_first_with_range(m.hidden, t);
    let m1 = StageView { new_cast_windows: without(m.new_cast_windows, t), ..m };
    match first_with(m1.cast, t) {
        Some(i) => {
            lemma_stage_single(
                StageView { cast: take_out_of_group(m1.cast, i, t), ..m1 },
                ws,
                t,
                max_cast,
            );
        },
        None => match first_with(m1.hidden, t) {
            Some(i) => {
                lemma_stage_single(
                    StageView { hidden: take_out_of_group(m1.hidden, i, t), ..m1 },
                    ws,
                    t,
                    max_cast,
                );
            },
            None => {},
        },
    }
}

/// Toggling the main window (`Mod+G`): a strip window, or a window sharing the stage, goes
/// alone onto the stage; the window alone on the stage goes back to the front of the strip,
/// leaving the stage empty.
pub proof fn law_toggle_main(m: StageView, ws: WorkspaceInfo, id: WindowId, max_cast: usize)
    requires
        max_cast >= 1,
    ensures
        ({
            let t = target_for(m, id);
            let r = toggle_main_spec(m, ws, id, max_cast).0;
            &&& is_cast(m, t) ==> active_windows_of(r) == seq![t]
            &&& (!is_cast(m, t) && is_stage(m, t) && active_windows_of(m) != seq![t])
                ==> active_windows_of(r) == seq![t]
            &&& (!is_cast(m, t) && active_windows_of(m) == seq![t]) ==> r.active is None
                && r.cast.len() > 0 && r.cast[0].1[0] == t
        }),
{
    let t = target_for(m, id);
    lemma_stage_single(m, ws, t, max_cast);
    if !is_cast(m, t) && active_windows_of(m) == seq![t] {
        assert(seq![t].contains(t) && seq![t][0] == t);
        assert(is_stage(m, t));
        let g = m.active->Some_0;
        assert(without(g.1, t).len() == 0) by {
            broadcast use vstd::seq_lib::group_filter_ensures;

            if without(g.1, t).len() > 0 {
                assert(ne(t)(without(g.1, t)[0]));
                lemma_without_contains(g.1, t, without(g.1, t)[0]);
            }
        }
        let m1 = remove_from_active(m, t);
        assert(m1.active is None);
        lemma_inserted_in_front_group(m1, ws, t);
        let c = insert_into_cast_spec(m1, ws, t);
        law_enforce_cast_limit(c, max_cast);
        let e = enforce_cast_limit_spec(c, max_cast);
        if c.cast.len() > max_cast {
            assert(e.cast[0] == c.cast[0]);
        }
    }
}



/// A window is in `a + b` when it is in `a` or in `b`.
pub proof fn lemma_contains_add(a: Seq<WindowId>, b: Seq<WindowId>, w: WindowId)
    ensures
        (a + b).contains(w) <==> (a.contains(w) || b.contains(w)),
{
    if (a + b).contains(w) {
        let k = choose|k: int| 0 <= k < (a + b).len() && (a + b)[k] == w;
        if k < a.len() {
            assert(a[k] == w);
        } else {
            assert(b[k - a.len()] == w);
        }
    }
    if a.contains(w) {
        let k = choose|k: int| 0 <= k < a.len() && a[k] == w;
        assert((a + b)[k] == w);
    }
    if b.contains(w) {
        let k = choose|k: int| 0 <= k < b.len() && b[k] == w;
        assert((a + b)[k + a.len()] == w);
    }
}

/// A window is managed when it is on the stage, in the visible strip or hidden.
pub proof fn lemma_managed_contains(m: StageView, w: WindowId)
    ensures
        managed(m).contains(w) <==> (active_windows_of(m).contains(w) || flat(m.cast).contains(w)
            || flat(m.hidden).contains(w)),
{
    lemma_contains_add(active_windows_of(m) + flat(m.cast), flat(m.hidden), w);
    lemma_contains_add(active_windows_of(m), flat(m.cast), w);
}

// ---------------------------------------------------------------------------------------------
// Closing windows.

/// The windows of the groups `gs` without their first group.
proof fn lemma_flat_drop_first(gs: Seq<GroupView>)
    requires
        gs.len() > 0,
    ensures
        flat(gs) == gs[0].1 + flat(gs.drop_first()),
{
    lemma_flat_append(seq![gs[0]], gs.drop_first());
    assert(seq![gs[0]] + gs.drop_first() =~= gs);
    assert(seq![gs[0]].drop_last() =~= Seq::<GroupView>::empty());
    assert(flat(Seq::<GroupView>::empty()) =~= Seq::<WindowId>::empty());
    assert(flat(seq![gs[0]]) =~= gs[0].1);
}

/// Moving the first strip group onto an empty stage keeps the managed windows in order.
proof fn lemma_refill_keeps_managed(m: StageView)
    ensures
        managed(refill_stage(m)) == managed(m),
{
    if m.active is None {
        if m.cast.len() > 0 {
            lemma_flat_drop_first(m.cast);
            assert(managed(refill_stage(m)) =~= managed(m));
        } else if m.hidden.len() > 0 {
            lemma_flat_drop_first(m.hidden);
            assert(flat(m.cast) =~= Seq::<WindowId>::empty());
            assert(managed(refill_stage(m)) =~= managed(m));
        }
    }
}

/// Closing a window that is not being moved interactively takes it out of the stage manager;
/// when it was a dialog shown on the stage, its parent is put back alone on the stage and
/// returned; otherwise every other managed window stays managed, and an emptied stage takes
/// the first strip group. (A dialog recorded as its own parent is left out: no event
/// records one.)
pub proof fn law_removed_window_leaves(m: StageView, id: WindowId, max_cast: usize)
    requires
        m.interactive_move_stage != Some(id),
        forall|k: int|
            0 <= k < m.stage_dialog_parents.len() ==> (#[trigger] m.stage_dialog_parents[k]).0
                != m.stage_dialog_parents[k].1,
    ensures
        ({
            let r = on_window_removed_spec(m, id, max_cast);
            &&& !managed(r.0).contains(id)
            &&& r.2 matches Some(p) ==> active_windows_of(r.0) == seq![p]
            &&& r.2 is None ==> forall|w: WindowId|
                #![trigger managed(r.0).contains(w)]
                managed(r.0).contains(w) <==> (managed(m).contains(w) && w != id)
        }),
{
    let restore = dialog_parent(m.stage_dialog_parents, id);
    lemma_dialog_parent_not_self(m.stage_dialog_parents, id);
    let m1 = StageView {
        stage_dialog_parents: m.stage_dialog_parents.filter(dialog_ne(id)),
        new_cast_windows: without(m.new_cast_windows, id),
        active: active_after_close(m.active, id),
        ..m
    };
    let m2 = without_in_strip(m1, id);
    lemma_flat_groups_without(m1.cast, id);
    lemma_flat_groups_without(m1.hidden, id);
    // The stage after the close, without `id`, and otherwise as before.
    assert forall|w: WindowId| #[trigger] active_windows_of(m1).contains(w) <==> (
    active_windows_of(m).contains(w) && w != id) by {
        match m.active {
            Some(g) => {
                lemma_without_contains(g.1, id, w);
                if g.1.contains(id) && without(g.1, id).len() == 0 {
                    if active_windows_of(m).contains(w) && w != id {
                        assert(without(g.1, id).contains(w));
                    }
                }
            },
            None => {},
        }
    }
    assert forall|w: WindowId| #[trigger] managed(m2).contains(w) <==> (managed(m).contains(w)
        && w != id) by {
        lemma_without_contains(flat(m.cast), id, w);
        lemma_without_contains(flat(m.hidden), id, w);
        lemma_managed_contains(m2, w);
        lemma_managed_contains(m, w);
        assert(active_windows_of(m2) == active_windows_of(m1));
        assert(active_windows_of(m1).contains(w) <==> (active_windows_of(m).contains(w) && w
            != id));
        assert(flat(m2.cast) == without(flat(m.cast), id));
        assert(flat(m2.hidden) == without(flat(m.hidden), id));
    }
    match restore {
        Some(p) => {
            let m3 = without_in_strip(m2, p);
            let m4 = StageView {
                active: Some((m3.next_group_id, seq![p])),
                next_group_id: next_id(m3.next_group_id),
                ..m3
            };
            law_enforce_cast_limit(m4, max_cast);
            lemma_flat_groups_without(m2.cast, p);
            lemma_flat_groups_without(m2.hidden, p);
            lemma_without_contains(flat(m2.cast), p, id);
            lemma_without_contains(flat(m2.hidden), p, id);
            lemma_without_contains(flat(m1.cast), id, id);
            lemma_without_contains(flat(m1.hidden), id, id);
            assert(!seq![p].contains(id)) by {
                if seq![p].contains(id) {
                    assert(seq![p][0] == id);
                }
            }
        },
        None => {
            lemma_refill_keeps_managed(m2);
            let m4 = enforce_cast_limit_spec(refill_stage(m2), max_cast);
            law_enforce_cast_limit(refill_stage(m2), max_cast);
            assert(managed(m2).contains(id) ==> false);
        },
    }
}

/// A dialog that opens on the window alone on the stage and then closes gives that window
/// back: while open, the dialog stands alone on the stage with its parent parked in the strip;
/// when it closes, the parent is returned and stands alone on the stage again, out of the
/// strip, and nothing of the dialog remains. (A dialog already recorded for another window is
/// left out: closing it would give that other window back.)
pub proof fn law_stage_dialog_round_trip(
    m: StageView,
    ws: WorkspaceInfo,
    d: WindowId,
    p: WindowId,
    max_cast: usize,
)
    requires
        active_windows_of(m) == seq![p],
        stage_parent_on_stage_spec(m, ws, d) == Some(p),
        !is_dialog(m.stage_dialog_parents, d),
        m.interactive_move_stage != Some(d),
    ensures
        ({
            let a = on_window_added_spec(m, ws, d, max_cast).0;
            let r = on_window_removed_spec(a, d, max_cast);
            &&& active_windows_of(a) == seq![d]
            &&& is_cast(a, p)
            &&& is_dialog(a.stage_dialog_parents, d)
            &&& r.2 == Some(p)
            &&& active_windows_of(r.0) == seq![p]
            &&& !is_cast(r.0, p)
            &&& !is_cast(r.0, d)
            &&& !is_dialog(r.0.stage_dialog_parents, d)
        }),
{
    assert(m.active is Some) by {
        if m.active is None {
            assert(seq![p].len() == 1);
        }
    }
    assert(d != p);
    assert(seq![p][0] == p);
    assert(!is_stage(m, d)) by {
        if seq![p].contains(d) {
            assert(seq![p][0] == d);
        }
    }
    let m1 = StageView {
        new_cast_windows: without(m.new_cast_windows, d),
        ..without_in_strip(m, d)
    };
    assert(is_stage(m1, p));
    let m2 = insert_into_cast_spec(remove_from_active(m1, p), ws, p);
    lemma_inserted_in_front_group(remove_from_active(m1, p), ws, p);
    assert(m2.cast[0].1.contains(p));
    lemma_in_groups_flat(m2.cast, p);
    let kept_dp = m.stage_dialog_parents.filter(parent_ne(p));
    let dp = kept_dp.push((d, p));
    lemma_not_dialog_filter(m.stage_dialog_parents, parent_ne(p), d);
    lemma_dialog_parent_push(kept_dp, d, p);
    let m3 = without_in_strip(StageView { stage_dialog_parents: dp, ..m2 }, d);
    lemma_flat_groups_without(m2.cast, d);
    lemma_without_contains(flat(m2.cast), d, p);
    let m4 = StageView {
        active: Some((m3.next_group_id, seq![d])),
        next_group_id: next_id(m3.next_group_id),
        ..m3
    };
    let a = enforce_cast_limit_spec(m4, max_cast);
    law_enforce_cast_limit(m4, max_cast);
    assert(a == on_window_added_spec(m, ws, d, max_cast).0);
    assert(dp[dp.len() - 1].0 == d);
    lemma_enforce_strip_contains(m4, max_cast, p);
    if flat(a.cast).contains(p) {
        lemma_flat_in_groups(a.cast, p);
    } else {
        lemma_flat_in_groups(a.hidden, p);
    }
    // Closing the dialog.
    let n1 = StageView {
        stage_dialog_parents: a.stage_dialog_parents.filter(dialog_ne(d)),
        new_cast_windows: without(a.new_cast_windows, d),
        active: active_after_close(a.active, d),
        ..a
    };
    let n2 = without_in_strip(n1, d);
    let n3 = without_in_strip(n2, p);
    let n4 = StageView {
        active: Some((n3.next_group_id, seq![p])),
        next_group_id: next_id(n3.next_group_id),
        ..n3
    };
    let r = on_window_removed_spec(a, d, max_cast);
    law_enforce_cast_limit(n4, max_cast);
    assert(r.0 == enforce_cast_limit_spec(n4, max_cast));
    lemma_dialog_filtered_out(a.stage_dialog_parents, d);
    lemma_flat_groups_without(n1.cast, d);
    lemma_flat_groups_without(n1.hidden, d);
    lemma_flat_groups_without(n2.cast, p);
    lemma_flat_groups_without(n2.hidden, p);
    lemma_without_contains(flat(n1.cast), d, d);
    lemma_without_contains(flat(n1.hidden), d, d);
    lemma_without_contains(flat(n2.cast), p, p);
    lemma_without_contains(flat(n2.hidden), p, p);
    lemma_without_contains(flat(n2.cast), p, d);
    lemma_without_contains(flat(n2.hidden), p, d);
    lemma_enforce_strip_contains(n4, max_cast, p);
    lemma_enforce_strip_contains(n4, max_cast, d);
    lemma_not_in_strip(r.0, p);
    lemma_not_in_strip(r.0, d);
}

/// The record pushed last is found for a dialog that had none before.
proof fn lemma_dialog_parent_push(s: Seq<(WindowId, WindowId)>, d: WindowId, p: WindowId)
    requires
        !is_dialog(s, d),
    ensures
        dialog_parent(s.push((d, p)), d) == Some(p),
    decreases s.len(),
{
    if s.len() > 0 {
        assert(s[0].0 != d);
        assert(s.push((d, p))[0] == s[0]);
        assert(s.push((d, p)).drop_first() =~= s.drop_first().push((d, p)));
        assert forall|i: int| 0 <= i < s.drop_first().len() implies (
        #[trigger] s.drop_first()[i]).0 != d by {
            assert(s.drop_first()[i] == s[i + 1]);
        }
        lemma_dialog_parent_push(s.drop_first(), d, p);
    } else {
        assert(s.push((d, p))[0] == (d, p));
    }
}

/// Filtering the records keeps a window that had none without one.
proof fn lemma_not_dialog_filter(
    s: Seq<(WindowId, WindowId)>,
    pred: spec_fn((WindowId, WindowId)) -> bool,
    d: WindowId,
)
    requires
        !is_dialog(s, d),
    ensures
        !is_dialog(s.filter(pred), d),
{
    assert forall|i: int| 0 <= i < s.filter(pred).len() implies (#[trigger] s.filter(pred)[i]).0
        != d by {
        let e = s.filter(pred)[i];
        assert(s.filter(pred).contains(e));
        s.lemma_filter_contains_rev(pred, e);
        let j = choose|j: int| 0 <= j < s.len() && s[j] == e;
        assert(s[j].0 != d);
    }
}

/// Filtering out a dialog's records leaves none.
proof fn lemma_dialog_filtered_out(s: Seq<(WindowId, WindowId)>, d: WindowId)
    ensures
        !is_dialog(s.filter(dialog_ne(d)), d),
{
    assert forall|i: int| 0 <= i < s.filter(dialog_ne(d)).len() implies (#[trigger] s.filter(
        dialog_ne(d),
    )[i]).0 != d by {
        s.lemma_filter_pred(dialog_ne(d), i);
    }
}

/// Capping the strip keeps the windows of the strip and the hidden overflow together.
proof fn lemma_enforce_strip_contains(m: StageView, max_cast: usize, x: WindowId)
    ensures
        ({
            let e = enforce_cast_limit_spec(m, max_cast);
            (flat(e.cast).contains(x) || flat(e.hidden).contains(x)) <==> (flat(m.cast).contains(x)
                || flat(m.hidden).contains(x))
        }),
{
    let e = enforce_cast_limit_spec(m, max_cast);
    law_enforce_cast_limit(m, max_cast);
    lemma_flat_append(e.cast, e.hidden);
    lemma_flat_append(m.cast, m.hidden);
    lemma_contains_add(flat(e.cast), flat(e.hidden), x);
    lemma_contains_add(flat(m.cast), flat(m.hidden), x);
}

/// A window of the windows of the groups is in one of the groups.
proof fn lemma_flat_in_groups(gs: Seq<GroupView>, t: WindowId)
    requires
        flat(gs).contains(t),
    ensures
        in_groups(gs, t),
    decreases gs.len(),
{
    if gs.len() == 0 {
        assert(flat(gs) =~= Seq::<WindowId>::empty());
    } else {
        lemma_contains_add(flat(gs.drop_last()), gs.last().1, t);
        if gs.last().1.contains(t) {
            assert(gs[gs.len() - 1].1.contains(t));
        } else {
            lemma_flat_in_groups(gs.drop_last(), t);
            let i = choose|i: int| 0 <= i < gs.drop_last().len() && (#[trigger] gs.drop_last()[i]).1.contains(t);
            assert(gs[i] == gs.drop_last()[i]);
        }
    }
}

/// A window in neither the strip nor the overflow is no strip window.
proof fn lemma_not_in_strip(m: StageView, x: WindowId)
    requires
        !flat(m.cast).contains(x),
        !flat(m.hidden).contains(x),
    ensures
        !is_cast(m, x),
{
    if in_groups(m.cast, x) {
        lemma_in_groups_flat(m.cast, x);
    }
    if in_groups(m.hidden, x) {
        lemma_in_groups_flat(m.hidden, x);
    }
}

proof fn lemma_dialog_parent_not_self(s: Seq<(WindowId, WindowId)>, d: WindowId)
    requires
        forall|k: int| 0 <= k < s.len() ==> (#[trigger] s[k]).0 != s[k].1,
    ensures
        dialog_parent(s, d) != Some(d),
    decreases s.len(),
{
    if s.len() > 0 {
        assert(s[0].0 != s[0].1);
        if s[0].0 != d {
            assert forall|k: int| 0 <= k < s.drop_first().len() implies (
            #[trigger] s.drop_first()[k]).0 != s.drop_first()[k].1 by {
                assert(s.drop_first()[k] == s[k + 1]);
            }
            lemma_dialog_parent_not_self(s.drop_first(), d);
        }
    }
}


// ---------------------------------------------------------------------------------------------
// Which windows are managed.

pub proof fn lemma_remove_contains(s: Seq<WindowId>, k: int, x: WindowId)
    requires
        0 <= k < s.len(),
    ensures
        s.contains(x) <==> (s[k] == x || s.remove(k).contains(x)),
{
    s.remove_ensures(k);
    if s.contains(x) && s[k] != x {
        let j = choose|j: int| 0 <= j < s.len() && s[j] == x;
        if j < k {
            assert(s.remove(k)[j] == x);
        } else {
            assert(s.remove(k)[j - 1] == x);
        }
    }
    if s.remove(k).contains(x) {
        let j = choose|j: int| 0 <= j < s.remove(k).len() && s.remove(k)[j] == x;
        if j < k {
            assert(s[j] == x);
        } else {
            assert(s[j + 1] == x);
        }
    }
}

proof fn lemma_first_index_valid(s: Seq<WindowId>, id: WindowId)
    requires
        s.contains(id),
    ensures
        0 <= first_index(s, id) < s.len(),
        s[first_index(s, id)] == id,
    decreases s.len(),
{
    if s[0] != id {
        let j = choose|j: int| 0 <= j < s.len() && s[j] == id;
        assert(s.drop_first()[j - 1] == id);
        lemma_first_index_valid(s.drop_first(), id);
    }
}

/// Moving a window to the front of a group keeps the windows of the group.
pub proof fn lemma_to_front_contains(s: Seq<WindowId>, id: WindowId, x: WindowId)
    ensures
        to_front(s, id).contains(x) <==> s.contains(x),
{
    if s.contains(id) {
        lemma_first_index_valid(s, id);
        let k = first_index(s, id);
        lemma_remove_contains(s, k, x);
        lemma_contains_add(seq![id], s.remove(k), x);
        assert(seq![id].contains(x) <==> x == id) by {
            if seq![id].contains(x) {
                assert(seq![id][0] == x);
            }
            if x == id {
                assert(seq![id][0] == x);
            }
        }
    }
}

proof fn lemma_singleton_contains(a: WindowId, x: WindowId)
    ensures
        seq![a].contains(x) <==> x == a,
{
    if seq![a].contains(x) {
        assert(seq![a][0] == x);
    }
    if x == a {
        assert(seq![a][0] == x);
    }
}

proof fn lemma_flat_single(g: GroupView)
    ensures
        flat(seq![g]) == g.1,
{
    assert(seq![g].drop_last() =~= Seq::<GroupView>::empty());
    assert(flat(Seq::<GroupView>::empty()) =~= Seq::<WindowId>::empty());
    assert(flat(seq![g]) =~= g.1);
}

/// The windows of `gs` are those of group `idx` and those of the other groups.
proof fn lemma_flat_remove_contains(gs: Seq<GroupView>, idx: int, x: WindowId)
    requires
        0 <= idx < gs.len(),
    ensures
        flat(gs).contains(x) <==> (gs[idx].1.contains(x) || flat(gs.remove(idx)).contains(x)),
{
    let a = gs.take(idx);
    let b = gs.skip(idx + 1);
    assert(gs =~= a + seq![gs[idx]] + b);
    assert(gs.remove(idx) =~= a + b);
    lemma_flat_append(a + seq![gs[idx]], b);
    lemma_flat_append(a, seq![gs[idx]]);
    lemma_flat_append(a, b);
    lemma_flat_single(gs[idx]);
    lemma_contains_add(flat(a) + gs[idx].1, flat(b), x);
    lemma_contains_add(flat(a), gs[idx].1, x);
    lemma_contains_add(flat(a), flat(b), x);
}

/// The windows of `gs` with group `idx` replaced by `g`.
proof fn lemma_flat_update_contains(gs: Seq<GroupView>, idx: int, g: GroupView, x: WindowId)
    requires
        0 <= idx < gs.len(),
    ensures
        flat(gs.update(idx, g)).contains(x) <==> (g.1.contains(x) || flat(gs.remove(idx)).contains(
            x,
        )),
{
    let u = gs.update(idx, g);
    lemma_flat_remove_contains(u, idx, x);
    assert(u.remove(idx) =~= gs.remove(idx));
}

proof fn lemma_flat_prepend_contains(g: GroupView, gs: Seq<GroupView>, x: WindowId)
    ensures
        flat(seq![g] + gs).contains(x) <==> (g.1.contains(x) || flat(gs).contains(x)),
{
    lemma_flat_append(seq![g], gs);
    lemma_flat_single(g);
    lemma_contains_add(g.1, flat(gs), x);
}


proof fn lemma_slot_min_exists(ws: WorkspaceInfo, gs: Seq<GroupView>, key: Option<u64>, k: int)
    requires
        0 <= k < gs.len(),
        slot_matches(ws, gs[k], key),
    ensures
        exists|i: int|
            0 <= i < gs.len() && slot_matches(ws, #[trigger] gs[i], key) && forall|j: int|
                0 <= j < i ==> !slot_matches(ws, #[trigger] gs[j], key),
    decreases k,
{
    if exists|j: int| 0 <= j < k && slot_matches(ws, #[trigger] gs[j], key) {
        let j = choose|j: int| 0 <= j < k && slot_matches(ws, #[trigger] gs[j], key);
        lemma_slot_min_exists(ws, gs, key, j);
    }
}

/// The slot found for a key is a group of the strip.
pub proof fn lemma_find_slot_range(ws: WorkspaceInfo, gs: Seq<GroupView>, key: Option<u64>)
    ensures
        find_slot(ws, gs, key) matches Some(i) ==> 0 <= i < gs.len(),
{
    if exists|i: int| 0 <= i < gs.len() && slot_matches(ws, #[trigger] gs[i], key) {
        let k = choose|i: int| 0 <= i < gs.len() && slot_matches(ws, #[trigger] gs[i], key);
        lemma_slot_min_exists(ws, gs, key, k);
    }
}

/// Inserting `id` into the strip adds it to the managed windows and keeps the others.
pub proof fn lemma_insert_into_cast_manages(m: StageView, ws: WorkspaceInfo, id: WindowId, x: WindowId)
    ensures
        managed(insert_into_cast_spec(m, ws, id)).contains(x) <==> (managed(m).contains(x) || x
            == id),
{
    let r = insert_into_cast_spec(m, ws, id);
    lemma_managed_contains(r, x);
    lemma_managed_contains(m, x);
    if !ws.stack_by_app {
        lemma_flat_prepend_contains((m.next_group_id, seq![id]), groups_without(m.cast, id), x);
        lemma_singleton_contains(id, x);
        lemma_flat_groups_without(m.cast, id);
        lemma_flat_groups_without(m.hidden, id);
        lemma_without_contains(flat(m.cast), id, x);
        lemma_without_contains(flat(m.hidden), id, x);
    } else {
        match find_slot(ws, m.cast, key_of(ws, id)) {
            Some(idx) => {
                lemma_find_slot_range(ws, m.cast, key_of(ws, id));
                let g = m.cast[idx];
                let g2 = if g.1.contains(id) {
                    (g.0, to_front(g.1, id))
                } else {
                    (g.0, seq![id] + g.1)
                };
                lemma_flat_prepend_contains(g2, m.cast.remove(idx), x);
                lemma_flat_remove_contains(m.cast, idx, x);
                lemma_to_front_contains(g.1, id, x);
                lemma_contains_add(seq![id], g.1, x);
                lemma_singleton_contains(id, x);
                if g.1.contains(id) && x == id {
                    assert(flat(m.cast).contains(x));
                }
            },
            None => {
                lemma_flat_prepend_contains((m.next_group_id, seq![id]), m.cast, x);
                lemma_singleton_contains(id, x);
            },
        }
    }
}


/// Inserting windows into the strip one after the other adds them to the managed windows.
pub proof fn lemma_insert_all_manages(
    m: StageView,
    ws: WorkspaceInfo,
    wins: Seq<WindowId>,
    x: WindowId,
)
    ensures
        managed(insert_all_spec(m, ws, wins)).contains(x) <==> (managed(m).contains(x)
            || wins.contains(x)),
    decreases wins.len(),
{
    if wins.len() == 0 {
        assert(!wins.contains(x));
    } else {
        lemma_insert_all_manages(m, ws, wins.drop_last(), x);
        lemma_insert_into_cast_manages(insert_all_spec(m, ws, wins.drop_last()), ws, wins.last(), x);
        assert(wins =~= wins.drop_last() + seq![wins.last()]);
        lemma_contains_add(wins.drop_last(), seq![wins.last()], x);
        lemma_singleton_contains(wins.last(), x);
    }
}

/// Sending the stage windows to the strip keeps the managed windows and empties the stage.
pub proof fn lemma_demote_manages(m: StageView, ws: WorkspaceInfo, save: bool, x: WindowId)
    ensures
        managed(demote_active_spec(m, ws, save).0).contains(x) <==> managed(m).contains(x),
        demote_active_spec(m, ws, save).0.active is None,
{
    match m.active {
        None => {},
        Some(g) => {
            let m0 = StageView { active: None, ..m };
            lemma_insert_all_manages(m0, ws, g.1, x);
            lemma_insert_all_keeps_stage(m0, ws, g.1);
            lemma_managed_contains(m0, x);
            lemma_managed_contains(m, x);
            assert(active_windows_of(m0) =~= Seq::<WindowId>::empty());
        },
    }
}

/// Taking `id` out of the strip keeps the stage and the rest of the strip.
pub proof fn lemma_without_in_strip_manages(m: StageView, id: WindowId, x: WindowId)
    ensures
        managed(without_in_strip(m, id)).contains(x) <==> (active_windows_of(m).contains(x) || (x
            != id && managed(m).contains(x))),
{
    let r = without_in_strip(m, id);
    lemma_managed_contains(r, x);
    lemma_managed_contains(m, x);
    lemma_flat_groups_without(m.cast, id);
    lemma_flat_groups_without(m.hidden, id);
    lemma_without_contains(flat(m.cast), id, x);
    lemma_without_contains(flat(m.hidden), id, x);
}

/// Putting a single window on the stage adds it to the managed windows and keeps the others.
pub proof fn lemma_stage_single_manages(
    m: StageView,
    ws: WorkspaceInfo,
    id: WindowId,
    max_cast: usize,
    x: WindowId,
)
    ensures
        managed(set_stage_single_spec(m, ws, id, max_cast).0).contains(x) <==> (managed(m).contains(
            x,
        ) || x == id),
{
    if m.active matches Some(g) && g.1 == seq![id] {
        lemma_managed_contains(m, x);
        lemma_singleton_contains(id, x);
    } else {
        let was_parallel = m.active matches Some(g) && g.1.len() > 1;
        let m1 = without_in_strip(m, id);
        let m2 = demote_active_spec(m1, ws, !was_parallel).0;
        let m3 = without_in_strip(m2, id);
        let m4 = StageView {
            active: Some((m3.next_group_id, seq![id])),
            next_group_id: next_id(m3.next_group_id),
            ..m3
        };
        law_enforce_cast_limit(m4, max_cast);
        lemma_without_in_strip_manages(m, id, x);
        lemma_demote_manages(m1, ws, !was_parallel, x);
        lemma_without_in_strip_manages(m2, id, x);
        lemma_managed_contains(m4, x);
        lemma_managed_contains(m3, x);
        lemma_managed_contains(m, x);
        lemma_singleton_contains(id, x);
        assert(active_windows_of(m3) =~= Seq::<WindowId>::empty());
    }
}

/// Taking `t` out of group `i` keeps the other windows of the groups.
proof fn lemma_take_out_of_group_contains(gs: Seq<GroupView>, i: int, t: WindowId, x: WindowId)
    requires
        0 <= i < gs.len(),
    ensures
        flat(take_out_of_group(gs, i, t)).contains(x) ==> flat(gs).contains(x),
        flat(gs).contains(x) && x != t ==> flat(take_out_of_group(gs, i, t)).contains(x),
{
    lemma_flat_remove_contains(gs, i, x);
    lemma_without_contains(gs[i].1, t, x);
    if without(gs[i].1, t).len() == 0 {
        if gs[i].1.contains(x) && x != t {
            assert(without(gs[i].1, t).contains(x));
        }
    } else {
        lemma_flat_update_contains(gs, i, (gs[i].0, without(gs[i].1, t)), x);
    }
}

/// The windows of a stage group are those kept on the stage and those popped off it.
proof fn lemma_kept_popped(s: Seq<WindowId>, x: WindowId)
    ensures
        s.contains(x) <==> (kept(s).contains(x) || popped(s).contains(x)),
    decreases s.len(),
{
    if s.len() >= 2 {
        lemma_kept_popped(s.drop_last(), x);
        assert(s =~= s.drop_last() + seq![s.last()]);
        lemma_contains_add(s.drop_last(), seq![s.last()], x);
        lemma_contains_add(seq![s.last()], popped(s.drop_last()), x);
        lemma_singleton_contains(s.last(), x);
        if s.len() == 2 {
            assert(kept(s.drop_last()) =~= kept(s));
        } else {
            assert(kept(s.drop_last()) =~= kept(s));
        }
    } else {
        assert(popped(s) =~= Seq::<WindowId>::empty());
    }
}


proof fn lemma_in_groups_flat(gs: Seq<GroupView>, t: WindowId)
    requires
        in_groups(gs, t),
    ensures
        flat(gs).contains(t),
{
    let i = choose|i: int| 0 <= i < gs.len() && (#[trigger] gs[i]).1.contains(t);
    lemma_flat_remove_contains(gs, i, t);
}

/// A window on the stage or in the strip is managed.
proof fn lemma_placed_is_managed(m: StageView, t: WindowId)
    requires
        is_stage(m, t) || is_cast(m, t),
    ensures
        managed(m).contains(t),
{
    lemma_managed_contains(m, t);
    if in_groups(m.cast, t) {
        lemma_in_groups_flat(m.cast, t);
    } else if in_groups(m.hidden, t) {
        lemma_in_groups_flat(m.hidden, t);
    }
}

proof fn lemma_remove_from_active_manages(m: StageView, id: WindowId, x: WindowId)
    ensures
        managed(remove_from_active(m, id)).contains(x) <==> ((active_windows_of(m).contains(x)
            && x != id) || flat(m.cast).contains(x) || flat(m.hidden).contains(x)),
{
    lemma_managed_contains(remove_from_active(m, id), x);
    match m.active {
        Some(g) => {
            lemma_without_contains(g.1, id, x);
            if without(g.1, id).len() == 0 && g.1.contains(x) && x != id {
                assert(without(g.1, id).contains(x));
            }
        },
        None => {},
    }
}

proof fn lemma_promote_manages(m: StageView, ws: WorkspaceInfo, id: WindowId, max_cast: usize, x: WindowId)
    ensures
        managed(promote_cast_to_stage_spec(m, ws, id, max_cast).0).contains(x) <==> managed(
            m,
        ).contains(x),
{
    let t = target_for(m, id);
    lemma_first_with_range(m.cast, t);
    lemma_first_with_range(m.hidden, t);
    let m1 = StageView { new_cast_windows: without(m.new_cast_windows, t), ..m };
    lemma_managed_contains(m, x);
    lemma_managed_contains(m, t);
    if !is_stage(m, id) {
        match first_with(m1.cast, t) {
            Some(i) => {
                let mc = StageView { cast: take_out_of_group(m1.cast, i, t), ..m1 };
                lemma_stage_single_manages(mc, ws, t, max_cast, x);
                lemma_managed_contains(mc, x);
                lemma_take_out_of_group_contains(m.cast, i, t, x);
                lemma_flat_remove_contains(m.cast, i, t);
            },
            None => match first_with(m1.hidden, t) {
                Some(i) => {
                    let mh = StageView { hidden: take_out_of_group(m1.hidden, i, t), ..m1 };
                    lemma_stage_single_manages(mh, ws, t, max_cast, x);
                    lemma_managed_contains(mh, x);
                    lemma_take_out_of_group_contains(m.hidden, i, t, x);
                    lemma_flat_remove_contains(m.hidden, i, t);
                },
                None => {},
            },
        }
    }
}

proof fn lemma_drag_to_stage_manages(
    m: StageView,
    ws: WorkspaceInfo,
    id: WindowId,
    max_cast: usize,
    x: WindowId,
)
    ensures
        managed(dragged_to_stage_spec(m, ws, id, max_cast).0).contains(x) <==> (managed(
            m,
        ).contains(x) || (x == id && dragged_to_stage_spec(m, ws, id, max_cast).2)),
{
    if !is_stage(m, id) {
        let m1 = without_in_strip(m, id);
        let demoted = match m1.active {
            Some(g) => popped(g.1),
            None => seq![],
        };
        let m2 = match m1.active {
            Some(g) => StageView {
                active: Some(
                    (
                        g.0,
                        if kept(g.1).contains(id) {
                            kept(g.1)
                        } else {
                            seq![id] + kept(g.1)
                        },
                    ),
                ),
                ..m1
            },
            None => StageView {
                active: Some((m1.next_group_id, seq![id])),
                next_group_id: next_id(m1.next_group_id),
                ..m1
            },
        };
        let m3 = insert_all_spec(m2, ws, demoted);
        let pair = m3.active matches Some(g) && g.1.len() == 2;
        let m4 = if pair {
            StageView {
                interaction_target: None,
                interaction_since: None,
                hovered_cast: None,
                ..m3
            }
        } else {
            m3
        };
        law_enforce_cast_limit(m4, max_cast);
        lemma_insert_all_manages(m2, ws, demoted, x);
        lemma_without_in_strip_manages(m, id, x);
        lemma_managed_contains(m2, x);
        lemma_managed_contains(m1, x);
        lemma_managed_contains(m, x);
        lemma_singleton_contains(id, x);
        match m1.active {
            Some(g) => {
                lemma_kept_popped(g.1, x);
                lemma_contains_add(seq![id], kept(g.1), x);
            },
            None => {
                assert(!demoted.contains(x));
            },
        }
    }
}

proof fn lemma_drag_to_cast_manages(
    m: StageView,
    ws: WorkspaceInfo,
    id: WindowId,
    max_cast: usize,
    x: WindowId,
)
    ensures
        managed(dragged_to_cast_spec(m, ws, id, max_cast).0).contains(x) <==> managed(
            m,
        ).contains(x),
{
    if is_stage(m, id) {
        let m1 = remove_from_active(m, id);
        let c = insert_into_cast_spec(m1, ws, id);
        law_enforce_cast_limit(c, max_cast);
        lemma_insert_into_cast_manages(m1, ws, id, x);
        lemma_remove_from_active_manages(m, id, x);
        lemma_managed_contains(m, x);
        lemma_placed_is_managed(m, id);
    }
}

proof fn lemma_force_to_cast_manages(
    m: StageView,
    ws: WorkspaceInfo,
    id: WindowId,
    max_cast: usize,
    x: WindowId,
)
    ensures
        managed(force_to_cast_spec(m, ws, id, max_cast).0).contains(x) <==> (managed(m).contains(x)
            || x == id),
{
    let m1 = StageView {
        stage_dialog_parents: m.stage_dialog_parents.filter(dialog_ne(id)),
        new_cast_windows: without(m.new_cast_windows, id),
        ..m
    };
    let staged = is_stage(m1, id);
    let m2 = if staged {
        remove_from_active(m1, id)
    } else {
        m1
    };
    let c = insert_into_cast_spec(without_in_strip(m2, id), ws, id);
    law_enforce_cast_limit(c, max_cast);
    lemma_insert_into_cast_manages(without_in_strip(m2, id), ws, id, x);
    lemma_without_in_strip_manages(m2, id, x);
    lemma_remove_from_active_manages(m1, id, x);
    lemma_managed_contains(m1, x);
    lemma_managed_contains(m2, x);
}

/// What the user does with windows already managed (choosing a strip window, `Mod+G`,
/// `Mod+Shift+G`, dragging between stage and strip, moving a window to the strip) never
/// loses a window nor adds one, except the dragged or moved window itself, which is then
/// managed.
pub proof fn law_user_actions_keep_windows(
    m: StageView,
    ws: WorkspaceInfo,
    id: WindowId,
    max_cast: usize,
)
    ensures
        forall|x: WindowId|
            #![trigger managed(promote_cast_to_stage_spec(m, ws, id, max_cast).0).contains(x)]
            managed(promote_cast_to_stage_spec(m, ws, id, max_cast).0).contains(x) <==> managed(
                m,
            ).contains(x),
        forall|x: WindowId|
            #![trigger managed(on_window_activated_spec(m, ws, id, max_cast).0).contains(x)]
            managed(on_window_activated_spec(m, ws, id, max_cast).0).contains(x) <==> managed(
                m,
            ).contains(x),
        forall|x: WindowId|
            #![trigger managed(toggle_main_spec(m, ws, id, max_cast).0).contains(x)]
            managed(toggle_main_spec(m, ws, id, max_cast).0).contains(x) <==> managed(m).contains(
                x,
            ),
        forall|x: WindowId|
            #![trigger managed(promote_parallel_spec(m, ws, id, max_cast).0).contains(x)]
            managed(promote_parallel_spec(m, ws, id, max_cast).0).contains(x) <==> managed(
                m,
            ).contains(x),
        forall|x: WindowId|
            #![trigger managed(dragged_to_cast_spec(m, ws, id, max_cast).0).contains(x)]
            managed(dragged_to_cast_spec(m, ws, id, max_cast).0).contains(x) <==> managed(
                m,
            ).contains(x),
        forall|x: WindowId|
            #![trigger managed(dragged_to_stage_spec(m, ws, id, max_cast).0).contains(x)]
            managed(dragged_to_stage_spec(m, ws, id, max_cast).0).contains(x) <==> (managed(
                m,
            ).contains(x) || (x == id && dragged_to_stage_spec(m, ws, id, max_cast).2)),
        forall|x: WindowId|
            #![trigger managed(force_to_cast_spec(m, ws, id, max_cast).0).contains(x)]
            managed(force_to_cast_spec(m, ws, id, max_cast).0).contains(x) <==> (managed(
                m,
            ).contains(x) || x == id),
{
    let t = target_for(m, id);
    assert forall|x: WindowId| #[trigger]
        managed(promote_cast_to_stage_spec(m, ws, id, max_cast).0).contains(x) <==> managed(
            m,
        ).contains(x) by {
        lemma_promote_manages(m, ws, id, max_cast, x);
    }
    assert forall|x: WindowId| #[trigger]
        managed(on_window_activated_spec(m, ws, id, max_cast).0).contains(x) <==> managed(
            m,
        ).contains(x) by {
        lemma_promote_manages(m, ws, id, max_cast, x);
        lemma_managed_contains(m, x);
    }
    assert forall|x: WindowId| #[trigger]
        managed(toggle_main_spec(m, ws, id, max_cast).0).contains(x) <==> managed(m).contains(
            x,
        ) by {
        if is_cast(m, t) || is_stage(m, t) {
            lemma_placed_is_managed(m, t);
        }
        lemma_stage_single_manages(m, ws, t, max_cast, x);
        lemma_drag_to_cast_manages(m, ws, t, max_cast, x);
    }
    assert forall|x: WindowId| #[trigger]
        managed(promote_parallel_spec(m, ws, id, max_cast).0).contains(x) <==> managed(
            m,
        ).contains(x) by {
        if is_cast(m, t) {
            lemma_placed_is_managed(m, t);
        }
        lemma_drag_to_stage_manages(m, ws, t, max_cast, x);
    }
    assert forall|x: WindowId| #[trigger]
        managed(dragged_to_cast_spec(m, ws, id, max_cast).0).contains(x) <==> managed(
            m,
        ).contains(x) by {
        lemma_drag_to_cast_manages(m, ws, id, max_cast, x);
    }
    assert forall|x: WindowId| #[trigger]
        managed(dragged_to_stage_spec(m, ws, id, max_cast).0).contains(x) <==> (managed(
            m,
        ).contains(x) || (x == id && dragged_to_stage_spec(m, ws, id, max_cast).2)) by {
        lemma_drag_to_stage_manages(m, ws, id, max_cast, x);
    }
    assert forall|x: WindowId| #[trigger]
        managed(force_to_cast_spec(m, ws, id, max_cast).0).contains(x) <==> (managed(
            m,
        ).contains(x) || x == id) by {
        lemma_force_to_cast_manages(m, ws, id, max_cast, x);
    }
}


/// Showing dialog `d` alone on the stage parks its parent `p` in the strip; when the stage
/// held no window besides `p` and `d`, no managed window is lost, and `d` is managed.
proof fn lemma_open_dialog_manages(
    m: StageView,
    ws: WorkspaceInfo,
    d: WindowId,
    p: WindowId,
    max_cast: usize,
    x: WindowId,
)
    requires
        managed(m).contains(p),
        forall|w: WindowId| active_windows_of(m).contains(w) ==> (w == p || w == d),
    ensures
        managed(open_stage_dialog_spec(m, ws, d, p, max_cast).0).contains(x) <==> (managed(
            m,
        ).contains(x) || x == d),
{
    let m1 = StageView {
        new_cast_windows: without(m.new_cast_windows, d),
        ..without_in_strip(m, d)
    };
    let staged = is_stage(m1, p);
    let r1 = remove_from_active(m1, p);
    let m2 = if staged {
        insert_into_cast_spec(r1, ws, p)
    } else {
        m1
    };
    let dp = m2.stage_dialog_parents.filter(parent_ne(p)).push((d, p));
    let m2d = StageView { stage_dialog_parents: dp, ..m2 };
    let m3 = without_in_strip(m2d, d);
    let m4 = StageView {
        active: Some((m3.next_group_id, seq![d])),
        next_group_id: next_id(m3.next_group_id),
        ..m3
    };
    law_enforce_cast_limit(m4, max_cast);
    lemma_managed_contains(m4, x);
    lemma_managed_contains(m3, x);
    lemma_singleton_contains(d, x);
    lemma_flat_groups_without(m2.cast, d);
    lemma_flat_groups_without(m2.hidden, d);
    lemma_without_contains(flat(m2.cast), d, x);
    lemma_without_contains(flat(m2.hidden), d, x);
    lemma_managed_contains(m2, x);
    lemma_without_in_strip_manages(m, d, x);
    lemma_without_in_strip_manages(m, d, p);
    lemma_managed_contains(m1, x);
    lemma_managed_contains(m, x);
    lemma_managed_contains(m, p);
    if staged {
        lemma_insert_into_cast_manages(r1, ws, p, x);
        lemma_inserted_in_front_group(r1, ws, p);
        lemma_remove_from_active_manages(m1, p, x);
        if active_windows_of(m2).contains(x) {
            match m1.active {
                Some(g) => {
                    lemma_without_contains(g.1, p, x);
                },
                None => {},
            }
            assert(active_windows_of(m).contains(x));
        }
    } else {
        if active_windows_of(m).contains(x) && x != d {
            assert(x == p);
            assert(is_stage(m1, p));
        }
    }
}

/// A window that opens joins the managed windows and every managed window stays managed.
/// (Left out: a dialog whose parent shares the stage with another window, which the stage
/// then drops.)
pub proof fn law_added_window_keeps_others(
    m: StageView,
    ws: WorkspaceInfo,
    id: WindowId,
    max_cast: usize,
)
    requires
        stage_parent_on_stage_spec(m, ws, id) matches Some(p) ==> forall|w: WindowId|
            active_windows_of(m).contains(w) ==> w == p,
    ensures
        forall|x: WindowId|
            #![trigger managed(on_window_added_spec(m, ws, id, max_cast).0).contains(x)]
            managed(on_window_added_spec(m, ws, id, max_cast).0).contains(x) <==> (managed(
                m,
            ).contains(x) || x == id),
{
    assert forall|x: WindowId| #[trigger]
        managed(on_window_added_spec(m, ws, id, max_cast).0).contains(x) <==> (managed(
            m,
        ).contains(x) || x == id) by {
        let r = on_window_added_spec(m, ws, id, max_cast).0;
        lemma_managed_contains(m, x);
        lemma_managed_contains(r, x);
        if m.active is None && m.cast.len() == 0 && m.hidden.len() == 0 {
            lemma_singleton_contains(id, x);
            assert(flat(m.cast) =~= Seq::<WindowId>::empty());
            assert(flat(m.hidden) =~= Seq::<WindowId>::empty());
        } else if is_stage(m, id) {
            let g = m.active->Some_0;
            lemma_to_front_contains(g.1, id, x);
        } else {
            match stage_parent_on_stage_spec(m, ws, id) {
                Some(p) => {
                    let g = m.active->Some_0;
                    assert(g.1.contains(p));
                    lemma_placed_is_managed(m, p);
                    lemma_open_dialog_manages(m, ws, id, p, max_cast, x);
                },
                None => {
                    let m1 = StageView {
                        new_cast_windows: without(m.new_cast_windows, id).push(id),
                        ..m
                    };
                    let c = insert_into_cast_spec(m1, ws, id);
                    law_enforce_cast_limit(c, max_cast);
                    lemma_insert_into_cast_manages(m1, ws, id, x);
                    lemma_managed_contains(m1, x);
                    lemma_managed_contains(c, x);
                },
            }
        }
    }
}

/// A window that gains a parent on the stage or in the strip is shown alone on the stage,
/// its parent parked in the strip, and every managed window stays managed. (Left out: a
/// stage holding a window other than the two, which the stage then drops.)
pub proof fn law_parent_changed_keeps_others(
    m: StageView,
    ws: WorkspaceInfo,
    id: WindowId,
    max_cast: usize,
)
    requires
        stage_parent_of_spec(m, ws, id) matches Some(p) ==> forall|w: WindowId|
            active_windows_of(m).contains(w) ==> (w == p || w == id),
    ensures
        on_parent_changed_spec(m, ws, id, max_cast).2 ==> active_windows_of(
            on_parent_changed_spec(m, ws, id, max_cast).0,
        ) == seq![id],
        forall|x: WindowId|
            #![trigger managed(on_parent_changed_spec(m, ws, id, max_cast).0).contains(x)]
            managed(on_parent_changed_spec(m, ws, id, max_cast).0).contains(x) <==> (managed(
                m,
            ).contains(x) || (x == id && on_parent_changed_spec(m, ws, id, max_cast).2)),
{
    match stage_parent_of_spec(m, ws, id) {
        Some(p) => {
            lemma_dialog_on_stage(m, ws, id, p, max_cast);
            assert forall|x: WindowId| #[trigger]
                managed(on_parent_changed_spec(m, ws, id, max_cast).0).contains(x) <==> (managed(
                    m,
                ).contains(x) || (x == id && on_parent_changed_spec(m, ws, id, max_cast).2)) by {
                if is_stage(m, p) || is_cast(m, p) {
                    lemma_placed_is_managed(m, p);
                    lemma_open_dialog_manages(m, ws, id, p, max_cast, x);
                }
            }
        },
        None => {},
    }
}


// ---------------------------------------------------------------------------------------------
// Each window managed once.

/// Two sequences of windows share no window.
pub open spec fn disjoint(a: Seq<WindowId>, b: Seq<WindowId>) -> bool {
    forall|x: WindowId| #[trigger] a.contains(x) ==> !b.contains(x)
}

pub proof fn lemma_no_dup_add(a: Seq<WindowId>, b: Seq<WindowId>)
    ensures
        (a + b).no_duplicates() <==> (a.no_duplicates() && b.no_duplicates() && disjoint(a, b)),
{
    let ab = a + b;
    if a.no_duplicates() && b.no_duplicates() && disjoint(a, b) {
        assert forall|i: int, j: int| 0 <= i < a.len() && 0 <= j < b.len() implies a[i] != b[j] by {
            if a[i] == b[j] {
                assert(a.contains(a[i]));
                assert(b.contains(b[j]));
            }
        }
        vstd::seq_lib::lemma_no_dup_in_concat(a, b);
    }
    if ab.no_duplicates() {
        assert forall|i: int, j: int|
            0 <= i < a.len() && 0 <= j < a.len() && i != j implies a[i] != a[j] by {
            assert(ab[i] == a[i] && ab[j] == a[j]);
        }
        assert forall|i: int, j: int|
            0 <= i < b.len() && 0 <= j < b.len() && i != j implies b[i] != b[j] by {
            assert(ab[i + a.len()] == b[i] && ab[j + a.len()] == b[j]);
        }
        assert forall|x: WindowId| #[trigger] a.contains(x) implies !b.contains(x) by {
            if b.contains(x) {
                let i = choose|i: int| 0 <= i < a.len() && a[i] == x;
                let j = choose|j: int| 0 <= j < b.len() && b[j] == x;
                assert(ab[i] == x && ab[j + a.len()] == x);
            }
        }
    }
}


pub proof fn lemma_disjoint_facts(a: Seq<WindowId>, b: Seq<WindowId>, c: Seq<WindowId>)
    ensures
        disjoint(a, b) <==> disjoint(b, a),
        disjoint(a + b, c) <==> (disjoint(a, c) && disjoint(b, c)),
        disjoint(c, a + b) <==> (disjoint(c, a) && disjoint(c, b)),
{
    assert forall|x: WindowId| #[trigger] (a + b).contains(x) <==> (a.contains(x) || b.contains(x)) by {
        lemma_contains_add(a, b, x);
    }
    if disjoint(a, b) {
        assert forall|x: WindowId| #[trigger] b.contains(x) implies !a.contains(x) by {
            if a.contains(x) {
                assert(!b.contains(x));
            }
        }
    }
    if disjoint(b, a) {
        assert forall|x: WindowId| #[trigger] a.contains(x) implies !b.contains(x) by {
            if b.contains(x) {
                assert(!a.contains(x));
            }
        }
    }
    if disjoint(c, a) && disjoint(c, b) {
        assert forall|x: WindowId| #[trigger] c.contains(x) implies !(a + b).contains(x) by {
            assert(!a.contains(x) && !b.contains(x));
        }
    }
    if disjoint(c, a + b) {
        assert forall|x: WindowId| #[trigger] c.contains(x) implies !a.contains(x) by {
            assert(!(a + b).contains(x));
        }
        assert forall|x: WindowId| #[trigger] c.contains(x) implies !b.contains(x) by {
            assert(!(a + b).contains(x));
        }
    }
    if disjoint(a, c) && disjoint(b, c) {
        assert forall|x: WindowId| #[trigger] (a + b).contains(x) implies !c.contains(x) by {
            if a.contains(x) {
                assert(!c.contains(x));
            } else {
                assert(b.contains(x));
            }
        }
    }
    if disjoint(a + b, c) {
        assert forall|x: WindowId| #[trigger] a.contains(x) implies !c.contains(x) by {
            assert((a + b).contains(x));
        }
        assert forall|x: WindowId| #[trigger] b.contains(x) implies !c.contains(x) by {
            assert((a + b).contains(x));
        }
    }
}

/// Taking a window out keeps a sequence free of repeats.
pub proof fn lemma_no_dup_without(s: Seq<WindowId>, id: WindowId)
    requires
        s.no_duplicates(),
    ensures
        without(s, id).no_duplicates(),
    decreases s.len(),
{
    if s.len() > 0 {
        let t = s.drop_last();
        assert(t.push(s.last()) =~= s);
        assert(t.no_duplicates()) by {
            assert forall|i: int, j: int|
                0 <= i < t.len() && 0 <= j < t.len() && i != j implies t[i] != t[j] by {
                assert(s[i] == t[i] && s[j] == t[j]);
            }
        }
        lemma_no_dup_without(t, id);
        t.lemma_filter_push(s.last(), ne(id));
        if ne(id)(s.last()) {
            let w = without(t, id);
            assert(!w.contains(s.last())) by {
                lemma_without_contains(t, id, s.last());
                if t.contains(s.last()) {
                    let k = choose|k: int| 0 <= k < t.len() && t[k] == s.last();
                    assert(s[k] == s[s.len() - 1]);
                }
            }
            lemma_no_dup_add(w, seq![s.last()]);
            lemma_singleton_contains(s.last(), s.last());
            assert forall|x: WindowId| #[trigger] w.contains(x) implies !seq![s.last()].contains(x) by {
                lemma_singleton_contains(s.last(), x);
            }
            assert(w.push(s.last()) =~= w + seq![s.last()]);
        }
    }
}

/// A window alone is not repeated.
pub proof fn lemma_no_dup_single(x: WindowId)
    ensures
        seq![x].no_duplicates(),
{
}

/// The windows of a group list are free of repeats exactly when those of group `idx` and of
/// the other groups are, and they share none.
pub proof fn lemma_flat_remove_no_dup(gs: Seq<GroupView>, idx: int)
    requires
        0 <= idx < gs.len(),
    ensures
        flat(gs).no_duplicates() <==> (gs[idx].1.no_duplicates() && flat(gs.remove(idx)).no_duplicates()
            && disjoint(gs[idx].1, flat(gs.remove(idx)))),
{
    let a = gs.take(idx);
    let b = gs.skip(idx + 1);
    let g = gs[idx].1;
    assert(gs =~= a + seq![gs[idx]] + b);
    assert(gs.remove(idx) =~= a + b);
    lemma_flat_append(a + seq![gs[idx]], b);
    lemma_flat_append(a, seq![gs[idx]]);
    lemma_flat_append(a, b);
    lemma_flat_single(gs[idx]);
    let fa = flat(a);
    let fb = flat(b);
    assert(flat(gs) == fa + g + fb);
    assert(flat(gs.remove(idx)) == fa + fb);
    lemma_no_dup_add(fa + g, fb);
    lemma_no_dup_add(fa, g);
    lemma_no_dup_add(fa, fb);
    lemma_no_dup_add(g, fa + fb);
    lemma_disjoint_facts(fa, g, fb);
    lemma_disjoint_facts(fa, fb, g);
    lemma_disjoint_facts(fa, g, g);
    assert forall|x: WindowId| #[trigger] (fa + g).contains(x) <==> (fa.contains(x) || g.contains(x)) by {
        lemma_contains_add(fa, g, x);
    }
    assert forall|x: WindowId| #[trigger] (fa + fb).contains(x) <==> (fa.contains(x) || fb.contains(x)) by {
        lemma_contains_add(fa, fb, x);
    }
}

/// The stage, the visible strip and the hidden strip are each free of repeats and share no
/// window, exactly when the managed windows are free of repeats.
pub proof fn lemma_managed_no_dup(m: StageView)
    ensures
        managed(m).no_duplicates() <==> ({
            let a = active_windows_of(m);
            let c = flat(m.cast);
            let h = flat(m.hidden);
            &&& a.no_duplicates() && c.no_duplicates() && h.no_duplicates()
            &&& disjoint(a, c) && disjoint(a, h) && disjoint(c, h)
        }),
{
    let a = active_windows_of(m);
    let c = flat(m.cast);
    let h = flat(m.hidden);
    lemma_no_dup_add(a + c, h);
    lemma_no_dup_add(a, c);
    lemma_disjoint_facts(a, c, h);
    assert forall|x: WindowId| #[trigger] (a + c).contains(x) <==> (a.contains(x) || c.contains(x)) by {
        lemma_contains_add(a, c, x);
    }
}


/// No group of the list is empty.
pub open spec fn groups_nonempty(gs: Seq<GroupView>) -> bool {
    forall|i: int| 0 <= i < gs.len() ==> (#[trigger] gs[i]).1.len() > 0
}

/// The stage manager's state is well formed: every window is managed at most once (on the
/// stage, or in one strip group), and no group is empty.
pub open spec fn stage_wf(m: StageView) -> bool {
    &&& managed(m).no_duplicates()
    &&& (m.active matches Some(g) ==> g.1.len() > 0)
    &&& groups_nonempty(m.cast)
    &&& groups_nonempty(m.hidden)
}

/// A part of a sequence shares nothing with what the whole shares nothing with.
proof fn lemma_disjoint_sub(a: Seq<WindowId>, a2: Seq<WindowId>, b: Seq<WindowId>)
    requires
        disjoint(a, b),
        forall|x: WindowId| #[trigger] a2.contains(x) ==> a.contains(x),
    ensures
        disjoint(a2, b),
        disjoint(b, a2),
{
    lemma_disjoint_facts(a2, b, b);
}

/// Taking a window out of every group keeps the windows free of repeats and no group empty.
proof fn lemma_groups_without_wf(gs: Seq<GroupView>, id: WindowId)
    requires
        flat(gs).no_duplicates(),
    ensures
        flat(groups_without(gs, id)).no_duplicates(),
        groups_nonempty(groups_without(gs, id)),
        forall|x: WindowId| #[trigger] flat(groups_without(gs, id)).contains(x) <==> (flat(gs).contains(x) && x != id),
{
    lemma_flat_groups_without(gs, id);
    lemma_no_dup_without(flat(gs), id);
    assert forall|i: int| 0 <= i < groups_without(gs, id).len() implies (#[trigger] groups_without(gs, id)[i]).1.len() > 0 by {
        lemma_groups_without_groups(gs, id, i);
    }
    assert forall|x: WindowId| #[trigger] flat(groups_without(gs, id)).contains(x) <==> (flat(gs).contains(x) && x != id) by {
        lemma_without_contains(flat(gs), id, x);
    }
}

/// Taking a window out of the strip keeps the state well formed.
pub proof fn lemma_without_in_strip_wf(m: StageView, id: WindowId)
    requires
        stage_wf(m),
    ensures
        stage_wf(without_in_strip(m, id)),
        !flat(without_in_strip(m, id).cast).contains(id),
        !flat(without_in_strip(m, id).hidden).contains(id),
{
    let r = without_in_strip(m, id);
    lemma_managed_no_dup(m);
    lemma_groups_without_wf(m.cast, id);
    lemma_groups_without_wf(m.hidden, id);
    let a = active_windows_of(m);
    lemma_disjoint_sub(flat(m.cast), flat(r.cast), a);
    lemma_disjoint_sub(flat(m.hidden), flat(r.hidden), a);
    lemma_disjoint_sub(flat(m.cast), flat(r.cast), flat(m.hidden));
    lemma_disjoint_sub(flat(m.hidden), flat(r.hidden), flat(r.cast));
    lemma_disjoint_facts(flat(r.hidden), flat(r.cast), flat(r.cast));
    lemma_managed_no_dup(r);
}

/// Enforcing the cast limit keeps the state well formed.
pub proof fn lemma_enforce_wf(m: StageView, max_cast: usize)
    requires
        stage_wf(m),
    ensures
        stage_wf(enforce_cast_limit_spec(m, max_cast)),
{
    law_enforce_cast_limit(m, max_cast);
    let r = enforce_cast_limit_spec(m, max_cast);
    if m.cast.len() > max_cast {
        assert forall|i: int| 0 <= i < r.cast.len() implies (#[trigger] r.cast[i]).1.len() > 0 by {
            assert(r.cast[i] == m.cast[i]);
        }
        assert forall|i: int| 0 <= i < r.hidden.len() implies (#[trigger] r.hidden[i]).1.len() > 0 by {
            let k = m.cast.len() - max_cast;
            if i < k {
                assert(r.hidden[i] == m.cast[i + max_cast]);
            } else {
                assert(r.hidden[i] == m.hidden[i - k]);
            }
        }
    }
}


proof fn lemma_prepend_group_wf(g: GroupView, gs: Seq<GroupView>)
    requires
        g.1.len() > 0,
        groups_nonempty(gs),
    ensures
        groups_nonempty(seq![g] + gs),
{
    assert forall|i: int| 0 <= i < (seq![g] + gs).len() implies (#[trigger] (seq![g] + gs)[i]).1.len() > 0 by {
        if i > 0 {
            assert((seq![g] + gs)[i] == gs[i - 1]);
        }
    }
}

proof fn lemma_prepend_window_no_dup(id: WindowId, s: Seq<WindowId>)
    requires
        s.no_duplicates(),
        !s.contains(id),
    ensures
        (seq![id] + s).no_duplicates(),
{
    lemma_no_dup_add(seq![id], s);
    assert forall|x: WindowId| #[trigger] seq![id].contains(x) implies !s.contains(x) by {
        lemma_singleton_contains(id, x);
    }
}

/// Inserting a window that is not managed into the strip keeps the state well formed.
pub proof fn lemma_insert_into_cast_wf(m: StageView, ws: WorkspaceInfo, id: WindowId)
    requires
        stage_wf(m),
        !managed(m).contains(id),
    ensures
        stage_wf(insert_into_cast_spec(m, ws, id)),
{
    let r = insert_into_cast_spec(m, ws, id);
    let a = active_windows_of(m);
    lemma_managed_no_dup(m);
    lemma_managed_contains(m, id);
    lemma_inserted_in_front_group(m, ws, id);
    assert(active_windows_of(r) == a);
    if !ws.stack_by_app {
        let gw = groups_without(m.cast, id);
        lemma_groups_without_wf(m.cast, id);
        lemma_groups_without_wf(m.hidden, id);
        lemma_flat_append(seq![(m.next_group_id, seq![id])], gw);
        lemma_flat_single((m.next_group_id, seq![id]));
        lemma_prepend_window_no_dup(id, flat(gw));
        lemma_prepend_group_wf((m.next_group_id, seq![id]), gw);
        assert forall|x: WindowId| #[trigger] flat(r.hidden).contains(x) ==> flat(m.hidden).contains(x) by {}
        lemma_disjoint_sub(flat(m.hidden), flat(r.hidden), a);
        assert forall|x: WindowId| #[trigger] flat(r.cast).contains(x) implies !flat(r.hidden).contains(x) by {
            lemma_flat_prepend_contains((m.next_group_id, seq![id]), gw, x);
            lemma_singleton_contains(id, x);
        }
        assert forall|x: WindowId| #[trigger] a.contains(x) implies !flat(r.cast).contains(x) by {
            lemma_flat_prepend_contains((m.next_group_id, seq![id]), gw, x);
            lemma_singleton_contains(id, x);
        }
    } else {
        match find_slot(ws, m.cast, key_of(ws, id)) {
            Some(idx) => {
                lemma_find_slot_range(ws, m.cast, key_of(ws, id));
                let g = m.cast[idx];
                let rest = m.cast.remove(idx);
                lemma_flat_remove_no_dup(m.cast, idx);
                lemma_flat_remove_contains(m.cast, idx, id);
                assert(!g.1.contains(id));
                let g2 = (g.0, seq![id] + g.1);
                assert(r.cast == seq![g2] + rest);
                lemma_prepend_window_no_dup(id, g.1);
                lemma_flat_append(seq![g2], rest);
                lemma_flat_single(g2);
                assert forall|x: WindowId| #[trigger] g2.1.contains(x) implies !flat(rest).contains(x) by {
                    lemma_contains_add(seq![id], g.1, x);
                    lemma_singleton_contains(id, x);
                }
                lemma_no_dup_add(g2.1, flat(rest));
                assert forall|i: int| 0 <= i < rest.len() implies (#[trigger] rest[i]).1.len() > 0 by {
                    m.cast.remove_ensures(idx);
                    if i < idx {
                        assert(rest[i] == m.cast[i]);
                    } else {
                        assert(rest[i] == m.cast[i + 1]);
                    }
                }
                lemma_prepend_group_wf(g2, rest);
                assert forall|x: WindowId| #[trigger] flat(r.cast).contains(x) implies (flat(
                    m.cast,
                ).contains(x) || x == id) by {
                    lemma_flat_prepend_contains(g2, rest, x);
                    lemma_flat_remove_contains(m.cast, idx, x);
                    lemma_contains_add(seq![id], g.1, x);
                    lemma_singleton_contains(id, x);
                }
            },
            None => {
                let g0 = (m.next_group_id, seq![id]);
                lemma_flat_append(seq![g0], m.cast);
                lemma_flat_single(g0);
                lemma_prepend_window_no_dup(id, flat(m.cast));
                lemma_prepend_group_wf(g0, m.cast);
                assert forall|x: WindowId| #[trigger] flat(r.cast).contains(x) implies (flat(
                    m.cast,
                ).contains(x) || x == id) by {
                    lemma_flat_prepend_contains(g0, m.cast, x);
                    lemma_singleton_contains(id, x);
                }
            },
        }
        assert(r.hidden == m.hidden);
        assert forall|x: WindowId| #[trigger] flat(r.cast).contains(x) implies !flat(r.hidden).contains(x) by {
            assert(flat(m.cast).contains(x) || x == id);
        }
        assert forall|x: WindowId| #[trigger] a.contains(x) implies !flat(r.cast).contains(x) by {
            if flat(r.cast).contains(x) {
                assert(flat(m.cast).contains(x) || x == id);
            }
        }
    }
    lemma_managed_no_dup(r);
}


/// Inserting into the strip, one after the other, windows that are distinct and not managed
/// keeps the state well formed.
pub proof fn lemma_insert_all_wf(m: StageView, ws: WorkspaceInfo, wins: Seq<WindowId>)
    requires
        stage_wf(m),
        wins.no_duplicates(),
        disjoint(wins, managed(m)),
    ensures
        stage_wf(insert_all_spec(m, ws, wins)),
    decreases wins.len(),
{
    if wins.len() > 0 {
        let init = wins.drop_last();
        let last = wins.last();
        assert(init.no_duplicates()) by {
            assert forall|i: int, j: int|
                0 <= i < init.len() && 0 <= j < init.len() && i != j implies init[i] != init[j] by {
                assert(wins[i] == init[i] && wins[j] == init[j]);
            }
        }
        assert(disjoint(init, managed(m))) by {
            assert forall|x: WindowId| #[trigger] init.contains(x) implies !managed(m).contains(x) by {
                let k = choose|k: int| 0 <= k < init.len() && init[k] == x;
                assert(wins[k] == x);
                assert(wins.contains(x));
            }
        }
        lemma_insert_all_wf(m, ws, init);
        let mid = insert_all_spec(m, ws, init);
        assert(!managed(mid).contains(last)) by {
            lemma_insert_all_manages(m, ws, init, last);
            assert(wins.contains(last)) by {
                assert(wins[wins.len() - 1] == last);
            }
            if init.contains(last) {
                let k = choose|k: int| 0 <= k < init.len() && init[k] == last;
                assert(wins[k] == wins[wins.len() - 1]);
            }
        }
        lemma_insert_into_cast_wf(mid, ws, last);
    }
}

/// Sending the stage windows to the strip keeps the state well formed.
pub proof fn lemma_demote_wf(m: StageView, ws: WorkspaceInfo, save: bool)
    requires
        stage_wf(m),
    ensures
        stage_wf(demote_active_spec(m, ws, save).0),
{
    match m.active {
        None => {},
        Some(g) => {
            let m0 = StageView { active: None, ..m };
            lemma_managed_no_dup(m);
            assert(active_windows_of(m0) =~= Seq::<WindowId>::empty());
            lemma_managed_no_dup(m0);
            assert(managed(m0) =~= flat(m.cast) + flat(m.hidden));
            assert(disjoint(g.1, managed(m0))) by {
                assert forall|x: WindowId| #[trigger] g.1.contains(x) implies !managed(m0).contains(x) by {
                    lemma_contains_add(flat(m.cast), flat(m.hidden), x);
                }
            }
            lemma_insert_all_wf(m0, ws, g.1);
        },
    }
}

/// Putting a single window on the stage keeps the state well formed.
pub proof fn lemma_stage_single_wf(m: StageView, ws: WorkspaceInfo, id: WindowId, max_cast: usize)
    requires
        stage_wf(m),
    ensures
        stage_wf(set_stage_single_spec(m, ws, id, max_cast).0),
{
    if !(m.active matches Some(g) && g.1 == seq![id]) {
        let was_parallel = m.active matches Some(g) && g.1.len() > 1;
        let m1 = without_in_strip(m, id);
        lemma_without_in_strip_wf(m, id);
        let m2 = demote_active_spec(m1, ws, !was_parallel).0;
        lemma_demote_wf(m1, ws, !was_parallel);
        lemma_demote_manages(m1, ws, !was_parallel, id);
        let m3 = without_in_strip(m2, id);
        lemma_without_in_strip_wf(m2, id);
        let m4 = StageView {
            active: Some((m3.next_group_id, seq![id])),
            next_group_id: next_id(m3.next_group_id),
            ..m3
        };
        lemma_managed_no_dup(m3);
        assert(active_windows_of(m3) =~= Seq::<WindowId>::empty());
        assert forall|x: WindowId| #[trigger] seq![id].contains(x) implies !flat(m4.cast).contains(x) by {
            lemma_singleton_contains(id, x);
        }
        assert forall|x: WindowId| #[trigger] seq![id].contains(x) implies !flat(m4.hidden).contains(x) by {
            lemma_singleton_contains(id, x);
        }
        lemma_managed_no_dup(m4);
        lemma_enforce_wf(m4, max_cast);
    }
}

/// Taking `t` out of group `i` keeps the windows free of repeats and no group empty.
proof fn lemma_take_out_of_group_wf(gs: Seq<GroupView>, i: int, t: WindowId)
    requires
        0 <= i < gs.len(),
        flat(gs).no_duplicates(),
        groups_nonempty(gs),
    ensures
        flat(take_out_of_group(gs, i, t)).no_duplicates(),
        groups_nonempty(take_out_of_group(gs, i, t)),
{
    lemma_flat_remove_no_dup(gs, i);
    gs.remove_ensures(i);
    if without(gs[i].1, t).len() == 0 {
        assert forall|k: int| 0 <= k < gs.remove(i).len() implies (#[trigger] gs.remove(i)[k]).1.len() > 0 by {
            if k < i {
                assert(gs.remove(i)[k] == gs[k]);
            } else {
                assert(gs.remove(i)[k] == gs[k + 1]);
            }
        }
    } else {
        let g2 = (gs[i].0, without(gs[i].1, t));
        let u = gs.update(i, g2);
        assert(u.remove(i) =~= gs.remove(i));
        lemma_no_dup_without(gs[i].1, t);
        assert forall|x: WindowId| #[trigger] g2.1.contains(x) implies gs[i].1.contains(x) by {
            lemma_without_contains(gs[i].1, t, x);
        }
        lemma_disjoint_sub(gs[i].1, g2.1, flat(gs.remove(i)));
        lemma_flat_remove_no_dup(u, i);
        assert forall|k: int| 0 <= k < u.len() implies (#[trigger] u[k]).1.len() > 0 by {
            if k != i {
                assert(u[k] == gs[k]);
            }
        }
    }
}


/// Taking a window off the stage keeps the state well formed; a window managed only on the
/// stage is then not managed.
proof fn lemma_remove_from_active_wf(m: StageView, id: WindowId)
    requires
        stage_wf(m),
    ensures
        stage_wf(remove_from_active(m, id)),
        is_stage(m, id) ==> !managed(remove_from_active(m, id)).contains(id),
{
    let r = remove_from_active(m, id);
    lemma_managed_no_dup(m);
    match m.active {
        Some(g) => {
            lemma_no_dup_without(g.1, id);
            assert forall|x: WindowId| #[trigger] active_windows_of(r).contains(x) implies active_windows_of(m).contains(x) by {
                lemma_without_contains(g.1, id, x);
                if without(g.1, id).len() == 0 {
                    assert(!Seq::<WindowId>::empty().contains(x));
                }
            }
            if without(g.1, id).len() == 0 {
                assert(active_windows_of(r) =~= Seq::<WindowId>::empty());
            }
            lemma_disjoint_sub(active_windows_of(m), active_windows_of(r), flat(m.cast));
            lemma_disjoint_sub(active_windows_of(m), active_windows_of(r), flat(m.hidden));
            lemma_managed_no_dup(r);
            if is_stage(m, id) {
                lemma_remove_from_active_manages(m, id, id);
            }
        },
        None => {},
    }
}

proof fn lemma_promote_wf(m: StageView, ws: WorkspaceInfo, id: WindowId, max_cast: usize)
    requires
        stage_wf(m),
    ensures
        stage_wf(promote_cast_to_stage_spec(m, ws, id, max_cast).0),
{
    let t = target_for(m, id);
    let m1 = StageView { new_cast_windows: without(m.new_cast_windows, t), ..m };
    lemma_managed_no_dup(m);
    if !is_stage(m, id) {
        match first_with(m1.cast, t) {
            Some(i) => {
                lemma_first_with_range(m.cast, t);
                let mc = StageView { cast: take_out_of_group(m1.cast, i, t), ..m1 };
                lemma_take_out_of_group_wf(m.cast, i, t);
                assert forall|x: WindowId| #[trigger] flat(mc.cast).contains(x) implies flat(m.cast).contains(x) by {
                    lemma_take_out_of_group_contains(m.cast, i, t, x);
                }
                lemma_disjoint_sub(flat(m.cast), flat(mc.cast), active_windows_of(m));
                lemma_disjoint_sub(flat(m.cast), flat(mc.cast), flat(m.hidden));
                lemma_disjoint_facts(flat(m.hidden), flat(mc.cast), flat(mc.cast));
                lemma_managed_no_dup(mc);
                lemma_stage_single_wf(mc, ws, t, max_cast);
            },
            None => match first_with(m1.hidden, t) {
                Some(i) => {
                    lemma_first_with_range(m.hidden, t);
                    let mh = StageView { hidden: take_out_of_group(m1.hidden, i, t), ..m1 };
                    lemma_take_out_of_group_wf(m.hidden, i, t);
                    assert forall|x: WindowId| #[trigger] flat(mh.hidden).contains(x) implies flat(m.hidden).contains(x) by {
                        lemma_take_out_of_group_contains(m.hidden, i, t, x);
                    }
                    lemma_disjoint_sub(flat(m.hidden), flat(mh.hidden), active_windows_of(m));
                    lemma_disjoint_sub(flat(m.hidden), flat(mh.hidden), flat(m.cast));
                    lemma_managed_no_dup(mh);
                    lemma_stage_single_wf(mh, ws, t, max_cast);
                },
                None => {
                    lemma_managed_no_dup(m1);
                },
            },
        }
    }
}

proof fn lemma_drag_to_cast_wf(m: StageView, ws: WorkspaceInfo, id: WindowId, max_cast: usize)
    requires
        stage_wf(m),
    ensures
        stage_wf(dragged_to_cast_spec(m, ws, id, max_cast).0),
{
    if is_stage(m, id) {
        let m1 = remove_from_active(m, id);
        lemma_remove_from_active_wf(m, id);
        lemma_managed_no_dup(m);
        lemma_insert_into_cast_wf(m1, ws, id);
        lemma_enforce_wf(insert_into_cast_spec(m1, ws, id), max_cast);
    }
}

proof fn lemma_force_to_cast_wf(m: StageView, ws: WorkspaceInfo, id: WindowId, max_cast: usize)
    requires
        stage_wf(m),
    ensures
        stage_wf(force_to_cast_spec(m, ws, id, max_cast).0),
{
    let m1 = StageView {
        stage_dialog_parents: m.stage_dialog_parents.filter(dialog_ne(id)),
        new_cast_windows: without(m.new_cast_windows, id),
        ..m
    };
    lemma_managed_no_dup(m);
    lemma_managed_no_dup(m1);
    let staged = is_stage(m1, id);
    let m2 = if staged {
        remove_from_active(m1, id)
    } else {
        m1
    };
    lemma_remove_from_active_wf(m1, id);
    let m3 = without_in_strip(m2, id);
    lemma_without_in_strip_wf(m2, id);
    lemma_managed_contains(m3, id);
    if staged {
        lemma_remove_from_active_manages(m1, id, id);
    }
    lemma_insert_into_cast_wf(m3, ws, id);
    lemma_enforce_wf(insert_into_cast_spec(m3, ws, id), max_cast);
}


proof fn lemma_no_dup_drop_last(s: Seq<WindowId>)
    requires
        s.no_duplicates(),
        s.len() > 0,
    ensures
        s.drop_last().no_duplicates(),
        !s.drop_last().contains(s.last()),
{
    let t = s.drop_last();
    assert forall|i: int, j: int| 0 <= i < t.len() && 0 <= j < t.len() && i != j implies t[i]
        != t[j] by {
        assert(s[i] == t[i] && s[j] == t[j]);
    }
    if t.contains(s.last()) {
        let k = choose|k: int| 0 <= k < t.len() && t[k] == s.last();
        assert(s[k] == s[s.len() - 1]);
    }
}

/// The windows popped off a stage group and those kept on it are distinct windows of it.
proof fn lemma_popped_kept_facts(s: Seq<WindowId>)
    requires
        s.no_duplicates(),
    ensures
        popped(s).no_duplicates(),
        kept(s).no_duplicates(),
        disjoint(popped(s), kept(s)),
        forall|x: WindowId| #[trigger] popped(s).contains(x) ==> s.contains(x),
        forall|x: WindowId| #[trigger] kept(s).contains(x) ==> s.contains(x),
        s.len() > 0 ==> kept(s).len() > 0,
    decreases s.len(),
{
    if s.len() >= 2 {
        let t = s.drop_last();
        lemma_no_dup_drop_last(s);
        lemma_popped_kept_facts(t);
        assert(kept(t) =~= kept(s));
        assert forall|x: WindowId| #[trigger] t.contains(x) implies s.contains(x) by {
            let k = choose|k: int| 0 <= k < t.len() && t[k] == x;
            assert(s[k] == x);
        }
        assert(s.contains(s.last())) by {
            assert(s[s.len() - 1] == s.last());
        }
        lemma_prepend_window_no_dup(s.last(), popped(t));
        assert forall|x: WindowId| #[trigger] popped(s).contains(x) implies s.contains(x) by {
            lemma_contains_add(seq![s.last()], popped(t), x);
            lemma_singleton_contains(s.last(), x);
        }
        assert forall|x: WindowId| #[trigger] popped(s).contains(x) implies !kept(s).contains(x) by {
            lemma_contains_add(seq![s.last()], popped(t), x);
            lemma_singleton_contains(s.last(), x);
        }
    } else {
        assert(popped(s) =~= Seq::<WindowId>::empty());
    }
}

proof fn lemma_drag_to_stage_wf(m: StageView, ws: WorkspaceInfo, id: WindowId, max_cast: usize)
    requires
        stage_wf(m),
    ensures
        stage_wf(dragged_to_stage_spec(m, ws, id, max_cast).0),
{
    if !is_stage(m, id) {
        let m1 = without_in_strip(m, id);
        lemma_without_in_strip_wf(m, id);
        lemma_managed_no_dup(m1);
        let demoted = match m1.active {
            Some(g) => popped(g.1),
            None => seq![],
        };
        let m2 = match m1.active {
            Some(g) => StageView {
                active: Some(
                    (
                        g.0,
                        if kept(g.1).contains(id) {
                            kept(g.1)
                        } else {
                            seq![id] + kept(g.1)
                        },
                    ),
                ),
                ..m1
            },
            None => StageView {
                active: Some((m1.next_group_id, seq![id])),
                next_group_id: next_id(m1.next_group_id),
                ..m1
            },
        };
        let a2 = active_windows_of(m2);
        match m1.active {
            Some(g) => {
                lemma_popped_kept_facts(g.1);
                assert(!g.1.contains(id));
                assert(!kept(g.1).contains(id));
                lemma_prepend_window_no_dup(id, kept(g.1));
                assert forall|x: WindowId| #[trigger] a2.contains(x) implies (g.1.contains(x) || x == id) by {
                    lemma_contains_add(seq![id], kept(g.1), x);
                    lemma_singleton_contains(id, x);
                }
                lemma_disjoint_facts(seq![id], kept(g.1), flat(m1.cast));
                assert forall|x: WindowId| #[trigger] a2.contains(x) implies !flat(m1.cast).contains(x) by {
                    assert(g.1.contains(x) || x == id);
                }
                assert forall|x: WindowId| #[trigger] a2.contains(x) implies !flat(m1.hidden).contains(x) by {
                    assert(g.1.contains(x) || x == id);
                }
                lemma_managed_no_dup(m2);
                assert(disjoint(demoted, managed(m2))) by {
                    assert forall|x: WindowId| #[trigger] demoted.contains(x) implies !managed(m2).contains(x) by {
                        lemma_managed_contains(m2, x);
                        lemma_contains_add(seq![id], kept(g.1), x);
                        lemma_singleton_contains(id, x);
                    }
                }
                lemma_insert_all_wf(m2, ws, demoted);
            },
            None => {
                lemma_no_dup_single(id);
                assert forall|x: WindowId| #[trigger] a2.contains(x) implies !flat(m1.cast).contains(x) by {
                    lemma_singleton_contains(id, x);
                }
                assert forall|x: WindowId| #[trigger] a2.contains(x) implies !flat(m1.hidden).contains(x) by {
                    lemma_singleton_contains(id, x);
                }
                lemma_managed_no_dup(m2);
                assert(insert_all_spec(m2, ws, demoted) == m2);
            },
        }
        let m3 = insert_all_spec(m2, ws, demoted);
        let pair = m3.active matches Some(g) && g.1.len() == 2;
        let m4 = if pair {
            StageView {
                interaction_target: None,
                interaction_since: None,
                hovered_cast: None,
                ..m3
            }
        } else {
            m3
        };
        lemma_managed_no_dup(m3);
        lemma_managed_no_dup(m4);
        lemma_enforce_wf(m4, max_cast);
    }
}


/// Showing a dialog alone on the stage keeps the state well formed.
proof fn lemma_open_dialog_wf(m: StageView, ws: WorkspaceInfo, d: WindowId, p: WindowId, max_cast: usize)
    requires
        stage_wf(m),
    ensures
        stage_wf(open_stage_dialog_spec(m, ws, d, p, max_cast).0),
{
    let m0 = without_in_strip(m, d);
    lemma_without_in_strip_wf(m, d);
    let m1 = StageView { new_cast_windows: without(m.new_cast_windows, d), ..m0 };
    lemma_managed_no_dup(m0);
    lemma_managed_no_dup(m1);
    let staged = is_stage(m1, p);
    let r1 = remove_from_active(m1, p);
    lemma_remove_from_active_wf(m1, p);
    let m2 = if staged {
        insert_into_cast_spec(r1, ws, p)
    } else {
        m1
    };
    if staged {
        lemma_insert_into_cast_wf(r1, ws, p);
    }
    let dp = m2.stage_dialog_parents.filter(parent_ne(p)).push((d, p));
    let m2d = StageView { stage_dialog_parents: dp, ..m2 };
    lemma_managed_no_dup(m2);
    lemma_managed_no_dup(m2d);
    let m3 = without_in_strip(m2d, d);
    lemma_without_in_strip_wf(m2d, d);
    let m4 = StageView {
        active: Some((m3.next_group_id, seq![d])),
        next_group_id: next_id(m3.next_group_id),
        ..m3
    };
    lemma_managed_no_dup(m3);
    assert forall|x: WindowId| #[trigger] seq![d].contains(x) implies !flat(m4.cast).contains(x) by {
        lemma_singleton_contains(d, x);
    }
    assert forall|x: WindowId| #[trigger] seq![d].contains(x) implies !flat(m4.hidden).contains(x) by {
        lemma_singleton_contains(d, x);
    }
    lemma_managed_no_dup(m4);
    lemma_enforce_wf(m4, max_cast);
}

proof fn lemma_added_wf(m: StageView, ws: WorkspaceInfo, id: WindowId, max_cast: usize)
    requires
        stage_wf(m),
        !managed(m).contains(id),
    ensures
        stage_wf(on_window_added_spec(m, ws, id, max_cast).0),
{
    lemma_managed_contains(m, id);
    if m.active is None && m.cast.len() == 0 && m.hidden.len() == 0 {
        let r = on_window_added_spec(m, ws, id, max_cast).0;
        assert(flat(m.cast) =~= Seq::<WindowId>::empty());
        assert(flat(m.hidden) =~= Seq::<WindowId>::empty());
        lemma_no_dup_single(id);
        assert(managed(r) =~= seq![id]);
    } else if !is_stage(m, id) {
        match stage_parent_on_stage_spec(m, ws, id) {
            Some(p) => {
                lemma_open_dialog_wf(m, ws, id, p, max_cast);
            },
            None => {
                let m1 = StageView {
                    new_cast_windows: without(m.new_cast_windows, id).push(id),
                    ..m
                };
                lemma_managed_no_dup(m);
                lemma_managed_no_dup(m1);
                lemma_insert_into_cast_wf(m1, ws, id);
                lemma_enforce_wf(insert_into_cast_spec(m1, ws, id), max_cast);
            },
        }
    }
}

proof fn lemma_removed_wf(m: StageView, id: WindowId, max_cast: usize)
    requires
        stage_wf(m),
    ensures
        stage_wf(on_window_removed_spec(m, id, max_cast).0),
{
    if m.interactive_move_stage != Some(id) {
        let restore = dialog_parent(m.stage_dialog_parents, id);
        let m0 = StageView { active: active_after_close(m.active, id), ..m };
        // Closing takes the window off the stage as taking it off the stage does.
        assert(m0.active == remove_from_active(m, id).active) by {
            match m.active {
                Some(g) => {
                    if !g.1.contains(id) {
                        lemma_without_contains(g.1, id, id);
                        assert(without(g.1, id).len() > 0) by {
                            broadcast use vstd::seq_lib::group_filter_ensures;

                            assert(ne(id)(g.1[0]));
                            assert(without(g.1, id).contains(g.1[0]));
                        }
                    } else {
                        lemma_without_contains(g.1, id, id);
                    }
                },
                None => {},
            }
        }
        lemma_remove_from_active_wf(m, id);
        let m1 = StageView {
            stage_dialog_parents: m.stage_dialog_parents.filter(dialog_ne(id)),
            new_cast_windows: without(m.new_cast_windows, id),
            active: active_after_close(m.active, id),
            ..m
        };
        lemma_managed_no_dup(remove_from_active(m, id));
        lemma_managed_no_dup(m1);
        let m2 = without_in_strip(m1, id);
        lemma_without_in_strip_wf(m1, id);
        match restore {
            Some(p) => {
                let m3 = without_in_strip(m2, p);
                lemma_without_in_strip_wf(m2, p);
                let m4 = StageView {
                    active: Some((m3.next_group_id, seq![p])),
                    next_group_id: next_id(m3.next_group_id),
                    ..m3
                };
                lemma_managed_no_dup(m3);
                assert forall|x: WindowId| #[trigger] seq![p].contains(x) implies !flat(m4.cast).contains(x) by {
                    lemma_singleton_contains(p, x);
                }
                assert forall|x: WindowId| #[trigger] seq![p].contains(x) implies !flat(m4.hidden).contains(x) by {
                    lemma_singleton_contains(p, x);
                }
                lemma_managed_no_dup(m4);
                lemma_enforce_wf(m4, max_cast);
            },
            None => {
                let rf = refill_stage(m2);
                lemma_refill_keeps_managed(m2);
                if m2.active is None {
                    if m2.cast.len() > 0 {
                        assert forall|i: int| 0 <= i < rf.cast.len() implies (#[trigger] rf.cast[i]).1.len() > 0 by {
                            assert(rf.cast[i] == m2.cast[i + 1]);
                        }
                    } else if m2.hidden.len() > 0 {
                        assert forall|i: int| 0 <= i < rf.hidden.len() implies (#[trigger] rf.hidden[i]).1.len() > 0 by {
                            assert(rf.hidden[i] == m2.hidden[i + 1]);
                        }
                    }
                }
                lemma_enforce_wf(rf, max_cast);
                let m4 = enforce_cast_limit_spec(rf, max_cast);
                let m5 = StageView { hovered_cast: None, ..m4 };
                lemma_managed_no_dup(m4);
                lemma_managed_no_dup(m5);
            },
        }
    }
}

/// Every window event keeps the state well formed (every window managed at most once, no
/// group empty), a window that opens being one not managed yet; and a window that opens is
/// managed once afterwards.
pub proof fn law_events_keep_state_well_formed(
    m: StageView,
    ws: WorkspaceInfo,
    id: WindowId,
    max_cast: usize,
)
    requires
        stage_wf(m),
    ensures
        !managed(m).contains(id) ==> stage_wf(on_window_added_spec(m, ws, id, max_cast).0),
        stage_wf(on_window_removed_spec(m, id, max_cast).0),
        stage_wf(on_window_activated_spec(m, ws, id, max_cast).0),
        stage_wf(promote_cast_to_stage_spec(m, ws, id, max_cast).0),
        stage_wf(dragged_to_stage_spec(m, ws, id, max_cast).0),
        stage_wf(dragged_to_cast_spec(m, ws, id, max_cast).0),
        stage_wf(force_to_cast_spec(m, ws, id, max_cast).0),
        stage_wf(toggle_main_spec(m, ws, id, max_cast).0),
        stage_wf(promote_parallel_spec(m, ws, id, max_cast).0),
        stage_wf(on_parent_changed_spec(m, ws, id, max_cast).0),
{
    if !managed(m).contains(id) {
        lemma_added_wf(m, ws, id, max_cast);
    }
    lemma_removed_wf(m, id, max_cast);
    lemma_promote_wf(m, ws, id, max_cast);
    let t = target_for(m, id);
    lemma_managed_no_dup(m);
    lemma_managed_no_dup(StageView { new_cast_windows: without(m.new_cast_windows, t), ..m });
    lemma_drag_to_stage_wf(m, ws, id, max_cast);
    lemma_drag_to_stage_wf(m, ws, t, max_cast);
    lemma_drag_to_cast_wf(m, ws, id, max_cast);
    lemma_drag_to_cast_wf(m, ws, t, max_cast);
    lemma_force_to_cast_wf(m, ws, id, max_cast);
    lemma_stage_single_wf(m, ws, t, max_cast);
    match stage_parent_of_spec(m, ws, id) {
        Some(p) => {
            lemma_open_dialog_wf(m, ws, id, p, max_cast);
        },
        None => {},
    }
}


/// The decisions on drops, drags and the dwell timer keep the state well formed too.
#[verifier::spinoff_prover]
#[verifier::rlimit(50)]
pub proof fn law_policies_keep_state_well_formed(
    m: StageView,
    ws: WorkspaceInfo,
    window: WindowId,
    max_cast: usize,
    in_stage_area: bool,
    in_stack_area: bool,
    auto_use_as_main: bool,
    delay_ms: u32,
    suppress: bool,
    focused: Option<WindowId>,
    now: u64,
)
    requires
        stage_wf(m),
    ensures
        stage_wf(cross_monitor_move_finish_spec(m, ws, max_cast, window).0),
        stage_wf(strip_drag_end_spec(m, ws, max_cast, window, in_stage_area, in_stack_area).0),
        stage_wf(
            tick_auto_use_as_main_spec(
                m,
                ws,
                auto_use_as_main,
                delay_ms,
                max_cast,
                suppress,
                focused,
                now,
            ).0,
        ),
{
    lemma_force_to_cast_wf(m, ws, window, max_cast);
    lemma_stage_single_wf(m, ws, window, max_cast);
    lemma_drag_to_stage_wf(m, ws, window, max_cast);
    lemma_drag_to_cast_wf(m, ws, window, max_cast);
    assert forall|n: StageView|
        n.active == m.active && n.cast == m.cast && n.hidden == m.hidden implies #[trigger] stage_wf(n) by {
        lemma_managed_no_dup(n);
    }
    let target = match focused {
        Some(w) => opt_usize(first_with(strip(m), w)),
        None => None,
    };
    if let Some(idx) = target {
        if let Some(id) = strip_front(m, idx as int) {
            assert forall|n: StageView|
                n.active == m.active && n.cast == m.cast && n.hidden == m.hidden implies #[trigger] stage_wf(
                    clear_timer(set_stage_single_spec(
                        StageView { new_cast_windows: without(n.new_cast_windows, id), ..n },
                        ws,
                        id,
                        max_cast,
                    ).0),
                ) by {
                let n2 = StageView { new_cast_windows: without(n.new_cast_windows, id), ..n };
                lemma_managed_no_dup(n2);
                lemma_stage_single_wf(n2, ws, id, max_cast);
                let r = set_stage_single_spec(n2, ws, id, max_cast).0;
                lemma_managed_no_dup(r);
                lemma_managed_no_dup(clear_timer(r));
            }
        }
    }
}


/// The dwell timer: when the focused strip slot has stayed the timer's target for the whole
/// delay, its front window goes alone onto the stage (after the stage sizes are saved) and the
/// timer stops; before that, the stage is left as it is.
pub proof fn law_dwell_timer_promotes_after_delay(
    m: StageView,
    ws: WorkspaceInfo,
    delay_ms: u32,
    max_cast: usize,
    focused: WindowId,
    now: u64,
)
    requires
        m.stage_dialog_parents.len() == 0,
        !parallel_active(m),
        first_with(strip(m), focused) matches Some(idx) && m.interaction_target == Some(
            idx as usize,
        ) && idx <= usize::MAX,
        m.interaction_since is Some,
    ensures
        ({
            let idx = first_with(strip(m), focused)->Some_0;
            let since = m.interaction_since->Some_0;
            let elapsed = if now >= since {
                now - since
            } else {
                0
            };
            let r = tick_auto_use_as_main_spec(
                m,
                ws,
                true,
                delay_ms,
                max_cast,
                false,
                Some(focused),
                now,
            );
            &&& elapsed < delay_ms * 1_000_000 ==> r.0.active == m.active && r.1.len() == 0
            &&& elapsed >= delay_ms * 1_000_000 ==> (strip_front(m, idx) matches Some(f) ==> (
            !is_stage(m, f) ==> {
                &&& r.2
                &&& active_windows_of(r.0) == seq![f]
                &&& r.1[0] == StageAction::SaveActiveSizes
                &&& r.0.interaction_target is None
            }))
        }),
{
    let idx = first_with(strip(m), focused)->Some_0;
    lemma_first_with_range(strip(m), focused);
    assert(opt_usize(first_with(strip(m), focused)) == Some(idx as usize));
    match strip_front(m, idx) {
        Some(f) => {
            let m2 = StageView { new_cast_windows: without(m.new_cast_windows, f), ..m };
            lemma_stage_single(m2, ws, f, max_cast);
        },
        None => {},
    }
}


/// The dwell timer restarts whenever focus moves to another strip slot: the tick takes that
/// slot as the timer's target and the current time as its start, reports a change, and (the
/// delay being nonzero) leaves the stage and the strip as they were, with no effect.
pub proof fn law_dwell_timer_restarts_on_new_slot(
    m: StageView,
    ws: WorkspaceInfo,
    delay_ms: u32,
    max_cast: usize,
    focused: WindowId,
    now: u64,
)
    requires
        m.stage_dialog_parents.len() == 0,
        !parallel_active(m),
        first_with(strip(m), focused) matches Some(idx) && idx <= usize::MAX
            && m.interaction_target != Some(idx as usize),
        delay_ms > 0,
    ensures
        ({
            let idx = first_with(strip(m), focused)->Some_0;
            let r = tick_auto_use_as_main_spec(
                m,
                ws,
                true,
                delay_ms,
                max_cast,
                false,
                Some(focused),
                now,
            );
            &&& r.0.interaction_target == Some(idx as usize)
            &&& r.0.interaction_since == Some(now)
            &&& r.0.active == m.active
            &&& r.0.cast == m.cast
            &&& r.0.hidden == m.hidden
            &&& r.1.len() == 0
            &&& r.2
        }),
{
    let idx = first_with(strip(m), focused)->Some_0;
    lemma_first_with_range(strip(m), focused);
    assert(opt_usize(first_with(strip(m), focused)) == Some(idx as usize));
}

/// Activating a managed window that has a dialog on the stage goes to that dialog: when a
/// stage window is a dialog of a window the stage manager manages (on the stage or in the
/// strip), the modal overlay of that parent is a stage window whose parent it is, and
/// activating the parent resolves to it; when the dialog is the last stage window, it is the
/// overlay.
pub proof fn law_activating_a_parent_goes_to_its_dialog(
    m: StageView,
    ws: WorkspaceInfo,
    d: WindowId,
    p: WindowId,
)
    requires
        is_stage(m, d),
        window_entry(ws.windows@, d) matches Some(e) && e.parent == Some(p),
        p != d,
        managed(m).contains(p),
        window_entry(ws.windows@, p) is Some,
    ensures
        overlay_for(m, ws, p) matches Some(o) && is_stage(m, o) && o != p && (window_entry(
            ws.windows@,
            o,
        ) matches Some(e) && e.parent == Some(p)),
        resolve_activation(m, ws, p) != p,
        window_entry(ws.windows@, resolve_activation(m, ws, p)) matches Some(e) && e.parent == Some(
            p,
        ),
        active_windows_of(m).last() == d ==> overlay_for(m, ws, p) == Some(d),
{
    let g = m.active->Some_0;
    assert(stage_parent_of_spec(m, ws, d) == Some(p));
    let k = choose|k: int| 0 <= k < g.1.len() && g.1[k] == d;
    lemma_last_child_found(m, ws, g.1, p, k);
    let o = last_child_of(m, ws, g.1, p)->Some_0;
    assert(stage_parent_of_spec(m, ws, o) == Some(p));
    if active_windows_of(m).last() == d {
        assert(g.1[g.1.len() - 1] == d);
    }
}

/// The last of `s` whose managed parent is `p` exists once one of `s` has that parent.
proof fn lemma_last_child_found(
    m: StageView,
    ws: WorkspaceInfo,
    s: Seq<WindowId>,
    p: WindowId,
    k: int,
)
    requires
        0 <= k < s.len(),
        stage_parent_of_spec(m, ws, s[k]) == Some(p),
    ensures
        last_child_of(m, ws, s, p) matches Some(o) && s.contains(o) && stage_parent_of_spec(
            m,
            ws,
            o,
        ) == Some(p),
    decreases s.len(),
{
    if stage_parent_of_spec(m, ws, s.last()) == Some(p) {
        assert(s[s.len() - 1] == s.last());
    } else {
        assert(s.drop_last()[k] == s[k]);
        lemma_last_child_found(m, ws, s.drop_last(), p, k);
        let o = last_child_of(m, ws, s.drop_last(), p)->Some_0;
        let j = choose|j: int| 0 <= j < s.drop_last().len() && s.drop_last()[j] == o;
        assert(s[j] == o);
    }
}

/// Keyboard focus moves along the whole strip, the visible groups and then the hidden
/// overflow: from a window of group `i` (and of no earlier group), a step forward along the
/// strip's axis gives the front window of group `i + 1`, a step back that of group `i - 1`,
/// nothing past either end, and nothing across the axis.
pub proof fn law_strip_focus_follows_whole_strip(
    m: StageView,
    pos: StackPosition,
    current: WindowId,
    dir: FocusDirection,
    i: int,
)
    requires
        0 <= i < (m.cast + m.hidden).len(),
        forall|k: int|
            0 <= k < (m.cast + m.hidden).len() ==> (#[trigger] (m.cast + m.hidden)[k]).1.len() > 0,
        (m.cast + m.hidden)[i].1.contains(current),
        forall|k: int|
            0 <= k < i ==> !(#[trigger] (m.cast + m.hidden)[k]).1.contains(current) && !(m.cast
                + m.hidden)[k].1.contains((m.cast + m.hidden)[i].1[0]),
    ensures
        ({
            let gs = m.cast + m.hidden;
            let vertical = pos is Left || pos is Right;
            let forward = (vertical && dir is Down) || (!vertical && dir is Right);
            let backward = (vertical && dir is Up) || (!vertical && dir is Left);
            let r = strip_neighbor(m, pos, current, dir);
            &&& forward ==> r == (if i + 1 < gs.len() {
                Some(gs[i + 1].1[0])
            } else {
                None
            })
            &&& backward ==> r == (if i > 0 {
                Some(gs[i - 1].1[0])
            } else {
                None
            })
            &&& !forward && !backward ==> r is None
        }),
{
    let gs = m.cast + m.hidden;
    lemma_first_with(gs, current, i);
    let t = gs[i].1[0];
    assert(target_for(m, current) == t);
    lemma_fronts_index(gs);
    let ids = fronts(gs);
    assert forall|k: int| 0 <= k < i implies ids[k] != t by {
        assert(ids[k] == gs[k].1[0]);
        assert(gs[k].1.contains(gs[k].1[0]));
    }
    lemma_first_index(ids, t, i);
}

/// With no empty group, the fronts are the first windows of the groups, one per group.
proof fn lemma_fronts_index(gs: Seq<GroupView>)
    requires
        forall|k: int| 0 <= k < gs.len() ==> (#[trigger] gs[k]).1.len() > 0,
    ensures
        fronts(gs).len() == gs.len(),
        forall|k: int| 0 <= k < gs.len() ==> #[trigger] fronts(gs)[k] == gs[k].1[0],
    decreases gs.len(),
{
    if gs.len() > 0 {
        let g = gs.drop_last();
        assert forall|k: int| 0 <= k < g.len() implies (#[trigger] g[k]).1.len() > 0 by {
            assert(g[k] == gs[k]);
        }
        lemma_fronts_index(g);
        assert(gs[gs.len() - 1] == gs.last());
        assert forall|k: int| 0 <= k < gs.len() implies #[trigger] fronts(gs)[k] == gs[k].1[0] by {
            if k < g.len() {
                assert(g[k] == gs[k]);
            }
        }
    }
}


// ---------------------------------------------------------------------------------------------
// Rebuilding the state from the workspace.

/// The groups of keyed groups.
pub open spec fn unkeyed(gs: Seq<(Option<u64>, GroupView)>) -> Seq<GroupView> {
    gs.map_values(|e: (Option<u64>, GroupView)| e.1)
}

proof fn lemma_key_index_range(gs: Seq<(Option<u64>, GroupView)>, k: Option<u64>)
    ensures
        key_index(gs, k) matches Some(j) ==> 0 <= j < gs.len(),
{
}

/// Grouping distinct windows by key gives nonempty groups that hold those windows, each once.
proof fn lemma_build_groups_windows(ws: WorkspaceInfo, ids: Seq<WindowId>, next: u64)
    requires
        ids.no_duplicates(),
    ensures
        groups_nonempty(unkeyed(build_groups(ws, ids, next).0)),
        flat(unkeyed(build_groups(ws, ids, next).0)).no_duplicates(),
        forall|x: WindowId| #[trigger] flat(unkeyed(build_groups(ws, ids, next).0)).contains(x) <==> ids.contains(x),
    decreases ids.len(),
{
    if ids.len() == 0 {
        assert(unkeyed(build_groups(ws, ids, next).0) =~= Seq::<GroupView>::empty());
        assert(flat(Seq::<GroupView>::empty()) =~= Seq::<WindowId>::empty());
    } else {
        let init = ids.drop_last();
        let id = ids.last();
        lemma_no_dup_drop_last(ids);
        lemma_build_groups_windows(ws, init, next);
        let (gs, n) = build_groups(ws, init, next);
        let u = unkeyed(gs);
        let k = key_of(ws, id);
        let r = build_groups(ws, ids, next).0;
        let ur = unkeyed(r);
        assert forall|x: WindowId| #[trigger] ids.contains(x) <==> (init.contains(x) || x == id) by {
            assert(ids =~= init + seq![id]);
            lemma_contains_add(init, seq![id], x);
            lemma_singleton_contains(id, x);
        }
        lemma_key_index_range(gs, k);
        match key_index(gs, k) {
            Some(j) => {
                let g2 = (gs[j].1.0, seq![id] + gs[j].1.1);
                assert(ur =~= u.update(j, g2));
                assert(!u[j].1.contains(id)) by {
                    lemma_flat_remove_contains(u, j, id);
                }
                lemma_flat_remove_no_dup(u, j);
                lemma_prepend_window_no_dup(id, u[j].1);
                assert(ur.remove(j) =~= u.remove(j));
                assert forall|x: WindowId| #[trigger] g2.1.contains(x) implies !flat(ur.remove(j)).contains(x) by {
                    lemma_contains_add(seq![id], u[j].1, x);
                    lemma_singleton_contains(id, x);
                    lemma_flat_remove_contains(u, j, x);
                }
                assert(ur[j] == g2);
                lemma_flat_remove_no_dup(ur, j);
                assert forall|x: WindowId| #[trigger] flat(ur).contains(x) <==> ids.contains(x) by {
                    lemma_flat_update_contains(u, j, g2, x);
                    lemma_flat_remove_contains(u, j, x);
                    lemma_contains_add(seq![id], u[j].1, x);
                    lemma_singleton_contains(id, x);
                }
                assert forall|i: int| 0 <= i < ur.len() implies (#[trigger] ur[i]).1.len() > 0 by {
                    if i != j {
                        assert(ur[i] == u[i]);
                    }
                }
            },
            None => {
                let g2 = (n, seq![id]);
                assert(ur =~= u.push(g2));
                assert(ur.drop_last() =~= u);
                assert(flat(ur) == flat(u) + seq![id]);
                lemma_no_dup_add(flat(u), seq![id]);
                assert forall|x: WindowId| #[trigger] flat(u).contains(x) implies !seq![id].contains(x) by {
                    lemma_singleton_contains(id, x);
                }
                assert forall|x: WindowId| #[trigger] flat(ur).contains(x) <==> ids.contains(x) by {
                    lemma_contains_add(flat(u), seq![id], x);
                    lemma_singleton_contains(id, x);
                }
                assert forall|i: int| 0 <= i < ur.len() implies (#[trigger] ur[i]).1.len() > 0 by {
                    if i < u.len() {
                        assert(ur[i] == u[i]);
                    }
                }
            },
        }
    }
}


/// Placing groups that hold distinct windows: the group holding `a` gives it up to the stage,
/// everything else goes to the strip, each window once.
proof fn lemma_place_groups_windows(m: StageView, gs: Seq<(Option<u64>, GroupView)>, a: WindowId)
    requires
        m.active is None,
        m.cast.len() == 0,
        m.hidden.len() == 0,
        groups_nonempty(unkeyed(gs)),
        flat(unkeyed(gs)).no_duplicates(),
    ensures
        place_groups(m, gs, a).hidden.len() == 0,
        groups_nonempty(place_groups(m, gs, a).cast),
        flat(place_groups(m, gs, a).cast).no_duplicates(),
        !flat(place_groups(m, gs, a).cast).contains(a),
        place_groups(m, gs, a).active is Some <==> flat(unkeyed(gs)).contains(a),
        place_groups(m, gs, a).active matches Some(g) ==> g.1 == seq![a],
        forall|x: WindowId| #[trigger] flat(place_groups(m, gs, a).cast).contains(x) <==> (flat(
            unkeyed(gs),
        ).contains(x) && x != a),
    decreases gs.len(),
{
    if gs.len() == 0 {
        assert(unkeyed(gs) =~= Seq::<GroupView>::empty());
        assert(flat(Seq::<GroupView>::empty()) =~= Seq::<WindowId>::empty());
    } else {
        let init = gs.drop_last();
        let u = unkeyed(gs);
        let ui = unkeyed(init);
        assert(ui =~= u.drop_last());
        assert(u.last() == gs.last().1);
        assert(flat(u) == flat(ui) + gs.last().1.1);
        lemma_no_dup_add(flat(ui), gs.last().1.1);
        assert forall|i: int| 0 <= i < ui.len() implies (#[trigger] ui[i]).1.len() > 0 by {
            assert(ui[i] == u[i]);
        }
        lemma_place_groups_windows(m, init, a);
        let m0 = place_groups(m, init, a);
        let g = gs.last().1;
        let r = place_groups(m, gs, a);
        assert(g.1.len() > 0) by {
            assert(u[u.len() - 1] == g);
        }
        assert forall|x: WindowId| #[trigger] flat(u).contains(x) <==> (flat(ui).contains(x) || g.1.contains(x)) by {
            lemma_contains_add(flat(ui), g.1, x);
        }
        assert forall|x: WindowId| #[trigger] flat(m0.cast).contains(x) implies flat(ui).contains(x) by {}
        lemma_disjoint_sub(flat(ui), flat(m0.cast), g.1);
        lemma_disjoint_facts(g.1, flat(m0.cast), flat(m0.cast));
        if g.1.contains(a) {
            let sib = without(g.1, a);
            lemma_no_dup_without(g.1, a);
            assert forall|x: WindowId| #[trigger] sib.contains(x) <==> (g.1.contains(x) && x != a) by {
                lemma_without_contains(g.1, a, x);
            }
            lemma_disjoint_sub(g.1, sib, flat(m0.cast));
            if sib.len() > 0 {
                let c = m0.cast.push((g.0, sib));
                assert(c.drop_last() =~= m0.cast);
                assert(flat(c) == flat(m0.cast) + sib);
                lemma_no_dup_add(flat(m0.cast), sib);
                assert forall|x: WindowId| #[trigger] flat(c).contains(x) <==> (flat(m0.cast).contains(x) || sib.contains(x)) by {
                    lemma_contains_add(flat(m0.cast), sib, x);
                }
                assert forall|i: int| 0 <= i < c.len() implies (#[trigger] c[i]).1.len() > 0 by {
                    if i < m0.cast.len() {
                        assert(c[i] == m0.cast[i]);
                    }
                }
            }
        } else {
            let c = m0.cast.push(g);
            assert(c.drop_last() =~= m0.cast);
            assert(flat(c) == flat(m0.cast) + g.1);
            lemma_no_dup_add(flat(m0.cast), g.1);
            assert forall|x: WindowId| #[trigger] flat(c).contains(x) <==> (flat(m0.cast).contains(x) || g.1.contains(x)) by {
                lemma_contains_add(flat(m0.cast), g.1, x);
            }
            assert forall|i: int| 0 <= i < c.len() implies (#[trigger] c[i]).1.len() > 0 by {
                if i < m0.cast.len() {
                    assert(c[i] == m0.cast[i]);
                }
            }
        }
    }
}

/// Rebuilding the state from a workspace whose windows are distinct gives a well-formed state
/// that manages exactly the workspace's windows, with at most `max_cast` groups visible in the
/// strip; the focused window, when it is one of them, is alone on the stage, and without a
/// focused window the first window is.
pub proof fn law_rebuild_manages_workspace_windows(
    ws: WorkspaceInfo,
    active: Option<WindowId>,
    max_cast: usize,
)
    requires
        window_ids(ws).no_duplicates(),
    ensures
        ({
            let r = from_workspace_spec(ws, active, max_cast);
            let ids = window_ids(ws);
            &&& stage_wf(r)
            &&& r.cast.len() <= max_cast
            &&& forall|x: WindowId| #[trigger] managed(r).contains(x) <==> ids.contains(x)
            &&& (active matches Some(a) ==> (ids.contains(a) ==> active_windows_of(r) == seq![a]))
            &&& (active is None && ids.len() > 0 ==> active_windows_of(r) == seq![ids[0]])
        }),
{
    let p = placed_from_workspace(ws, active);
    lemma_placed_manages_workspace_windows(ws, active);
    law_enforce_cast_limit(p, max_cast);
    lemma_enforce_wf(p, max_cast);
}

proof fn lemma_placed_manages_workspace_windows(ws: WorkspaceInfo, active: Option<WindowId>)
    requires
        window_ids(ws).no_duplicates(),
    ensures
        ({
            let r = placed_from_workspace(ws, active);
            let ids = window_ids(ws);
            &&& stage_wf(r)
            &&& forall|x: WindowId| #[trigger] managed(r).contains(x) <==> ids.contains(x)
            &&& (active matches Some(a) ==> (ids.contains(a) ==> active_windows_of(r) == seq![a]))
            &&& (active is None && ids.len() > 0 ==> active_windows_of(r) == seq![ids[0]])
        }),
{
    let ids = window_ids(ws);
    let r = placed_from_workspace(ws, active);
    if ids.len() == 0 {
        assert(flat(Seq::<GroupView>::empty()) =~= Seq::<WindowId>::empty());
        assert(managed(r) =~= Seq::<WindowId>::empty());
    } else {
        let (gs, n) = build_groups(ws, ids, 0);
        lemma_build_groups_windows(ws, ids, 0);
        let a = match active {
            Some(a) => a,
            None => ids[0],
        };
        let empty = StageView {
            active: None,
            cast: seq![],
            hidden: seq![],
            next_group_id: n,
            hovered_cast: None,
            interaction_target: None,
            interaction_since: None,
            new_cast_windows: seq![],
            interactive_move_stage: None,
            stage_dialog_parents: seq![],
        };
        lemma_place_groups_windows(empty, gs, a);
        let m = place_groups(empty, gs, a);
        assert(flat(m.hidden) =~= Seq::<WindowId>::empty());
        assert(active is None ==> ids.contains(ids[0]));
        if m.active is Some {
            lemma_no_dup_single(a);
            assert forall|x: WindowId| #[trigger] seq![a].contains(x) implies !flat(m.cast).contains(x) by {
                lemma_singleton_contains(a, x);
            }
            lemma_managed_no_dup(m);
            assert forall|x: WindowId| #[trigger] managed(m).contains(x) <==> ids.contains(x) by {
                lemma_managed_contains(m, x);
                lemma_singleton_contains(a, x);
            }
        } else if m.cast.len() > 0 {
            let g = m.cast[0];
            let rest = m.cast.drop_first();
            lemma_flat_drop_first(m.cast);
            assert(g.1.len() > 0);
            assert(seq![g.1[0]] + g.1.skip(1) =~= g.1);
            if g.1.len() > 1 {
                lemma_flat_prepend_contains((g.0, g.1.skip(1)), rest, a);
                lemma_flat_append(seq![(g.0, g.1.skip(1))], rest);
                lemma_flat_single((g.0, g.1.skip(1)));
                assert(managed(r) =~= managed(m));
                assert forall|i: int| 0 <= i < r.cast.len() implies (#[trigger] r.cast[i]).1.len() > 0 by {
                    if i > 0 {
                        assert(r.cast[i] == m.cast[i]);
                    }
                }
            } else {
                assert(g.1 =~= seq![g.1[0]]);
                assert(managed(r) =~= managed(m));
                assert forall|i: int| 0 <= i < r.cast.len() implies (#[trigger] r.cast[i]).1.len() > 0 by {
                    assert(r.cast[i] == m.cast[i + 1]);
                }
            }
            lemma_managed_no_dup(m);
            assert forall|x: WindowId| #[trigger] managed(m).contains(x) <==> ids.contains(x) by {
                lemma_managed_contains(m, x);
            }
        } else {
            lemma_managed_no_dup(m);
            assert forall|x: WindowId| #[trigger] managed(m).contains(x) <==> ids.contains(x) by {
                lemma_managed_contains(m, x);
            }
        }
    }
}


/// The strip holds the most recently used groups first: a window that opens while the stage
/// manager already manages windows, and is not a dialog of a stage window, goes to the front
/// of the strip's first group.
pub proof fn law_new_window_goes_to_front_of_strip(
    m: StageView,
    ws: WorkspaceInfo,
    id: WindowId,
    max_cast: usize,
)
    requires
        max_cast >= 1,
        !(m.active is None && m.cast.len() == 0 && m.hidden.len() == 0),
        !is_stage(m, id),
        stage_parent_on_stage_spec(m, ws, id) is None,
    ensures
        on_window_added_spec(m, ws, id, max_cast).0.cast.len() > 0,
        on_window_added_spec(m, ws, id, max_cast).0.cast[0].1[0] == id,
{
    let m1 = StageView { new_cast_windows: without(m.new_cast_windows, id).push(id), ..m };
    lemma_inserted_in_front_group(m1, ws, id);
    let c = insert_into_cast_spec(m1, ws, id);
    if c.cast.len() > max_cast {
        assert(enforce_cast_limit_spec(c, max_cast).cast[0] == c.cast[0]);
    }
}

} // verus!
