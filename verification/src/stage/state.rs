//! The stage manager's group state and the decisions taken on window events.

use vstd::prelude::*;
use std::collections::HashMap;
use crate::config::StackPosition;
use crate::stage::group::{
    GroupView, StageGroup, WindowId, first_index, gviews, lemma_first_index, lemma_first_index_absent,
    to_front, without,
};

verus! {

broadcast use vstd::seq_lib::group_filter_ensures;

/// Maximum windows shown on stage after explicit drag-merge.
pub const MAX_PARALLEL_STAGE: usize = 2;

/// What the layout knows about one window of the workspace.
#[derive(Debug, Clone, Copy, PartialEq, Eq, Structural)]
pub struct WindowInfo {
    pub id: WindowId,
    /// The key of the window's cast slot (typically its app ID): windows with equal keys
    /// share a slot when the state is rebuilt from the workspace, and when a window enters the
    /// strip while stacking by app.
    pub stack_key: u64,
    /// The window this one is a child (dialog) of.
    pub parent: Option<WindowId>,
}

/// The workspace as the stage manager sees it.
#[derive(Debug)]
pub struct WorkspaceInfo {
    /// Group cast strip slots by [`WindowInfo::stack_key`].
    pub stack_by_app: bool,
    /// The windows of the workspace, in workspace order.
    pub windows: Vec<WindowInfo>,
}

/// An effect of a decision on the workspace, for the caller to perform in order.
#[derive(Debug, Clone, Copy, PartialEq, Eq, Structural)]
pub enum StageAction {
    /// Record the window's stage position (when `save_position`) before it goes to the strip.
    ParkForCast { window: WindowId, save_position: bool },
    /// Put the window back where it stood on the stage before it was parked.
    RestoreSavedPosition { window: WindowId },
    /// Forget the window's stage-manager default size.
    ClearDefaultLayout { window: WindowId },
    /// Record the current sizes of the stage windows.
    SaveActiveSizes,
}

/// The abstract value of the stage manager state.
pub struct StageView {
    pub active: Option<GroupView>,
    pub cast: Seq<GroupView>,
    pub hidden: Seq<GroupView>,
    pub next_group_id: u64,
    pub hovered_cast: Option<usize>,
    pub interaction_target: Option<usize>,
    pub interaction_since: Option<u64>,
    pub new_cast_windows: Seq<WindowId>,
    pub interactive_move_stage: Option<WindowId>,
    pub stage_dialog_parents: Seq<(WindowId, WindowId)>,
}

/// Tracks stage manager groups and layout state.
#[derive(Debug)]
pub struct StageManagerState {
    /// Group currently displayed on the stage.
    pub active_group: Option<StageGroup>,
    /// Recently used cast groups (newest first), capped by config.
    pub cast_groups: Vec<StageGroup>,
    /// Groups displaced when cast exceeds `max_cast_groups`.
    pub hidden_groups: Vec<StageGroup>,
    /// Hovered cast group index.
    pub hovered_cast: Option<usize>,
    /// Cast group index (keyboard focus) tracked for auto-use-as-main.
    pub(crate) interaction_target: Option<usize>,
    /// When `interaction_target` was last set (nanoseconds of the layout clock).
    pub(crate) interaction_since: Option<u64>,
    /// Cast windows that skip immediate promotion on the first explicit activation (click).
    pub(crate) new_cast_windows: Vec<WindowId>,
    /// Stage window temporarily removed from the layout during an interactive move.
    pub(crate) interactive_move_stage: Option<WindowId>,
    /// Dialog on the stage → its parent parked in the cast strip until the dialog closes.
    pub(crate) stage_dialog_parents: Vec<(WindowId, WindowId)>,
    /// Identifier for the next group created.
    pub(crate) next_group_id: u64,
}

pub open spec fn opt_gview(g: Option<StageGroup>) -> Option<GroupView> {
    match g {
        Some(g) => Some(g@),
        None => None,
    }
}

impl View for StageManagerState {
    type V = StageView;

    closed spec fn view(&self) -> StageView {
        StageView {
            active: opt_gview(self.active_group),
            cast: gviews(self.cast_groups@),
            hidden: gviews(self.hidden_groups@),
            next_group_id: self.next_group_id,
            hovered_cast: self.hovered_cast,
            interaction_target: self.interaction_target,
            interaction_since: self.interaction_since,
            new_cast_windows: self.new_cast_windows@,
            interactive_move_stage: self.interactive_move_stage,
            stage_dialog_parents: self.stage_dialog_parents@,
        }
    }
}

// ---------------------------------------------------------------------------------------------
// Specification of the group lists.

/// The groups with `id` taken out of each, and groups left empty dropped.
pub open spec fn groups_without(gs: Seq<GroupView>, id: WindowId) -> Seq<GroupView>
    decreases gs.len(),
{
    if gs.len() == 0 {
        gs
    } else {
        let rest = groups_without(gs.drop_last(), id);
        let g = gs.last();
        let w = without(g.1, id);
        if w.len() > 0 {
            rest.push((g.0, w))
        } else {
            rest
        }
    }
}

/// All windows of the groups, group after group.
pub open spec fn flat(gs: Seq<GroupView>) -> Seq<WindowId>
    decreases gs.len(),
{
    if gs.len() == 0 {
        seq![]
    } else {
        flat(gs.drop_last()) + gs.last().1
    }
}

pub open spec fn active_windows_of(m: StageView) -> Seq<WindowId> {
    match m.active {
        Some(g) => g.1,
        None => seq![],
    }
}

/// Every window the stage manager manages: stage, then strip, then hidden overflow.
pub open spec fn managed(m: StageView) -> Seq<WindowId> {
    active_windows_of(m) + flat(m.cast) + flat(m.hidden)
}

pub open spec fn is_stage(m: StageView, id: WindowId) -> bool {
    m.active matches Some(g) && g.1.contains(id)
}

pub open spec fn in_groups(gs: Seq<GroupView>, id: WindowId) -> bool {
    exists|i: int| 0 <= i < gs.len() && (#[trigger] gs[i]).1.contains(id)
}

pub open spec fn is_cast(m: StageView, id: WindowId) -> bool {
    in_groups(m.cast, id) || in_groups(m.hidden, id)
}

/// The identifier after `n`, as an incrementing counter that wraps.
pub open spec fn next_id(n: u64) -> u64 {
    if n == u64::MAX {
        0
    } else {
        (n + 1) as u64
    }
}

/// The entry of the first window of the workspace with identifier `id`.
pub open spec fn window_entry(wins: Seq<WindowInfo>, id: WindowId) -> Option<WindowInfo>
    decreases wins.len(),
{
    if wins.len() == 0 {
        None
    } else if wins[0].id == id {
        Some(wins[0])
    } else {
        window_entry(wins.drop_first(), id)
    }
}

pub open spec fn key_of(ws: WorkspaceInfo, id: WindowId) -> Option<u64> {
    match window_entry(ws.windows@, id) {
        Some(w) => Some(w.stack_key),
        None => None,
    }
}

/// Whether group `g` is the slot of windows with key `key`, by the key of its front window.
pub open spec fn slot_matches(ws: WorkspaceInfo, g: GroupView, key: Option<u64>) -> bool {
    key is Some && g.1.len() > 0 && key_of(ws, g.1[0]) == key
}

/// The first strip group whose front window has key `key`.
pub open spec fn find_slot(ws: WorkspaceInfo, gs: Seq<GroupView>, key: Option<u64>) -> Option<int> {
    if exists|i: int| 0 <= i < gs.len() && slot_matches(ws, #[trigger] gs[i], key) {
        Some(
            choose|i: int|
                0 <= i < gs.len() && slot_matches(ws, #[trigger] gs[i], key) && forall|j: int|
                    0 <= j < i ==> !slot_matches(ws, #[trigger] gs[j], key),
        )
    } else {
        None
    }
}

/// Puts `id` at the front of the strip: in a fresh slot, or (when stacking by app) in the slot
/// of its app, which moves to the front.
pub open spec fn insert_into_cast_spec(m: StageView, ws: WorkspaceInfo, id: WindowId) -> StageView {
    if !ws.stack_by_app {
        StageView {
            cast: seq![(m.next_group_id, seq![id])] + groups_without(m.cast, id),
            hidden: groups_without(m.hidden, id),
            next_group_id: next_id(m.next_group_id),
            ..m
        }
    } else {
        match find_slot(ws, m.cast, key_of(ws, id)) {
            Some(idx) => {
                let g = m.cast[idx];
                let g2 = if g.1.contains(id) {
                    (g.0, to_front(g.1, id))
                } else {
                    (g.0, seq![id] + g.1)
                };
                StageView { cast: seq![g2] + m.cast.remove(idx), ..m }
            },
            None => StageView {
                cast: seq![(m.next_group_id, seq![id])] + m.cast,
                next_group_id: next_id(m.next_group_id),
                ..m
            },
        }
    }
}

/// Moves strip groups beyond `max_cast` to the front of the hidden overflow.
pub open spec fn enforce_cast_limit_spec(m: StageView, max_cast: usize) -> StageView {
    if m.cast.len() > max_cast {
        StageView {
            cast: m.cast.take(max_cast as int),
            hidden: m.cast.skip(max_cast as int) + m.hidden,
            ..m
        }
    } else {
        m
    }
}

/// Inserts the windows into the strip one after the other.
pub open spec fn insert_all_spec(m: StageView, ws: WorkspaceInfo, wins: Seq<WindowId>) -> StageView
    decreases wins.len(),
{
    if wins.len() == 0 {
        m
    } else {
        insert_into_cast_spec(insert_all_spec(m, ws, wins.drop_last()), ws, wins.last())
    }
}

pub open spec fn park_actions(wins: Seq<WindowId>, save: bool) -> Seq<StageAction> {
    wins.map_values(|w: WindowId| StageAction::ParkForCast { window: w, save_position: save })
}

pub open spec fn clear_actions(wins: Seq<WindowId>) -> Seq<StageAction> {
    wins.map_values(|w: WindowId| StageAction::ClearDefaultLayout { window: w })
}

/// Sends every stage window to the strip.
pub open spec fn demote_active_spec(m: StageView, ws: WorkspaceInfo, save: bool) -> (
    StageView,
    Seq<StageAction>,
) {
    match m.active {
        None => (m, seq![]),
        Some(g) => (
            insert_all_spec(StageView { active: None, ..m }, ws, g.1),
            park_actions(g.1, save),
        ),
    }
}

pub open spec fn without_in_strip(m: StageView, id: WindowId) -> StageView {
    StageView { cast: groups_without(m.cast, id), hidden: groups_without(m.hidden, id), ..m }
}

/// Replaces the stage with the single window `id`; everything else goes to the strip.
pub open spec fn set_stage_single_spec(
    m: StageView,
    ws: WorkspaceInfo,
    id: WindowId,
    max_cast: usize,
) -> (StageView, Seq<StageAction>) {
    if m.active matches Some(g) && g.1 == seq![id] {
        (m, seq![])
    } else {
        let was_parallel = m.active matches Some(g) && g.1.len() > 1;
        let m1 = without_in_strip(m, id);
        let a1 = if was_parallel {
            clear_actions(managed(m1))
        } else {
            seq![]
        };
        let (m2, a2) = demote_active_spec(m1, ws, !was_parallel);
        let m3 = without_in_strip(m2, id);
        let a3 = if !was_parallel {
            seq![StageAction::RestoreSavedPosition { window: id }]
        } else {
            seq![]
        };
        let m4 = StageView {
            active: Some((m3.next_group_id, seq![id])),
            next_group_id: next_id(m3.next_group_id),
            ..m3
        };
        (enforce_cast_limit_spec(m4, max_cast), a1 + a2 + a3)
    }
}

// ---------------------------------------------------------------------------------------------
// Executable group-list operations.

proof fn lemma_gviews_push(gs: Seq<StageGroup>, g: StageGroup)
    ensures
        gviews(gs.push(g)) == gviews(gs).push(g@),
{
    assert(gviews(gs.push(g)) =~= gviews(gs).push(g@));
}

/// Takes `id` out of every group of the list; groups left empty are dropped.
pub fn remove_from_group_list(groups: &mut Vec<StageGroup>, id: WindowId)
    ensures
        gviews(final(groups)@) == groups_without(gviews(old(groups)@), id),
{
    let ghost orig = gviews(groups@);
    let mut rest: Vec<StageGroup> = Vec::new();
    std::mem::swap(groups, &mut rest);
    let ghost n = rest@.len();
    let _len = rest.len();
    assert(n <= usize::MAX);
    let mut out: Vec<StageGroup> = Vec::new();
    let mut k: usize = 0;
    while rest.len() > 0
        invariant
            orig.len() == n,
            n <= usize::MAX,
            k + rest@.len() == n,
            gviews(rest@) == orig.skip(k as int),
            gviews(out@) == groups_without(orig.take(k as int), id),
        decreases rest@.len(),
    {
        let ghost before = rest@;
        let mut g = rest.remove(0);
        proof {
            assert forall|j: int| 0 <= j < gviews(rest@).len() implies gviews(rest@)[j] == orig.skip(
                k + 1,
            )[j] by {
                assert(rest@[j] == before[j + 1]);
                assert(gviews(before)[j + 1] == orig.skip(k as int)[j + 1]);
            }
            assert(gviews(rest@) =~= orig.skip(k + 1));
            assert(g@ == orig[k as int]) by {
                assert(gviews(before)[0] == orig.skip(k as int)[0]);
            }
            let t = orig.take(k + 1);
            assert(t.drop_last() =~= orig.take(k as int));
            assert(t.last() == orig[k as int]);
        }
        g.remove(id);
        if g.windows.len() > 0 {
            proof {
                lemma_gviews_push(out@, g);
            }
            out.push(g);
        }
        k += 1;
    }
    proof {
        assert(orig.take(n as int) =~= orig);
    }
    *groups = out;
}


pub proof fn lemma_window_entry(wins: Seq<WindowInfo>, id: WindowId, i: int)
    requires
        0 <= i <= wins.len(),
        forall|j: int| 0 <= j < i ==> wins[j].id != id,
        i < wins.len() ==> wins[i].id == id,
    ensures
        window_entry(wins, id) == (if i < wins.len() {
            Some(wins[i])
        } else {
            None
        }),
    decreases i,
{
    if i > 0 {
        lemma_window_entry(wins.drop_first(), id, i - 1);
    }
}

/// The entry of the first workspace window with identifier `id`.
pub fn find_window(ws: &WorkspaceInfo, id: WindowId) -> (r: Option<WindowInfo>)
    ensures
        r == window_entry(ws.windows@, id),
{
    let mut i: usize = 0;
    while i < ws.windows.len()
        invariant
            i <= ws.windows@.len(),
            forall|j: int| 0 <= j < i ==> ws.windows@[j].id != id,
        decreases ws.windows@.len() - i,
    {
        if ws.windows[i].id == id {
            proof {
                lemma_window_entry(ws.windows@, id, i as int);
            }
            return Some(ws.windows[i]);
        }
        i += 1;
    }
    proof {
        lemma_window_entry(ws.windows@, id, i as int);
    }
    None
}

/// The stack key of window `id`, when the workspace has it.
pub fn window_key(ws: &WorkspaceInfo, id: WindowId) -> (r: Option<u64>)
    ensures
        r == key_of(*ws, id),
{
    match find_window(ws, id) {
        Some(w) => Some(w.stack_key),
        None => None,
    }
}

pub proof fn lemma_find_slot(ws: WorkspaceInfo, gs: Seq<GroupView>, key: Option<u64>, i: int)
    requires
        0 <= i <= gs.len(),
        forall|j: int| 0 <= j < i ==> !slot_matches(ws, #[trigger] gs[j], key),
        i < gs.len() ==> slot_matches(ws, gs[i], key),
    ensures
        find_slot(ws, gs, key) == (if i < gs.len() {
            Some(i)
        } else {
            None
        }),
{
    if i < gs.len() {
        assert(exists|k: int| 0 <= k < gs.len() && slot_matches(ws, #[trigger] gs[k], key));
        let c = find_slot(ws, gs, key)->Some_0;
        assert(0 <= c < gs.len() && slot_matches(ws, gs[c], key) && forall|j: int|
            0 <= j < c ==> !slot_matches(ws, #[trigger] gs[j], key));
        if c < i {
            assert(!slot_matches(ws, gs[c], key));
        }
        if c > i {
            assert(!slot_matches(ws, gs[i], key));
        }
    } else {
        assert(!exists|k: int| 0 <= k < gs.len() && slot_matches(ws, #[trigger] gs[k], key));
    }
}

impl StageManagerState {
    /// A state with no window.
    pub fn new() -> (r: Self)
        ensures
            r@.active is None,
            r@.cast.len() == 0,
            r@.hidden.len() == 0,
            r@.next_group_id == 0,
            r@.hovered_cast is None,
            r@.interaction_target is None,
            r@.interaction_since is None,
            r@.new_cast_windows.len() == 0,
            r@.interactive_move_stage is None,
            r@.stage_dialog_parents.len() == 0,
    {
        StageManagerState {
            active_group: None,
            cast_groups: Vec::new(),
            hidden_groups: Vec::new(),
            hovered_cast: None,
            interaction_target: None,
            interaction_since: None,
            new_cast_windows: Vec::new(),
            interactive_move_stage: None,
            stage_dialog_parents: Vec::new(),
            next_group_id: 0,
        }
    }

    fn fresh_group_id(&mut self) -> (r: u64)
        ensures
            r == old(self)@.next_group_id,
            final(self)@ == (StageView { next_group_id: next_id(old(self)@.next_group_id), ..old(self)@ }),
    {
        let r = self.next_group_id;
        self.next_group_id = self.next_group_id.wrapping_add(1);
        proof {
            assert(self@ == (StageView { next_group_id: next_id(old(self)@.next_group_id), ..old(self)@ }));
        }
        r
    }

    /// The first strip group whose front window has key `key`.
    fn find_cast_group_by_key(&self, ws: &WorkspaceInfo, key: Option<u64>) -> (r: Option<usize>)
        ensures
            match r {
                Some(i) => find_slot(*ws, self@.cast, key) == Some(i as int) && i < self@.cast.len(),
                None => find_slot(*ws, self@.cast, key) is None,
            },
    {
        let ghost gs = self@.cast;
        if key.is_none() {
            proof {
                assert forall|j: int| 0 <= j < gs.len() implies !slot_matches(*ws, #[trigger] gs[j], key) by {}
                lemma_find_slot(*ws, gs, key, gs.len() as int);
            }
            return None;
        }
        let mut i: usize = 0;
        while i < self.cast_groups.len()
            invariant
                gs == self@.cast,
                gs.len() == self.cast_groups@.len(),
                i <= gs.len(),
                key is Some,
                forall|j: int| 0 <= j < i ==> !slot_matches(*ws, #[trigger] gs[j], key),
            decreases gs.len() - i,
        {
            let g = &self.cast_groups[i];
            proof {
                assert(gs[i as int] == g@);
            }
            if g.windows.len() > 0 {
                let k = window_key(ws, g.windows[0]);
                let same = match (k, key) {
                    (Some(a), Some(b)) => a == b,
                    _ => false,
                };
                if same {
                    proof {
                        lemma_find_slot(*ws, gs, key, i as int);
                    }
                    return Some(i);
                }
            }
            i += 1;
        }
        proof {
            lemma_find_slot(*ws, gs, key, i as int);
        }
        None
    }
}


pub proof fn lemma_gviews_insert0(gs: Seq<StageGroup>, g: StageGroup)
    ensures
        gviews(gs.insert(0, g)) == seq![g@] + gviews(gs),
{
    assert(gviews(gs.insert(0, g)) =~= seq![g@] + gviews(gs));
}

pub proof fn lemma_gviews_remove(gs: Seq<StageGroup>, i: int)
    requires
        0 <= i < gs.len(),
    ensures
        gviews(gs.remove(i)) == gviews(gs).remove(i),
{
    assert(gviews(gs.remove(i)) =~= gviews(gs).remove(i));
}

pub proof fn lemma_gviews_drop_last(gs: Seq<StageGroup>)
    requires
        gs.len() > 0,
    ensures
        gviews(gs.drop_last()) == gviews(gs).drop_last(),
{
    assert(gviews(gs.drop_last()) =~= gviews(gs).drop_last());
}

pub proof fn lemma_flat_take_step(gs: Seq<GroupView>, i: int)
    requires
        0 <= i < gs.len(),
    ensures
        flat(gs.take(i + 1)) == flat(gs.take(i)) + gs[i].1,
{
    assert(gs.take(i + 1).drop_last() =~= gs.take(i));
}

pub proof fn lemma_insert_all_step(m: StageView, ws: WorkspaceInfo, wins: Seq<WindowId>, i: int)
    requires
        0 <= i < wins.len(),
    ensures
        insert_all_spec(m, ws, wins.take(i + 1)) == insert_into_cast_spec(
            insert_all_spec(m, ws, wins.take(i)),
            ws,
            wins[i],
        ),
{
    assert(wins.take(i + 1).drop_last() =~= wins.take(i));
}

/// The windows of the groups, group after group.
fn push_group_windows(out: &mut Vec<WindowId>, gs: &Vec<StageGroup>)
    ensures
        final(out)@ == old(out)@ + flat(gviews(gs@)),
{
    let ghost v = gviews(gs@);
    let mut i: usize = 0;
    while i < gs.len()
        invariant
            v == gviews(gs@),
            i <= gs@.len(),
            out@ == old(out)@ + flat(v.take(i as int)),
        decreases gs@.len() - i,
    {
        let g = &gs[i];
        proof {
            lemma_flat_take_step(v, i as int);
            assert(v[i as int] == g@);
        }
        let ghost before = out@;
        let mut j: usize = 0;
        while j < g.windows.len()
            invariant
                j <= g.windows@.len(),
                out@ == before + g.windows@.take(j as int),
            decreases g.windows@.len() - j,
        {
            out.push(g.windows[j]);
            proof {
                assert(out@ =~= before + g.windows@.take(j + 1));
            }
            j += 1;
        }
        proof {
            assert(g.windows@.take(j as int) =~= g.windows@);
            assert(out@ =~= old(out)@ + flat(v.take(i + 1)));
        }
        i += 1;
    }
    proof {
        assert(v.take(i as int) =~= v);
    }
}

impl StageManagerState {
    /// Every managed window: stage, then strip, then hidden overflow.
    pub fn all_managed_windows(&self) -> (r: Vec<WindowId>)
        ensures
            r@ == managed(self@),
    {
        let mut ids: Vec<WindowId> = Vec::new();
        if let Some(g) = &self.active_group {
            let mut j: usize = 0;
            while j < g.windows.len()
                invariant
                    j <= g.windows@.len(),
                    ids@ == g.windows@.take(j as int),
                decreases g.windows@.len() - j,
            {
                ids.push(g.windows[j]);
                proof {
                    assert(ids@ =~= g.windows@.take(j + 1));
                }
                j += 1;
            }
            proof {
                assert(g.windows@.take(j as int) =~= g.windows@);
            }
        }
        proof {
            assert(ids@ == active_windows_of(self@));
        }
        push_group_windows(&mut ids, &self.cast_groups);
        push_group_windows(&mut ids, &self.hidden_groups);
        proof {
            assert(ids@ =~= managed(self@));
        }
        ids
    }

    /// Puts `id` at the front of the strip (see [`insert_into_cast_spec`]).
    fn insert_into_cast(&mut self, ws: &WorkspaceInfo, id: WindowId)
        ensures
            final(self)@ == insert_into_cast_spec(old(self)@, *ws, id),
    {
        if !ws.stack_by_app {
            remove_from_group_list(&mut self.cast_groups, id);
            remove_from_group_list(&mut self.hidden_groups, id);
            let gid = self.fresh_group_id();
            let g = StageGroup::new(gid, id);
            proof {
                lemma_gviews_insert0(self.cast_groups@, g);
            }
            self.cast_groups.insert(0, g);
            proof {
                assert(self@ == insert_into_cast_spec(old(self)@, *ws, id));
            }
            return;
        }
        let key = window_key(ws, id);
        match self.find_cast_group_by_key(ws, key) {
            Some(idx) => {
                let ghost cv = self@.cast;
                proof {
                    lemma_gviews_remove(self.cast_groups@, idx as int);
                    assert(self.cast_groups@[idx as int]@ == cv[idx as int]);
                }
                let mut group = self.cast_groups.remove(idx);
                if !group.contains(id) {
                    group.windows.insert(0, id);
                    proof {
                        assert(group.windows@ =~= seq![id] + cv[idx as int].1);
                    }
                } else {
                    group.bring_to_front(id);
                }
                proof {
                    lemma_gviews_insert0(self.cast_groups@, group);
                }
                self.cast_groups.insert(0, group);
                proof {
                    assert(self@ == insert_into_cast_spec(old(self)@, *ws, id));
                }
            },
            None => {
                let gid = self.fresh_group_id();
                let g = StageGroup::new(gid, id);
                proof {
                    lemma_gviews_insert0(self.cast_groups@, g);
                }
                self.cast_groups.insert(0, g);
                proof {
                    assert(self@ == insert_into_cast_spec(old(self)@, *ws, id));
                }
            },
        }
    }

    /// Moves strip groups beyond `max_cast` to the front of the hidden overflow.
    fn enforce_cast_limit(&mut self, max_cast: usize)
        ensures
            final(self)@ == enforce_cast_limit_spec(old(self)@, max_cast),
    {
        let ghost o = self@;
        proof {
            assert(o.cast.take(o.cast.len() as int) =~= o.cast);
            assert(o.cast.skip(o.cast.len() as int) + o.hidden =~= o.hidden);
        }
        while self.cast_groups.len() > max_cast
            invariant
                (max_cast <= self.cast_groups@.len() <= o.cast.len()) || self.cast_groups@.len()
                    == o.cast.len(),
                self@ == (StageView {
                    cast: o.cast.take(self.cast_groups@.len() as int),
                    hidden: o.cast.skip(self.cast_groups@.len() as int) + o.hidden,
                    ..o
                }),
            decreases self.cast_groups@.len(),
        {
            let ghost before = self.cast_groups@;
            let ghost l = before.len();
            proof {
                lemma_gviews_drop_last(before);
            }
            let g = self.cast_groups.pop().unwrap();
            proof {
                lemma_gviews_insert0(self.hidden_groups@, g);
                assert(g@ == o.cast[l - 1]) by {
                    assert(gviews(before)[l - 1] == o.cast.take(l as int)[l - 1]);
                }
            }
            self.hidden_groups.insert(0, g);
            proof {
                assert(self@.cast =~= o.cast.take(l - 1));
                assert(self@.hidden =~= o.cast.skip(l - 1) + o.hidden);
            }
        }
        proof {
            if o.cast.len() <= max_cast {
                assert(o.cast.take(o.cast.len() as int) =~= o.cast);
                assert(o.cast.skip(o.cast.len() as int) + o.hidden =~= o.hidden);
            }
        }
    }

    /// Sends every stage window to the strip, recording each in `effects` first.
    fn demote_active_to_cast(
        &mut self,
        ws: &WorkspaceInfo,
        save_pos: bool,
        effects: &mut Vec<StageAction>,
    )
        ensures
            final(self)@ == demote_active_spec(old(self)@, *ws, save_pos).0,
            final(effects)@ == old(effects)@ + demote_active_spec(old(self)@, *ws, save_pos).1,
    {
        let ghost o = self@;
        if let Some(group) = self.active_group.take() {
            let ghost m1 = StageView { active: None, ..o };
            assert(self@ == m1);
            let wins = group.windows;
            let mut i: usize = 0;
            while i < wins.len()
                invariant
                    i <= wins@.len(),
                    self@ == insert_all_spec(m1, *ws, wins@.take(i as int)),
                    effects@ == old(effects)@ + park_actions(wins@.take(i as int), save_pos),
                decreases wins@.len() - i,
            {
                let win = wins[i];
                effects.push(StageAction::ParkForCast { window: win, save_position: save_pos });
                self.insert_into_cast(ws, win);
                proof {
                    lemma_insert_all_step(m1, *ws, wins@, i as int);
                    assert(park_actions(wins@.take(i + 1), save_pos) =~= park_actions(
                        wins@.take(i as int),
                        save_pos,
                    ).push(StageAction::ParkForCast { window: win, save_position: save_pos }));
                    assert(effects@ =~= old(effects)@ + park_actions(wins@.take(i + 1), save_pos));
                }
                i += 1;
            }
            proof {
                assert(wins@.take(i as int) =~= wins@);
            }
        } else {
            proof {
                assert(effects@ =~= old(effects)@ + seq![]);
            }
        }
    }

    /// Records a default-size reset for every managed window.
    fn reset_managed_layout_defaults(&self, effects: &mut Vec<StageAction>)
        ensures
            final(effects)@ == old(effects)@ + clear_actions(managed(self@)),
    {
        let ids = self.all_managed_windows();
        let mut i: usize = 0;
        while i < ids.len()
            invariant
                i <= ids@.len(),
                ids@ == managed(self@),
                effects@ == old(effects)@ + clear_actions(ids@.take(i as int)),
            decreases ids@.len() - i,
        {
            effects.push(StageAction::ClearDefaultLayout { window: ids[i] });
            proof {
                assert(clear_actions(ids@.take(i + 1)) =~= clear_actions(ids@.take(i as int)).push(
                    StageAction::ClearDefaultLayout { window: ids@[i as int] },
                ));
                assert(effects@ =~= old(effects)@ + clear_actions(ids@.take(i + 1)));
            }
            i += 1;
        }
        proof {
            assert(ids@.take(i as int) =~= ids@);
        }
    }

    /// Replaces the stage with the single window `id`; everything else goes to the strip.
    pub(crate) fn set_stage_single(
        &mut self,
        ws: &WorkspaceInfo,
        id: WindowId,
        max_cast: usize,
        effects: &mut Vec<StageAction>,
    )
        ensures
            final(self)@ == set_stage_single_spec(old(self)@, *ws, id, max_cast).0,
            final(effects)@ == old(effects)@ + set_stage_single_spec(old(self)@, *ws, id, max_cast).1,
    {
        let ghost o = self@;
        let ghost e0 = effects@;
        let single = match &self.active_group {
            Some(g) => g.windows.len() == 1 && g.windows[0] == id,
            None => false,
        };
        if single {
            proof {
                let g = o.active->Some_0;
                assert(g.1 =~= seq![id]);
                assert(effects@ =~= e0 + seq![]);
            }
            return;
        }
        proof {
            if let Some(g) = o.active {
                assert(g.1 != seq![id]) by {
                    if g.1 == seq![id] {
                        assert(g.1.len() == 1 && g.1[0] == id);
                    }
                }
            }
        }
        let was_parallel = match &self.active_group {
            Some(g) => g.windows.len() > 1,
            None => false,
        };
        remove_from_group_list(&mut self.cast_groups, id);
        remove_from_group_list(&mut self.hidden_groups, id);
        let ghost m1 = self@;
        assert(m1 == without_in_strip(o, id));
        if was_parallel {
            self.reset_managed_layout_defaults(effects);
        }
        let ghost e1 = effects@;
        self.demote_active_to_cast(ws, !was_parallel, effects);
        let ghost e2 = effects@;
        remove_from_group_list(&mut self.cast_groups, id);
        remove_from_group_list(&mut self.hidden_groups, id);
        if !was_parallel {
            effects.push(StageAction::RestoreSavedPosition { window: id });
        }
        let gid = self.fresh_group_id();
        self.active_group = Some(StageGroup::new(gid, id));
        self.enforce_cast_limit(max_cast);
        proof {
            let r = set_stage_single_spec(o, *ws, id, max_cast);
            assert(self@ == r.0);
            assert(effects@ =~= e0 + r.1);
        }
    }
}


// ---------------------------------------------------------------------------------------------
// Queries.

/// The strip in display order: visible cast groups, then hidden overflow.
pub open spec fn strip(m: StageView) -> Seq<GroupView> {
    m.cast + m.hidden
}

/// The position of the first group of `gs` that holds `id`.
pub open spec fn first_with(gs: Seq<GroupView>, id: WindowId) -> Option<int> {
    if exists|i: int| 0 <= i < gs.len() && (#[trigger] gs[i]).1.contains(id) {
        Some(
            choose|i: int|
                0 <= i < gs.len() && (#[trigger] gs[i]).1.contains(id) && forall|j: int|
                    0 <= j < i ==> !(#[trigger] gs[j]).1.contains(id),
        )
    } else {
        None
    }
}

pub proof fn lemma_first_with(gs: Seq<GroupView>, id: WindowId, i: int)
    requires
        0 <= i <= gs.len(),
        forall|j: int| 0 <= j < i ==> !(#[trigger] gs[j]).1.contains(id),
        i < gs.len() ==> gs[i].1.contains(id),
    ensures
        first_with(gs, id) == (if i < gs.len() {
            Some(i)
        } else {
            None
        }),
{
    if i < gs.len() {
        assert(exists|k: int| 0 <= k < gs.len() && (#[trigger] gs[k]).1.contains(id));
        let c = first_with(gs, id)->Some_0;
        assert(0 <= c < gs.len() && gs[c].1.contains(id) && forall|j: int|
            0 <= j < c ==> !(#[trigger] gs[j]).1.contains(id));
        if c < i {
            assert(!gs[c].1.contains(id));
        }
        if c > i {
            assert(!gs[i].1.contains(id));
        }
    } else {
        assert(!exists|k: int| 0 <= k < gs.len() && (#[trigger] gs[k]).1.contains(id));
    }
}

proof fn lemma_min_exists(gs: Seq<GroupView>, id: WindowId, k: int)
    requires
        0 <= k < gs.len(),
        gs[k].1.contains(id),
    ensures
        exists|i: int|
            0 <= i < gs.len() && (#[trigger] gs[i]).1.contains(id) && forall|j: int|
                0 <= j < i ==> !(#[trigger] gs[j]).1.contains(id),
    decreases k,
{
    if exists|j: int| 0 <= j < k && (#[trigger] gs[j]).1.contains(id) {
        let j = choose|j: int| 0 <= j < k && (#[trigger] gs[j]).1.contains(id);
        lemma_min_exists(gs, id, j);
    } else {
        assert(forall|j: int| 0 <= j < k ==> !(#[trigger] gs[j]).1.contains(id));
    }
}

pub proof fn lemma_first_with_range(gs: Seq<GroupView>, id: WindowId)
    ensures
        first_with(gs, id) matches Some(i) ==> 0 <= i < gs.len() && gs[i].1.contains(id) && forall|
            j: int,
        | 0 <= j < i ==> !(#[trigger] gs[j]).1.contains(id),
        first_with(gs, id) is None <==> !in_groups(gs, id),
{
    if exists|i: int| 0 <= i < gs.len() && (#[trigger] gs[i]).1.contains(id) {
        let k = choose|i: int| 0 <= i < gs.len() && (#[trigger] gs[i]).1.contains(id);
        lemma_min_exists(gs, id, k);
    }
}

pub proof fn lemma_first_with_append(a: Seq<GroupView>, b: Seq<GroupView>, id: WindowId)
    ensures
        first_with(a + b, id) == (match first_with(a, id) {
            Some(i) => Some(i),
            None => match first_with(b, id) {
                Some(j) => Some(j + a.len()),
                None => None,
            },
        }),
{
    lemma_first_with_range(a, id);
    lemma_first_with_range(b, id);
    let ab = a + b;
    match first_with(a, id) {
        Some(i) => {
            assert(ab[i] == a[i]);
            assert forall|j: int| 0 <= j < i implies !(#[trigger] ab[j]).1.contains(id) by {
                assert(ab[j] == a[j]);
            }
            lemma_first_with(ab, id, i);
        },
        None => {
            match first_with(b, id) {
                Some(j) => {
                    assert(ab[j + a.len()] == b[j]);
                    assert forall|k: int| 0 <= k < j + a.len() implies !(
                    #[trigger] ab[k]).1.contains(id) by {
                        if k < a.len() {
                            assert(ab[k] == a[k]);
                            assert(!in_groups(a, id));
                            if ab[k].1.contains(id) {
                                assert(a[k].1.contains(id));
                            }
                        } else {
                            assert(ab[k] == b[k - a.len()]);
                        }
                    }
                    lemma_first_with(ab, id, j + a.len());
                },
                None => {
                    assert forall|k: int| 0 <= k < ab.len() implies !(
                    #[trigger] ab[k]).1.contains(id) by {
                        if k < a.len() {
                            assert(ab[k] == a[k]);
                            if ab[k].1.contains(id) {
                                assert(a[k].1.contains(id));
                            }
                        } else {
                            assert(ab[k] == b[k - a.len()]);
                            if ab[k].1.contains(id) {
                                assert(b[k - a.len()].1.contains(id));
                            }
                        }
                    }
                    lemma_first_with(ab, id, ab.len() as int);
                },
            }
        },
    }
}

/// The front window of the strip group that holds `id`.
pub open spec fn front_for(m: StageView, id: WindowId) -> Option<WindowId> {
    match first_with(strip(m), id) {
        Some(i) => Some(strip(m)[i].1[0]),
        None => None,
    }
}

/// `id` itself, or the front window of its strip group when it is in the strip.
pub open spec fn target_for(m: StageView, id: WindowId) -> WindowId {
    match front_for(m, id) {
        Some(f) => f,
        None => id,
    }
}

/// The first group of `gs` that holds `id`.
fn first_group_containing(gs: &Vec<StageGroup>, id: WindowId) -> (r: Option<usize>)
    ensures
        match r {
            Some(i) => first_with(gviews(gs@), id) == Some(i as int),
            None => first_with(gviews(gs@), id) is None,
        },
{
    let ghost v = gviews(gs@);
    let mut i: usize = 0;
    while i < gs.len()
        invariant
            v == gviews(gs@),
            i <= gs@.len(),
            forall|j: int| 0 <= j < i ==> !(#[trigger] v[j]).1.contains(id),
        decreases gs@.len() - i,
    {
        proof {
            assert(v[i as int] == gs@[i as int]@);
        }
        if gs[i].contains(id) {
            proof {
                lemma_first_with(v, id, i as int);
            }
            return Some(i);
        }
        i += 1;
    }
    proof {
        lemma_first_with(v, id, i as int);
    }
    None
}

impl StageManagerState {
    pub fn is_stage_window(&self, id: WindowId) -> (r: bool)
        ensures
            r == is_stage(self@, id),
    {
        match &self.active_group {
            Some(g) => g.contains(id),
            None => false,
        }
    }

    pub fn stage_has_main(&self) -> (r: bool)
        ensures
            r == (self@.active matches Some(g) && g.1.len() > 0),
    {
        match &self.active_group {
            Some(g) => g.windows.len() > 0,
            None => false,
        }
    }

    pub fn is_cast_window(&self, id: WindowId) -> (r: bool)
        ensures
            r == is_cast(self@, id),
    {
        let a = first_group_containing(&self.cast_groups, id);
        let b = first_group_containing(&self.hidden_groups, id);
        proof {
            lemma_first_with_range(self@.cast, id);
            lemma_first_with_range(self@.hidden, id);
        }
        a.is_some() || b.is_some()
    }

    /// Position of the strip group (visible, then hidden) that holds `id`.
    #[verifier::rlimit(40)]
    pub fn cast_index_for(&self, id: WindowId) -> (r: Option<usize>)
        requires
            self@.cast.len() + self@.hidden.len() <= usize::MAX,
        ensures
            match r {
                Some(i) => first_with(strip(self@), id) == Some(i as int),
                None => first_with(strip(self@), id) is None,
            },
    {
        proof {
            lemma_first_with_append(self@.cast, self@.hidden, id);
        }
        match first_group_containing(&self.cast_groups, id) {
            Some(i) => Some(i),
            None => match first_group_containing(&self.hidden_groups, id) {
                Some(j) => {
                    proof {
                        lemma_first_with_range(self@.hidden, id);
                        assert(j < self@.hidden.len());
                        assert(self@.cast.len() == self.cast_groups@.len());
                    }
                    Some(self.cast_groups.len() + j)
                },
                None => None,
            },
        }
    }

    /// The front window of the strip group that holds `id`.
    pub fn cast_group_front_for(&self, id: WindowId) -> (r: Option<WindowId>)
        ensures
            r == front_for(self@, id),
    {
        proof {
            lemma_first_with_append(self@.cast, self@.hidden, id);
            lemma_first_with_range(self@.cast, id);
            lemma_first_with_range(self@.hidden, id);
        }
        match first_group_containing(&self.cast_groups, id) {
            Some(i) => {
                proof {
                    assert(strip(self@)[i as int] == self@.cast[i as int]);
                    assert(self.cast_groups@[i as int]@ == self@.cast[i as int]);
                }
                Some(self.cast_groups[i].windows[0])
            },
            None => match first_group_containing(&self.hidden_groups, id) {
                Some(j) => {
                    proof {
                        assert(strip(self@)[self@.cast.len() + j] == self@.hidden[j as int]);
                        assert(self.hidden_groups@[j as int]@ == self@.hidden[j as int]);
                    }
                    Some(self.hidden_groups[j].windows[0])
                },
                None => None,
            },
        }
    }

    /// The number of strip groups, visible and hidden.
    pub fn total_strip_groups(&self) -> (r: usize)
        requires
            self@.cast.len() + self@.hidden.len() <= usize::MAX,
        ensures
            r == strip(self@).len(),
    {
        self.cast_groups.len() + self.hidden_groups.len()
    }

    /// The front window of the strip group at position `idx` (visible, then hidden).
    pub fn strip_front_at(&self, idx: usize) -> (r: Option<WindowId>)
        ensures
            r == (if idx < strip(self@).len() && strip(self@)[idx as int].1.len() > 0 {
                Some(strip(self@)[idx as int].1[0])
            } else {
                None
            }),
    {
        let c = self.cast_groups.len();
        if idx < c {
            let g = &self.cast_groups[idx];
            proof {
                assert(strip(self@)[idx as int] == g@);
            }
            if g.windows.len() > 0 {
                Some(g.windows[0])
            } else {
                None
            }
        } else if idx - c < self.hidden_groups.len() {
            let g = &self.hidden_groups[idx - c];
            proof {
                assert(strip(self@)[idx as int] == g@);
            }
            if g.windows.len() > 0 {
                Some(g.windows[0])
            } else {
                None
            }
        } else {
            None
        }
    }

    /// The windows on the stage.
    pub fn active_windows(&self) -> (r: Vec<WindowId>)
        ensures
            r@ == active_windows_of(self@),
    {
        match &self.active_group {
            Some(g) => {
                let mut out: Vec<WindowId> = Vec::new();
                let mut j: usize = 0;
                while j < g.windows.len()
                    invariant
                        j <= g.windows@.len(),
                        out@ == g.windows@.take(j as int),
                    decreases g.windows@.len() - j,
                {
                    out.push(g.windows[j]);
                    proof {
                        assert(out@ =~= g.windows@.take(j + 1));
                    }
                    j += 1;
                }
                proof {
                    assert(g.windows@.take(j as int) =~= g.windows@);
                }
                out
            },
            None => Vec::new(),
        }
    }

    /// Sets the hovered strip slot; tells whether it changed.
    pub fn set_hovered_cast(&mut self, hovered: Option<usize>) -> (r: bool)
        ensures
            r == (old(self)@.hovered_cast != hovered),
            final(self)@ == (StageView { hovered_cast: hovered, ..old(self)@ }),
    {
        let same = match (self.hovered_cast, hovered) {
            (Some(a), Some(b)) => a == b,
            (None, None) => true,
            _ => false,
        };
        if same {
            proof {
                assert(self@ == (StageView { hovered_cast: hovered, ..old(self)@ }));
            }
            return false;
        }
        self.hovered_cast = hovered;
        proof {
            assert(self@ == (StageView { hovered_cast: hovered, ..old(self)@ }));
        }
        true
    }

    pub fn clear_auto_use_as_main_timer(&mut self)
        ensures
            final(self)@ == (StageView {
                interaction_target: None,
                interaction_since: None,
                ..old(self)@
            }),
    {
        self.interaction_target = None;
        self.interaction_since = None;
        proof {
            assert(self@ == (StageView {
                interaction_target: None,
                interaction_since: None,
                ..old(self)@
            }));
        }
    }

    pub fn clear_pointer_hover(&mut self)
        ensures
            final(self)@ == (StageView { hovered_cast: None, ..old(self)@ }),
    {
        self.hovered_cast = None;
        proof {
            assert(self@ == (StageView { hovered_cast: None, ..old(self)@ }));
        }
    }

    /// Whether the auto-use-as-main dwell timer is running.
    pub fn auto_use_as_main_timer_active(&self, auto_use_as_main: bool) -> (r: bool)
        ensures
            r == (auto_use_as_main && self@.interaction_target is Some),
    {
        auto_use_as_main && self.interaction_target.is_some()
    }

    pub fn begin_interactive_move_stage(&mut self, id: WindowId)
        ensures
            final(self)@ == (StageView {
                interactive_move_stage: Some(id),
                interaction_target: None,
                interaction_since: None,
                hovered_cast: None,
                ..old(self)@
            }),
    {
        self.interactive_move_stage = Some(id);
        self.clear_auto_use_as_main_timer();
        self.clear_pointer_hover();
    }

    pub fn end_interactive_move_stage(&mut self)
        ensures
            final(self)@ == (StageView {
                interactive_move_stage: None,
                interaction_target: None,
                interaction_since: None,
                ..old(self)@
            }),
    {
        self.interactive_move_stage = None;
        self.clear_auto_use_as_main_timer();
    }

    pub fn is_interactive_move_of(&self, id: WindowId) -> (r: bool)
        ensures
            r == (self@.interactive_move_stage == Some(id)),
    {
        match self.interactive_move_stage {
            Some(w) => w == id,
            None => false,
        }
    }

    fn should_defer_promote(&self, id: WindowId) -> (r: bool)
        ensures
            r == self@.new_cast_windows.contains(id),
    {
        let mut i: usize = 0;
        while i < self.new_cast_windows.len()
            invariant
                i <= self.new_cast_windows@.len(),
                forall|j: int| 0 <= j < i ==> self.new_cast_windows@[j] != id,
            decreases self.new_cast_windows@.len() - i,
        {
            if self.new_cast_windows[i] == id {
                return true;
            }
            i += 1;
        }
        false
    }

    /// Drop the one-shot click deferral for a cast window (does not promote).
    pub fn consume_promote_defer(&mut self, id: WindowId)
        ensures
            final(self)@ == (StageView {
                new_cast_windows: without(old(self)@.new_cast_windows, id),
                ..old(self)@
            }),
    {
        let mut g = StageGroup { id: 0, windows: Vec::new() };
        std::mem::swap(&mut g.windows, &mut self.new_cast_windows);
        g.remove(id);
        std::mem::swap(&mut g.windows, &mut self.new_cast_windows);
        proof {
            assert(self@ == (StageView {
                new_cast_windows: without(old(self)@.new_cast_windows, id),
                ..old(self)@
            }));
        }
    }

    /// Cast received focus without an explicit activation request (e.g. focus-follows-mouse).
    pub fn on_cast_focused_passive(&mut self, id: WindowId)
        ensures
            final(self)@ == (if is_cast(old(self)@, id) {
                StageView {
                    new_cast_windows: without(old(self)@.new_cast_windows, target_for(old(self)@, id)),
                    ..old(self)@
                }
            } else {
                old(self)@
            }),
    {
        if self.is_cast_window(id) {
            let target_id = match self.cast_group_front_for(id) {
                Some(f) => f,
                None => id,
            };
            self.consume_promote_defer(target_id);
        }
    }

    pub fn is_stage_dialog(&self, id: WindowId) -> (r: bool)
        ensures
            r == (exists|i: int|
                0 <= i < self@.stage_dialog_parents.len() && (
                #[trigger] self@.stage_dialog_parents[i]).0 == id),
    {
        let mut i: usize = 0;
        while i < self.stage_dialog_parents.len()
            invariant
                i <= self@.stage_dialog_parents.len(),
                forall|j: int| 0 <= j < i ==> (#[trigger] self@.stage_dialog_parents[j]).0 != id,
            decreases self@.stage_dialog_parents.len() - i,
        {
            if self.stage_dialog_parents[i].0 == id {
                return true;
            }
            i += 1;
        }
        false
    }

    pub fn has_stage_modal_overlay(&self) -> (r: bool)
        ensures
            r == (self@.stage_dialog_parents.len() > 0),
    {
        self.stage_dialog_parents.len() > 0
    }
}


// ---------------------------------------------------------------------------------------------
// Specification of the window events.

pub open spec fn dialog_ne(d: WindowId) -> spec_fn((WindowId, WindowId)) -> bool {
    |e: (WindowId, WindowId)| e.0 != d
}

pub open spec fn parent_ne(p: WindowId) -> spec_fn((WindowId, WindowId)) -> bool {
    |e: (WindowId, WindowId)| e.1 != p
}

/// The parent recorded for dialog `d` (first record).
pub open spec fn dialog_parent(s: Seq<(WindowId, WindowId)>, d: WindowId) -> Option<WindowId>
    decreases s.len(),
{
    if s.len() == 0 {
        None
    } else if s[0].0 == d {
        Some(s[0].1)
    } else {
        dialog_parent(s.drop_first(), d)
    }
}

/// Takes `id` off the stage; an emptied stage group is dropped.
pub open spec fn remove_from_active(m: StageView, id: WindowId) -> StageView {
    match m.active {
        Some(g) => if without(g.1, id).len() == 0 {
            StageView { active: None, ..m }
        } else {
            StageView { active: Some((g.0, without(g.1, id))), ..m }
        },
        None => m,
    }
}

/// Takes `t` out of group `i` of `gs`; the group goes when it is left empty.
pub open spec fn take_out_of_group(gs: Seq<GroupView>, i: int, t: WindowId) -> Seq<GroupView> {
    if without(gs[i].1, t).len() == 0 {
        gs.remove(i)
    } else {
        gs.update(i, (gs[i].0, without(gs[i].1, t)))
    }
}

pub open spec fn in_workspace(ws: WorkspaceInfo, id: WindowId) -> bool {
    window_entry(ws.windows@, id) is Some
}

/// The parent of dialog `id` when that parent is another window of the workspace among `among`.
pub open spec fn parent_among(ws: WorkspaceInfo, among: Seq<WindowId>, id: WindowId) -> Option<
    WindowId,
> {
    match window_entry(ws.windows@, id) {
        Some(child) => match child.parent {
            Some(p) => if p != id && among.contains(p) && in_workspace(ws, p) {
                Some(p)
            } else {
                None
            },
            None => None,
        },
        None => None,
    }
}

/// Whether `id` is a dialog opening on a window currently on the stage: its parent.
pub open spec fn stage_parent_on_stage_spec(m: StageView, ws: WorkspaceInfo, id: WindowId) -> Option<
    WindowId,
> {
    match m.active {
        Some(g) => parent_among(ws, g.1, id),
        None => None,
    }
}

/// The managed window that `id` is a dialog of.
pub open spec fn stage_parent_of_spec(m: StageView, ws: WorkspaceInfo, id: WindowId) -> Option<
    WindowId,
> {
    parent_among(ws, managed(m), id)
}

/// Parks the parent in the strip and shows the dialog alone on the stage.
pub open spec fn open_stage_dialog_spec(
    m: StageView,
    ws: WorkspaceInfo,
    dialog: WindowId,
    parent: WindowId,
    max_cast: usize,
) -> (StageView, Seq<StageAction>) {
    let m1 = StageView {
        new_cast_windows: without(m.new_cast_windows, dialog),
        ..without_in_strip(m, dialog)
    };
    let m2 = if is_stage(m1, parent) {
        insert_into_cast_spec(remove_from_active(m1, parent), ws, parent)
    } else {
        m1
    };
    let a = if is_stage(m1, parent) {
        seq![StageAction::ParkForCast { window: parent, save_position: true }]
    } else {
        seq![]
    };
    let dp = m2.stage_dialog_parents.filter(parent_ne(parent)).push((dialog, parent));
    let m3 = without_in_strip(StageView { stage_dialog_parents: dp, ..m2 }, dialog);
    let m4 = StageView {
        active: Some((m3.next_group_id, seq![dialog])),
        next_group_id: next_id(m3.next_group_id),
        ..m3
    };
    (enforce_cast_limit_spec(m4, max_cast), a)
}

pub open spec fn on_window_added_spec(
    m: StageView,
    ws: WorkspaceInfo,
    id: WindowId,
    max_cast: usize,
) -> (StageView, Seq<StageAction>) {
    if m.active is None && m.cast.len() == 0 && m.hidden.len() == 0 {
        (
            StageView {
                active: Some((m.next_group_id, seq![id])),
                next_group_id: next_id(m.next_group_id),
                ..m
            },
            seq![],
        )
    } else if is_stage(m, id) {
        let g = m.active->Some_0;
        (StageView { active: Some((g.0, to_front(g.1, id))), ..m }, seq![])
    } else {
        match stage_parent_on_stage_spec(m, ws, id) {
            Some(p) => open_stage_dialog_spec(m, ws, id, p, max_cast),
            None => {
                let m1 = StageView {
                    new_cast_windows: without(m.new_cast_windows, id).push(id),
                    ..m
                };
                (enforce_cast_limit_spec(insert_into_cast_spec(m1, ws, id), max_cast), seq![])
            },
        }
    }
}

/// The stage group after window `id` closed.
pub open spec fn active_after_close(a: Option<GroupView>, id: WindowId) -> Option<GroupView> {
    match a {
        Some(g) => if g.1.contains(id) && without(g.1, id).len() == 0 {
            None
        } else {
            Some((g.0, without(g.1, id)))
        },
        None => None,
    }
}

/// When the stage emptied: the first strip group (visible, else hidden) moves onto it.
pub open spec fn refill_stage(m: StageView) -> StageView {
    if m.active is None {
        if m.cast.len() > 0 {
            StageView { active: Some(m.cast[0]), cast: m.cast.drop_first(), ..m }
        } else if m.hidden.len() > 0 {
            StageView { active: Some(m.hidden[0]), hidden: m.hidden.drop_first(), ..m }
        } else {
            m
        }
    } else {
        m
    }
}

/// Window `id` closed: the state after, the effects, and the parent to restore when a stage
/// dialog closed.
pub open spec fn on_window_removed_spec(
    m: StageView,
    id: WindowId,
    max_cast: usize,
) -> (StageView, Seq<StageAction>, Option<WindowId>) {
    if m.interactive_move_stage == Some(id) {
        (m, seq![], None)
    } else {
        let restore = dialog_parent(m.stage_dialog_parents, id);
        let m1 = StageView {
            stage_dialog_parents: m.stage_dialog_parents.filter(dialog_ne(id)),
            new_cast_windows: without(m.new_cast_windows, id),
            active: active_after_close(m.active, id),
            ..m
        };
        let m2 = without_in_strip(m1, id);
        match restore {
            Some(p) => {
                let m3 = without_in_strip(m2, p);
                let m4 = StageView {
                    active: Some((m3.next_group_id, seq![p])),
                    next_group_id: next_id(m3.next_group_id),
                    ..m3
                };
                (
                    enforce_cast_limit_spec(m4, max_cast),
                    seq![StageAction::RestoreSavedPosition { window: p }],
                    Some(p),
                )
            },
            None => {
                let m4 = enforce_cast_limit_spec(refill_stage(m2), max_cast);
                let m5 = if m4.hovered_cast matches Some(h) && h >= m4.cast.len()
                    + m4.hidden.len() {
                    StageView { hovered_cast: None, ..m4 }
                } else {
                    m4
                };
                (m5, seq![], None)
            },
        }
    }
}

/// Explicitly move a cast thumbnail onto the stage.
pub open spec fn promote_cast_to_stage_spec(
    m: StageView,
    ws: WorkspaceInfo,
    id: WindowId,
    max_cast: usize,
) -> (StageView, Seq<StageAction>, bool) {
    if is_stage(m, id) {
        (m, seq![], false)
    } else {
        let t = target_for(m, id);
        let m1 = StageView { new_cast_windows: without(m.new_cast_windows, t), ..m };
        match first_with(m1.cast, t) {
            Some(i) => {
                let r = set_stage_single_spec(
                    StageView { cast: take_out_of_group(m1.cast, i, t), ..m1 },
                    ws,
                    t,
                    max_cast,
                );
                (r.0, r.1, true)
            },
            None => match first_with(m1.hidden, t) {
                Some(i) => {
                    let r = set_stage_single_spec(
                        StageView { hidden: take_out_of_group(m1.hidden, i, t), ..m1 },
                        ws,
                        t,
                        max_cast,
                    );
                    (r.0, r.1, true)
                },
                None => (m1, seq![], false),
            },
        }
    }
}

pub open spec fn on_window_activated_spec(
    m: StageView,
    ws: WorkspaceInfo,
    id: WindowId,
    max_cast: usize,
) -> (StageView, Seq<StageAction>, bool) {
    if is_stage(m, id) {
        (m, seq![], false)
    } else if m.new_cast_windows.contains(target_for(m, id)) {
        (
            StageView {
                new_cast_windows: without(m.new_cast_windows, target_for(m, id)),
                ..m
            },
            seq![],
            false,
        )
    } else {
        promote_cast_to_stage_spec(m, ws, id, max_cast)
    }
}

/// The windows that leave a stage group of windows `s` to make room for one more: the last
/// ones, last first, until one is left.
pub open spec fn popped(s: Seq<WindowId>) -> Seq<WindowId>
    decreases s.len(),
{
    if s.len() < 2 {
        seq![]
    } else {
        seq![s.last()] + popped(s.drop_last())
    }
}

pub open spec fn kept(s: Seq<WindowId>) -> Seq<WindowId> {
    if s.len() < 2 {
        s
    } else {
        s.take(1)
    }
}

/// Drag a strip window onto the stage: merge into the stage group (max 2 on stage).
pub open spec fn dragged_to_stage_spec(
    m: StageView,
    ws: WorkspaceInfo,
    id: WindowId,
    max_cast: usize,
) -> (StageView, Seq<StageAction>, bool) {
    if is_stage(m, id) {
        (m, seq![], false)
    } else {
        let m1 = without_in_strip(m, id);
        let demoted = match m1.active {
            Some(g) => popped(g.1),
            None => seq![],
        };
        let m2 = match m1.active {
            Some(g) => StageView {
                active: Some(
                    (
                        g.0,
                        if kept(g.1).contains(id) {
                            kept(g.1)
                        } else {
                            seq![id] + kept(g.1)
                        },
                    ),
                ),
                ..m1
            },
            None => StageView {
                active: Some((m1.next_group_id, seq![id])),
                next_group_id: next_id(m1.next_group_id),
                ..m1
            },
        };
        let m3 = insert_all_spec(m2, ws, demoted);
        let pair = m3.active matches Some(g) && g.1.len() == 2;
        let m4 = if pair {
            StageView {
                interaction_target: None,
                interaction_since: None,
                hovered_cast: None,
                ..m3
            }
        } else {
            m3
        };
        let a2 = if pair {
            clear_actions(m3.active->Some_0.1)
        } else {
            seq![]
        };
        (enforce_cast_limit_spec(m4, max_cast), park_actions(demoted, false) + a2, true)
    }
}

/// Drag a stage window to the strip.
pub open spec fn dragged_to_cast_spec(
    m: StageView,
    ws: WorkspaceInfo,
    id: WindowId,
    max_cast: usize,
) -> (StageView, Seq<StageAction>, bool) {
    if !is_stage(m, id) {
        (m, seq![], false)
    } else {
        let was_parallel = m.active matches Some(g) && g.1.len() > 1;
        let m1 = remove_from_active(m, id);
        let a2 = if was_parallel {
            clear_actions(managed(m1))
        } else {
            seq![]
        };
        (
            enforce_cast_limit_spec(insert_into_cast_spec(m1, ws, id), max_cast),
            seq![StageAction::ParkForCast { window: id, save_position: !was_parallel }] + a2,
            true,
        )
    }
}

/// Move a window onto the strip (e.g. after a cross-monitor interactive move).
pub open spec fn force_to_cast_spec(
    m: StageView,
    ws: WorkspaceInfo,
    id: WindowId,
    max_cast: usize,
) -> (StageView, Seq<StageAction>) {
    let m1 = StageView {
        stage_dialog_parents: m.stage_dialog_parents.filter(dialog_ne(id)),
        new_cast_windows: without(m.new_cast_windows, id),
        ..m
    };
    let staged = is_stage(m1, id);
    let save = m1.active matches Some(g) && g.1.len() == 1 && g.1.contains(id);
    let m2 = if staged {
        remove_from_active(m1, id)
    } else {
        m1
    };
    let a = if staged {
        seq![StageAction::ParkForCast { window: id, save_position: save }]
    } else {
        seq![]
    };
    (enforce_cast_limit_spec(insert_into_cast_spec(without_in_strip(m2, id), ws, id), max_cast), a)
}

pub open spec fn toggle_main_spec(
    m: StageView,
    ws: WorkspaceInfo,
    id: WindowId,
    max_cast: usize,
) -> (StageView, Seq<StageAction>, bool) {
    let t = target_for(m, id);
    if is_cast(m, t) {
        let r = set_stage_single_spec(m, ws, t, max_cast);
        (r.0, r.1, true)
    } else if is_stage(m, t) {
        if m.active matches Some(g) && g.1 == seq![t] {
            dragged_to_cast_spec(m, ws, t, max_cast)
        } else {
            let r = set_stage_single_spec(m, ws, t, max_cast);
            (r.0, r.1, true)
        }
    } else {
        (m, seq![], false)
    }
}

pub open spec fn promote_parallel_spec(
    m: StageView,
    ws: WorkspaceInfo,
    id: WindowId,
    max_cast: usize,
) -> (StageView, Seq<StageAction>, bool) {
    if is_stage(m, id) {
        (m, seq![], false)
    } else if !is_cast(m, target_for(m, id)) {
        (m, seq![], false)
    } else {
        dragged_to_stage_spec(m, ws, target_for(m, id), max_cast)
    }
}

pub open spec fn on_parent_changed_spec(
    m: StageView,
    ws: WorkspaceInfo,
    id: WindowId,
    max_cast: usize,
) -> (StageView, Seq<StageAction>, bool) {
    match stage_parent_of_spec(m, ws, id) {
        None => (m, seq![], false),
        Some(p) => if !is_stage(m, p) && !is_cast(m, p) {
            (m, seq![], false)
        } else {
            let r = open_stage_dialog_spec(m, ws, id, p, max_cast);
            (r.0, r.1, true)
        },
    }
}


// ---------------------------------------------------------------------------------------------
// Executable helpers for the window events.

proof fn lemma_filter_step_any<A>(s: Seq<A>, i: int, p: spec_fn(A) -> bool)
    requires
        0 <= i < s.len(),
    ensures
        s.take(i + 1).filter(p) == (if p(s[i]) {
            s.take(i).filter(p).push(s[i])
        } else {
            s.take(i).filter(p)
        }),
{
    reveal(Seq::filter);
    assert(s.take(i + 1).drop_last() =~= s.take(i));
}

/// Keeps the records whose dialog (`by_dialog`) or parent (otherwise) is not `w`.
fn retain_pairs(v: &mut Vec<(WindowId, WindowId)>, w: WindowId, by_dialog: bool)
    ensures
        final(v)@ == (if by_dialog {
            old(v)@.filter(dialog_ne(w))
        } else {
            old(v)@.filter(parent_ne(w))
        }),
{
    let ghost orig = v@;
    let ghost p = if by_dialog {
        dialog_ne(w)
    } else {
        parent_ne(w)
    };
    let mut out: Vec<(WindowId, WindowId)> = Vec::new();
    let mut i: usize = 0;
    while i < v.len()
        invariant
            orig == v@,
            i <= orig.len(),
            p == (if by_dialog {
                dialog_ne(w)
            } else {
                parent_ne(w)
            }),
            out@ == orig.take(i as int).filter(p),
        decreases orig.len() - i,
    {
        proof {
            lemma_filter_step_any(orig, i as int, p);
        }
        let e = v[i];
        let keep = if by_dialog {
            e.0 != w
        } else {
            e.1 != w
        };
        if keep {
            out.push(e);
        }
        i += 1;
    }
    proof {
        assert(orig.take(orig.len() as int) =~= orig);
    }
    *v = out;
}

pub proof fn lemma_dialog_parent(s: Seq<(WindowId, WindowId)>, d: WindowId, i: int)
    requires
        0 <= i <= s.len(),
        forall|j: int| 0 <= j < i ==> s[j].0 != d,
        i < s.len() ==> s[i].0 == d,
    ensures
        dialog_parent(s, d) == (if i < s.len() {
            Some(s[i].1)
        } else {
            None
        }),
    decreases i,
{
    if i > 0 {
        lemma_dialog_parent(s.drop_first(), d, i - 1);
    }
}

/// The parent of dialog `id` when that parent is another workspace window among `among`.
fn parent_among_exec(ws: &WorkspaceInfo, among: &Vec<WindowId>, id: WindowId) -> (r: Option<
    WindowId,
>)
    ensures
        r == parent_among(*ws, among@, id),
{
    let child = match find_window(ws, id) {
        Some(c) => c,
        None => {
            return None;
        },
    };
    let mut k: usize = 0;
    while k < among.len()
        invariant
            k <= among@.len(),
            Some(child) == window_entry(ws.windows@, id),
            forall|j: int|
                0 <= j < k ==> !(among@[j] != id && in_workspace(*ws, among@[j]) && child.parent
                    == Some(#[trigger] among@[j])),
        decreases among@.len() - k,
    {
        let pid = among[k];
        if pid != id {
            if find_window(ws, pid).is_some() {
                let is_child = match child.parent {
                    Some(p) => p == pid,
                    None => false,
                };
                if is_child {
                    proof {
                        assert(among@.contains(pid));
                    }
                    return Some(pid);
                }
            }
        }
        k += 1;
    }
    proof {
        if let Some(p) = child.parent {
            if p != id && among@.contains(p) && in_workspace(*ws, p) {
                let j = choose|j: int| 0 <= j < among@.len() && among@[j] == p;
                assert(!(among@[j] != id && in_workspace(*ws, among@[j]) && child.parent == Some(
                    among@[j],
                )));
            }
        }
    }
    None
}

/// Takes `t` out of group `i`; the group goes when it is left empty.
fn take_out_of_group_exec(gs: &mut Vec<StageGroup>, i: usize, t: WindowId)
    requires
        i < old(gs)@.len(),
    ensures
        gviews(final(gs)@) == take_out_of_group(gviews(old(gs)@), i as int, t),
{
    let ghost v = gviews(gs@);
    proof {
        lemma_gviews_remove(gs@, i as int);
        assert(gs@[i as int]@ == v[i as int]);
    }
    let mut g = gs.remove(i);
    g.remove(t);
    if g.windows.len() > 0 {
        gs.insert(i, g);
        proof {
            assert(gviews(gs@) =~= v.update(i as int, (v[i as int].0, without(v[i as int].1, t))));
        }
    }
}

impl StageManagerState {
    fn remove_from_active(&mut self, id: WindowId)
        ensures
            final(self)@ == remove_from_active(old(self)@, id),
    {
        let mut emptied = false;
        if let Some(active) = &mut self.active_group {
            active.remove(id);
            emptied = active.windows.len() == 0;
        }
        if emptied {
            self.active_group = None;
        }
        proof {
            assert(self@ == remove_from_active(old(self)@, id));
        }
    }

    fn first_dialog_parent(&self, id: WindowId) -> (r: Option<WindowId>)
        ensures
            r == dialog_parent(self@.stage_dialog_parents, id),
    {
        let ghost s = self@.stage_dialog_parents;
        let mut i: usize = 0;
        while i < self.stage_dialog_parents.len()
            invariant
                s == self.stage_dialog_parents@,
                i <= s.len(),
                forall|j: int| 0 <= j < i ==> s[j].0 != id,
            decreases s.len() - i,
        {
            if self.stage_dialog_parents[i].0 == id {
                proof {
                    lemma_dialog_parent(s, id, i as int);
                }
                return Some(self.stage_dialog_parents[i].1);
            }
            i += 1;
        }
        proof {
            lemma_dialog_parent(s, id, i as int);
        }
        None
    }

    /// The parent of dialog `id` when that parent is on the stage.
    fn stage_parent_on_stage(&self, ws: &WorkspaceInfo, id: WindowId) -> (r: Option<WindowId>)
        ensures
            r == stage_parent_on_stage_spec(self@, *ws, id),
    {
        match &self.active_group {
            Some(g) => parent_among_exec(ws, &g.windows, id),
            None => None,
        }
    }

    /// The managed window that `id` is a dialog of.
    fn stage_parent_of(&self, ws: &WorkspaceInfo, id: WindowId) -> (r: Option<WindowId>)
        ensures
            r == stage_parent_of_spec(self@, *ws, id),
    {
        let all = self.all_managed_windows();
        parent_among_exec(ws, &all, id)
    }

    /// Whether `id` is a dialog opening on a window currently on the stage.
    pub fn is_stage_child_of_active(&self, ws: &WorkspaceInfo, id: WindowId) -> (r: bool)
        ensures
            r == stage_parent_on_stage_spec(self@, *ws, id) is Some,
    {
        self.stage_parent_on_stage(ws, id).is_some()
    }

    /// Parks the parent in the strip and shows the dialog alone on the stage.
    fn open_stage_dialog(
        &mut self,
        ws: &WorkspaceInfo,
        dialog_id: WindowId,
        parent_id: WindowId,
        max_cast: usize,
        effects: &mut Vec<StageAction>,
    )
        ensures
            final(self)@ == open_stage_dialog_spec(old(self)@, *ws, dialog_id, parent_id, max_cast).0,
            final(effects)@ == old(effects)@ + open_stage_dialog_spec(
                old(self)@,
                *ws,
                dialog_id,
                parent_id,
                max_cast,
            ).1,
    {
        let ghost o = self@;
        self.consume_promote_defer(dialog_id);
        remove_from_group_list(&mut self.cast_groups, dialog_id);
        remove_from_group_list(&mut self.hidden_groups, dialog_id);
        let ghost m1 = self@;
        assert(m1 == (StageView {
            new_cast_windows: without(o.new_cast_windows, dialog_id),
            ..without_in_strip(o, dialog_id)
        }));
        if self.is_stage_window(parent_id) {
            effects.push(StageAction::ParkForCast { window: parent_id, save_position: true });
            self.remove_from_active(parent_id);
            self.insert_into_cast(ws, parent_id);
        }
        retain_pairs(&mut self.stage_dialog_parents, parent_id, false);
        self.stage_dialog_parents.push((dialog_id, parent_id));
        remove_from_group_list(&mut self.cast_groups, dialog_id);
        remove_from_group_list(&mut self.hidden_groups, dialog_id);
        let gid = self.fresh_group_id();
        self.active_group = Some(StageGroup::new(gid, dialog_id));
        self.enforce_cast_limit(max_cast);
        proof {
            let r = open_stage_dialog_spec(o, *ws, dialog_id, parent_id, max_cast);
            assert(self@ == r.0);
            assert(effects@ =~= old(effects)@ + r.1);
        }
    }
}


// ---------------------------------------------------------------------------------------------
// Window events.

impl StageManagerState {
    pub fn on_window_added(
        &mut self,
        ws: &WorkspaceInfo,
        id: WindowId,
        max_cast: usize,
        effects: &mut Vec<StageAction>,
    )
        ensures
            final(self)@ == on_window_added_spec(old(self)@, *ws, id, max_cast).0,
            final(effects)@ == old(effects)@ + on_window_added_spec(old(self)@, *ws, id, max_cast).1,
    {
        let ghost o = self@;
        if self.active_group.is_none() && self.cast_groups.len() == 0 && self.hidden_groups.len()
            == 0 {
            let gid = self.fresh_group_id();
            self.active_group = Some(StageGroup::new(gid, id));
            proof {
                assert(self@ == on_window_added_spec(o, *ws, id, max_cast).0);
                assert(effects@ =~= old(effects)@ + seq![]);
            }
            return;
        }
        if self.is_stage_window(id) {
            if let Some(active) = &mut self.active_group {
                active.bring_to_front(id);
            }
            proof {
                assert(self@ == on_window_added_spec(o, *ws, id, max_cast).0);
                assert(effects@ =~= old(effects)@ + seq![]);
            }
            return;
        }
        if let Some(parent_id) = self.stage_parent_on_stage(ws, id) {
            self.open_stage_dialog(ws, id, parent_id, max_cast, effects);
            return;
        }
        self.consume_promote_defer(id);
        self.new_cast_windows.push(id);
        self.insert_into_cast(ws, id);
        self.enforce_cast_limit(max_cast);
        proof {
            assert(self@ == on_window_added_spec(o, *ws, id, max_cast).0);
            assert(effects@ =~= old(effects)@ + seq![]);
        }
    }

    /// Returns the parent window to restore when a stage dialog closes.
    pub fn on_window_removed(
        &mut self,
        id: WindowId,
        max_cast: usize,
        effects: &mut Vec<StageAction>,
    ) -> (r: Option<WindowId>)
        ensures
            final(self)@ == on_window_removed_spec(old(self)@, id, max_cast).0,
            final(effects)@ == old(effects)@ + on_window_removed_spec(old(self)@, id, max_cast).1,
            r == on_window_removed_spec(old(self)@, id, max_cast).2,
    {
        let ghost o = self@;
        if self.is_interactive_move_of(id) {
            proof {
                assert(effects@ =~= old(effects)@ + seq![]);
            }
            return None;
        }
        let parent_to_restore = self.first_dialog_parent(id);
        retain_pairs(&mut self.stage_dialog_parents, id, true);
        self.consume_promote_defer(id);
        let mut emptied = false;
        if let Some(group) = &mut self.active_group {
            if group.remove(id) && group.windows.len() == 0 {
                emptied = true;
            }
        }
        if emptied {
            self.active_group = None;
        }
        remove_from_group_list(&mut self.cast_groups, id);
        remove_from_group_list(&mut self.hidden_groups, id);
        let ghost m2 = self@;
        proof {
            let m1 = StageView {
                stage_dialog_parents: o.stage_dialog_parents.filter(dialog_ne(id)),
                new_cast_windows: without(o.new_cast_windows, id),
                active: active_after_close(o.active, id),
                ..o
            };
            assert(m2 == without_in_strip(m1, id));
        }
        if let Some(parent_id) = parent_to_restore {
            remove_from_group_list(&mut self.cast_groups, parent_id);
            remove_from_group_list(&mut self.hidden_groups, parent_id);
            effects.push(StageAction::RestoreSavedPosition { window: parent_id });
            let gid = self.fresh_group_id();
            self.active_group = Some(StageGroup::new(gid, parent_id));
            self.enforce_cast_limit(max_cast);
            proof {
                let r = on_window_removed_spec(o, id, max_cast);
                assert(self@ == r.0);
                assert(effects@ =~= old(effects)@ + r.1);
            }
            return Some(parent_id);
        }
        if self.active_group.is_none() {
            if self.cast_groups.len() > 0 {
                let ghost cg = self.cast_groups@;
                let g = self.cast_groups.remove(0);
                self.active_group = Some(g);
                proof {
                    lemma_gviews_remove(cg, 0);
                    assert(gviews(cg).remove(0) =~= gviews(cg).drop_first());
                }
            } else if self.hidden_groups.len() > 0 {
                let ghost hg = self.hidden_groups@;
                let g = self.hidden_groups.remove(0);
                self.active_group = Some(g);
                proof {
                    lemma_gviews_remove(hg, 0);
                    assert(gviews(hg).remove(0) =~= gviews(hg).drop_first());
                }
            }
        }
        proof {
            assert(self@ == refill_stage(m2));
        }
        self.enforce_cast_limit(max_cast);
        if let Some(hovered) = self.hovered_cast {
            if hovered >= self.cast_groups.len() && hovered - self.cast_groups.len()
                >= self.hidden_groups.len() {
                self.hovered_cast = None;
            }
        }
        proof {
            let r = on_window_removed_spec(o, id, max_cast);
            assert(self@ == r.0);
            assert(effects@ =~= old(effects)@ + r.1);
        }
        None
    }
}


pub proof fn lemma_popped_step(s: Seq<WindowId>)
    requires
        s.len() >= 2,
    ensures
        popped(s) == seq![s.last()] + popped(s.drop_last()),
        kept(s) == kept(s.drop_last()),
{
    assert(s.take(1) =~= s.drop_last().take(1));
}

impl StageManagerState {
    fn target_for(&self, id: WindowId) -> (r: WindowId)
        ensures
            r == target_for(self@, id),
    {
        match self.cast_group_front_for(id) {
            Some(f) => f,
            None => id,
        }
    }

    /// Explicitly move a cast thumbnail onto the stage (click, task switcher, etc.).
    pub fn promote_cast_to_stage(
        &mut self,
        ws: &WorkspaceInfo,
        id: WindowId,
        max_cast: usize,
        effects: &mut Vec<StageAction>,
    ) -> (r: bool)
        ensures
            final(self)@ == promote_cast_to_stage_spec(old(self)@, *ws, id, max_cast).0,
            final(effects)@ == old(effects)@ + promote_cast_to_stage_spec(
                old(self)@,
                *ws,
                id,
                max_cast,
            ).1,
            r == promote_cast_to_stage_spec(old(self)@, *ws, id, max_cast).2,
    {
        let ghost o = self@;
        if self.is_stage_window(id) {
            proof {
                assert(effects@ =~= old(effects)@ + seq![]);
            }
            return false;
        }
        let target_id = self.target_for(id);
        self.consume_promote_defer(target_id);
        match first_group_containing(&self.cast_groups, target_id) {
            Some(i) => {
                proof {
                    lemma_first_with_range(self@.cast, target_id);
                }
                take_out_of_group_exec(&mut self.cast_groups, i, target_id);
            },
            None => match first_group_containing(&self.hidden_groups, target_id) {
                Some(i) => {
                    proof {
                        lemma_first_with_range(self@.hidden, target_id);
                    }
                    take_out_of_group_exec(&mut self.hidden_groups, i, target_id);
                },
                None => {
                    proof {
                        assert(effects@ =~= old(effects)@ + seq![]);
                    }
                    return false;
                },
            },
        }
        self.set_stage_single(ws, target_id, max_cast, effects);
        true
    }

    /// Focus a cast window without promoting it to the stage (used for newly opened windows).
    pub fn on_window_activated(
        &mut self,
        ws: &WorkspaceInfo,
        id: WindowId,
        max_cast: usize,
        effects: &mut Vec<StageAction>,
    ) -> (r: bool)
        ensures
            final(self)@ == on_window_activated_spec(old(self)@, *ws, id, max_cast).0,
            final(effects)@ == old(effects)@ + on_window_activated_spec(
                old(self)@,
                *ws,
                id,
                max_cast,
            ).1,
            r == on_window_activated_spec(old(self)@, *ws, id, max_cast).2,
    {
        if self.is_stage_window(id) {
            proof {
                assert(effects@ =~= old(effects)@ + seq![]);
            }
            return false;
        }
        let target_id = self.target_for(id);
        if self.should_defer_promote(target_id) {
            self.consume_promote_defer(target_id);
            proof {
                assert(effects@ =~= old(effects)@ + seq![]);
            }
            return false;
        }
        self.promote_cast_to_stage(ws, id, max_cast, effects)
    }

    /// Drag a cast window onto the stage: merge into the active group (max 2 on stage).
    pub fn on_window_dragged_to_stage(
        &mut self,
        ws: &WorkspaceInfo,
        id: WindowId,
        max_cast: usize,
        effects: &mut Vec<StageAction>,
    ) -> (r: bool)
        ensures
            final(self)@ == dragged_to_stage_spec(old(self)@, *ws, id, max_cast).0,
            final(effects)@ == old(effects)@ + dragged_to_stage_spec(old(self)@, *ws, id, max_cast).1,
            r == dragged_to_stage_spec(old(self)@, *ws, id, max_cast).2,
    {
        let ghost o = self@;
        if self.is_stage_window(id) {
            proof {
                assert(effects@ =~= old(effects)@ + seq![]);
            }
            return false;
        }
        remove_from_group_list(&mut self.cast_groups, id);
        remove_from_group_list(&mut self.hidden_groups, id);
        let ghost m1 = self@;
        let mut demoted: Vec<WindowId> = Vec::new();
        let mut created = false;
        match &mut self.active_group {
            Some(active) => {
                let ghost orig = active.windows@;
                while active.windows.len() >= MAX_PARALLEL_STAGE
                    invariant
                        demoted@ + popped(active.windows@) == popped(orig),
                        kept(active.windows@) == kept(orig),
                        active.id == m1.active->Some_0.0,
                    decreases active.windows@.len(),
                {
                    let ghost before = active.windows@;
                    proof {
                        lemma_popped_step(before);
                    }
                    let w = active.windows.pop().unwrap();
                    demoted.push(w);
                    proof {
                        assert(active.windows@ =~= before.drop_last());
                        assert(demoted@ + popped(active.windows@) =~= popped(orig));
                    }
                }
                proof {
                    assert(popped(active.windows@) =~= seq![]);
                    assert(demoted@ =~= popped(orig));
                    assert(kept(active.windows@) == active.windows@);
                }
                if !active.contains(id) {
                    active.windows.insert(0, id);
                    proof {
                        assert(active.windows@ =~= seq![id] + kept(orig));
                    }
                }
            },
            None => {
                created = true;
            },
        }
        if created {
            let gid = self.fresh_group_id();
            self.active_group = Some(StageGroup::new(gid, id));
        }
        let ghost m2 = self@;
        proof {
            match m1.active {
                Some(g) => {
                    assert(m2.active == Some(
                        (
                            g.0,
                            if kept(g.1).contains(id) {
                                kept(g.1)
                            } else {
                                seq![id] + kept(g.1)
                            },
                        ),
                    ));
                    assert(m2 == (StageView {
                        active: Some(
                            (
                                g.0,
                                if kept(g.1).contains(id) {
                                    kept(g.1)
                                } else {
                                    seq![id] + kept(g.1)
                                },
                            ),
                        ),
                        ..m1
                    }));
                },
                None => {
                    assert(demoted@ =~= seq![]);
                },
            }
        }
        let mut i: usize = 0;
        while i < demoted.len()
            invariant
                i <= demoted@.len(),
                self@ == insert_all_spec(m2, *ws, demoted@.take(i as int)),
                effects@ == old(effects)@ + park_actions(demoted@.take(i as int), false),
            decreases demoted@.len() - i,
        {
            let win = demoted[i];
            effects.push(StageAction::ParkForCast { window: win, save_position: false });
            self.insert_into_cast(ws, win);
            proof {
                lemma_insert_all_step(m2, *ws, demoted@, i as int);
                assert(park_actions(demoted@.take(i + 1), false) =~= park_actions(
                    demoted@.take(i as int),
                    false,
                ).push(StageAction::ParkForCast { window: win, save_position: false }));
                assert(effects@ =~= old(effects)@ + park_actions(demoted@.take(i + 1), false));
            }
            i += 1;
        }
        proof {
            assert(demoted@.take(i as int) =~= demoted@);
        }
        let ghost e1 = effects@;
        let pair = match &self.active_group {
            Some(g) => g.windows.len() == MAX_PARALLEL_STAGE,
            None => false,
        };
        if pair {
            if let Some(g) = &self.active_group {
                let mut j: usize = 0;
                while j < g.windows.len()
                    invariant
                        j <= g.windows@.len(),
                        effects@ == e1 + clear_actions(g.windows@.take(j as int)),
                    decreases g.windows@.len() - j,
                {
                    effects.push(StageAction::ClearDefaultLayout { window: g.windows[j] });
                    proof {
                        assert(clear_actions(g.windows@.take(j + 1)) =~= clear_actions(
                            g.windows@.take(j as int),
                        ).push(StageAction::ClearDefaultLayout { window: g.windows@[j as int] }));
                    }
                    j += 1;
                }
                proof {
                    assert(g.windows@.take(j as int) =~= g.windows@);
                }
            }
            self.clear_auto_use_as_main_timer();
            self.clear_pointer_hover();
        }
        self.enforce_cast_limit(max_cast);
        proof {
            let r = dragged_to_stage_spec(o, *ws, id, max_cast);
            assert(self@ == r.0);
            assert(effects@ =~= old(effects)@ + r.1);
        }
        true
    }

    /// Move a window onto the cast strip (e.g. after a cross-monitor interactive move).
    pub fn force_window_to_cast(
        &mut self,
        ws: &WorkspaceInfo,
        id: WindowId,
        max_cast: usize,
        effects: &mut Vec<StageAction>,
    ) -> (r: bool)
        ensures
            final(self)@ == force_to_cast_spec(old(self)@, *ws, id, max_cast).0,
            final(effects)@ == old(effects)@ + force_to_cast_spec(old(self)@, *ws, id, max_cast).1,
            r,
    {
        let ghost o = self@;
        retain_pairs(&mut self.stage_dialog_parents, id, true);
        self.consume_promote_defer(id);
        if self.is_stage_window(id) {
            let save_pos = match &self.active_group {
                Some(g) => g.windows.len() == 1 && g.contains(id),
                None => false,
            };
            effects.push(StageAction::ParkForCast { window: id, save_position: save_pos });
            self.remove_from_active(id);
        }
        remove_from_group_list(&mut self.cast_groups, id);
        remove_from_group_list(&mut self.hidden_groups, id);
        self.insert_into_cast(ws, id);
        self.enforce_cast_limit(max_cast);
        proof {
            let r = force_to_cast_spec(o, *ws, id, max_cast);
            assert(self@ == r.0);
            assert(effects@ =~= old(effects)@ + r.1);
        }
        true
    }

    /// Drag a stage window to the cast strip.
    pub fn on_window_dragged_to_cast(
        &mut self,
        ws: &WorkspaceInfo,
        id: WindowId,
        max_cast: usize,
        effects: &mut Vec<StageAction>,
    ) -> (r: bool)
        ensures
            final(self)@ == dragged_to_cast_spec(old(self)@, *ws, id, max_cast).0,
            final(effects)@ == old(effects)@ + dragged_to_cast_spec(old(self)@, *ws, id, max_cast).1,
            r == dragged_to_cast_spec(old(self)@, *ws, id, max_cast).2,
    {
        let ghost o = self@;
        if !self.is_stage_window(id) {
            proof {
                assert(effects@ =~= old(effects)@ + seq![]);
            }
            return false;
        }
        let was_parallel = match &self.active_group {
            Some(g) => g.windows.len() > 1,
            None => false,
        };
        effects.push(StageAction::ParkForCast { window: id, save_position: !was_parallel });
        self.remove_from_active(id);
        if was_parallel {
            self.reset_managed_layout_defaults(effects);
        }
        self.insert_into_cast(ws, id);
        self.enforce_cast_limit(max_cast);
        proof {
            let r = dragged_to_cast_spec(o, *ws, id, max_cast);
            assert(self@ == r.0);
            assert(effects@ =~= old(effects)@ + r.1);
        }
        true
    }

    /// Win+G: promote the focused app to sole main, or demote it back to the cast strip.
    pub fn toggle_main(
        &mut self,
        ws: &WorkspaceInfo,
        id: WindowId,
        max_cast: usize,
        effects: &mut Vec<StageAction>,
    ) -> (r: bool)
        ensures
            final(self)@ == toggle_main_spec(old(self)@, *ws, id, max_cast).0,
            final(effects)@ == old(effects)@ + toggle_main_spec(old(self)@, *ws, id, max_cast).1,
            r == toggle_main_spec(old(self)@, *ws, id, max_cast).2,
    {
        let target_id = self.target_for(id);
        if self.is_cast_window(target_id) {
            self.set_stage_single(ws, target_id, max_cast, effects);
            return true;
        }
        if self.is_stage_window(target_id) {
            let single = match &self.active_group {
                Some(g) => g.windows.len() == 1 && g.windows[0] == target_id,
                None => false,
            };
            proof {
                if let Some(g) = self@.active {
                    if g.1 == seq![target_id] {
                        assert(g.1.len() == 1 && g.1[0] == target_id);
                    }
                    if g.1.len() == 1 && g.1[0] == target_id {
                        assert(g.1 =~= seq![target_id]);
                    }
                }
            }
            if single {
                return self.on_window_dragged_to_cast(ws, target_id, max_cast, effects);
            }
            self.set_stage_single(ws, target_id, max_cast, effects);
            return true;
        }
        proof {
            assert(effects@ =~= old(effects)@ + seq![]);
        }
        false
    }

    /// Win+Shift+G: show the focused cast app in parallel on stage (max 2).
    pub fn promote_parallel(
        &mut self,
        ws: &WorkspaceInfo,
        id: WindowId,
        max_cast: usize,
        effects: &mut Vec<StageAction>,
    ) -> (r: bool)
        ensures
            final(self)@ == promote_parallel_spec(old(self)@, *ws, id, max_cast).0,
            final(effects)@ == old(effects)@ + promote_parallel_spec(old(self)@, *ws, id, max_cast).1,
            r == promote_parallel_spec(old(self)@, *ws, id, max_cast).2,
    {
        if self.is_stage_window(id) {
            proof {
                assert(effects@ =~= old(effects)@ + seq![]);
            }
            return false;
        }
        let target_id = self.target_for(id);
        if !self.is_cast_window(target_id) {
            proof {
                assert(effects@ =~= old(effects)@ + seq![]);
            }
            return false;
        }
        self.on_window_dragged_to_stage(ws, target_id, max_cast, effects)
    }

    /// A child window gained an xdg parent after mapping.
    pub fn on_parent_changed(
        &mut self,
        ws: &WorkspaceInfo,
        id: WindowId,
        max_cast: usize,
        effects: &mut Vec<StageAction>,
    ) -> (r: bool)
        ensures
            final(self)@ == on_parent_changed_spec(old(self)@, *ws, id, max_cast).0,
            final(effects)@ == old(effects)@ + on_parent_changed_spec(old(self)@, *ws, id, max_cast).1,
            r == on_parent_changed_spec(old(self)@, *ws, id, max_cast).2,
    {
        let parent_id = match self.stage_parent_of(ws, id) {
            Some(p) => p,
            None => {
                proof {
                    assert(effects@ =~= old(effects)@ + seq![]);
                }
                return false;
            },
        };
        if !self.is_stage_window(parent_id) && !self.is_cast_window(parent_id) {
            proof {
                assert(effects@ =~= old(effects)@ + seq![]);
            }
            return false;
        }
        self.open_stage_dialog(ws, id, parent_id, max_cast, effects);
        true
    }
}


// ---------------------------------------------------------------------------------------------
// Building the state from an existing workspace.

/// The position of the first keyed group with key `k`.
pub open spec fn key_index(gs: Seq<(Option<u64>, GroupView)>, k: Option<u64>) -> Option<int> {
    if exists|i: int| 0 <= i < gs.len() && (#[trigger] gs[i]).0 == k {
        Some(choose|i: int| 0 <= i < gs.len() && (#[trigger] gs[i]).0 == k)
    } else {
        None
    }
}

pub open spec fn kviews(s: Seq<(Option<u64>, StageGroup)>) -> Seq<(Option<u64>, GroupView)> {
    s.map_values(|e: (Option<u64>, StageGroup)| (e.0, e.1@))
}

/// Groups the windows by stack key, in order of first appearance of each key; each group
/// holds its windows newest first. Returns the keyed groups and the next group identifier.
pub open spec fn build_groups(ws: WorkspaceInfo, ids: Seq<WindowId>, next: u64) -> (
    Seq<(Option<u64>, GroupView)>,
    u64,
)
    decreases ids.len(),
{
    if ids.len() == 0 {
        (seq![], next)
    } else {
        let (gs, n) = build_groups(ws, ids.drop_last(), next);
        let id = ids.last();
        let k = key_of(ws, id);
        match key_index(gs, k) {
            Some(j) => (gs.update(j, (k, (gs[j].1.0, seq![id] + gs[j].1.1))), n),
            None => (gs.push((k, (n, seq![id]))), next_id(n)),
        }
    }
}

pub open spec fn window_ids(ws: WorkspaceInfo) -> Seq<WindowId> {
    ws.windows@.map_values(|w: WindowInfo| w.id)
}

/// Puts the groups into the state: the group of `active_id` gives up that window, which goes on
/// the stage in a group of its own; the other groups (and what is left of that one) go to the
/// strip in order.
pub open spec fn place_groups(
    m: StageView,
    gs: Seq<(Option<u64>, GroupView)>,
    active_id: WindowId,
) -> StageView
    decreases gs.len(),
{
    if gs.len() == 0 {
        m
    } else {
        let m0 = place_groups(m, gs.drop_last(), active_id);
        let g = gs.last().1;
        if g.1.contains(active_id) {
            let siblings = without(g.1, active_id);
            let m1 = StageView {
                active: Some((m0.next_group_id, seq![active_id])),
                next_group_id: next_id(m0.next_group_id),
                ..m0
            };
            if siblings.len() > 0 {
                StageView { cast: m1.cast.push((g.0, siblings)), ..m1 }
            } else {
                m1
            }
        } else {
            StageView { cast: m0.cast.push(g), ..m0 }
        }
    }
}

/// The state for a workspace whose windows are `ws.windows`, the focused one `active`, with
/// the strip capped at `max_cast` visible groups (see [`placed_from_workspace`]).
pub open spec fn from_workspace_spec(
    ws: WorkspaceInfo,
    active: Option<WindowId>,
    max_cast: usize,
) -> StageView {
    enforce_cast_limit_spec(placed_from_workspace(ws, active), max_cast)
}

/// The groups of a workspace whose windows are `ws.windows`, the focused one `active`, placed
/// before the strip is capped: the focused window alone on the stage, each stack key a strip
/// group.
pub open spec fn placed_from_workspace(ws: WorkspaceInfo, active: Option<WindowId>) -> StageView {
    let empty = StageView {
        active: None,
        cast: seq![],
        hidden: seq![],
        next_group_id: 0,
        hovered_cast: None,
        interaction_target: None,
        interaction_since: None,
        new_cast_windows: seq![],
        interactive_move_stage: None,
        stage_dialog_parents: seq![],
    };
    let ids = window_ids(ws);
    if ids.len() == 0 {
        empty
    } else {
        let (gs, n) = build_groups(ws, ids, 0);
        let active_id = match active {
            Some(a) => a,
            None => ids[0],
        };
        let m = place_groups(StageView { next_group_id: n, ..empty }, gs, active_id);
        if m.active is None && m.cast.len() > 0 {
            let g = m.cast[0];
            let rest = m.cast.drop_first();
            if g.1.len() > 0 {
                let m1 = StageView {
                    active: Some((m.next_group_id, seq![g.1[0]])),
                    next_group_id: next_id(m.next_group_id),
                    ..m
                };
                if g.1.len() > 1 {
                    StageView { cast: seq![(g.0, g.1.skip(1))] + rest, ..m1 }
                } else {
                    StageView { cast: rest, ..m1 }
                }
            } else {
                StageView { cast: rest, ..m }
            }
        } else {
            m
        }
    }
}

proof fn lemma_key_index(gs: Seq<(Option<u64>, GroupView)>, k: Option<u64>, i: int)
    requires
        0 <= i <= gs.len(),
        forall|j: int| 0 <= j < i ==> (#[trigger] gs[j]).0 != k,
        i < gs.len() ==> gs[i].0 == k,
        forall|a: int, b: int| 0 <= a < b < gs.len() ==> (#[trigger] gs[a]).0 != (#[trigger] gs[b]).0,
    ensures
        key_index(gs, k) == (if i < gs.len() {
            Some(i)
        } else {
            None
        }),
{
    if i < gs.len() {
        assert(exists|j: int| 0 <= j < gs.len() && (#[trigger] gs[j]).0 == k);
        let c = key_index(gs, k)->Some_0;
        assert(0 <= c < gs.len() && gs[c].0 == k);
        if c != i {
            if c < i {
                assert(gs[c].0 != k);
            } else {
                assert(gs[i].0 != gs[c].0);
            }
        }
    } else {
        assert(!exists|j: int| 0 <= j < gs.len() && (#[trigger] gs[j]).0 == k);
    }
}

/// The keys of the groups built are pairwise distinct.
proof fn lemma_build_groups_keys(ws: WorkspaceInfo, ids: Seq<WindowId>, next: u64)
    ensures
        forall|a: int, b: int|
            0 <= a < b < build_groups(ws, ids, next).0.len() ==> (#[trigger] build_groups(
                ws,
                ids,
                next,
            ).0[a]).0 != (#[trigger] build_groups(ws, ids, next).0[b]).0,
    decreases ids.len(),
{
    if ids.len() > 0 {
        lemma_build_groups_keys(ws, ids.drop_last(), next);
        let (gs, n) = build_groups(ws, ids.drop_last(), next);
        let k = key_of(ws, ids.last());
        let r = build_groups(ws, ids, next).0;
        if key_index(gs, k) is None {
            assert forall|a: int, b: int| 0 <= a < b < r.len() implies (#[trigger] r[a]).0 != (
            #[trigger] r[b]).0 by {
                if b == gs.len() {
                    assert(r[a] == gs[a]);
                    if gs[a].0 == k {
                        assert(exists|i: int| 0 <= i < gs.len() && (#[trigger] gs[i]).0 == k);
                    }
                } else {
                    assert(r[a] == gs[a]);
                    assert(r[b] == gs[b]);
                }
            }
        } else {
            let j = key_index(gs, k)->Some_0;
            assert(0 <= j < gs.len() && gs[j].0 == k);
            assert forall|a: int, b: int| 0 <= a < b < r.len() implies (#[trigger] r[a]).0 != (
            #[trigger] r[b]).0 by {
                assert(r[a].0 == gs[a].0);
                assert(r[b].0 == gs[b].0);
            }
        }
    }
}

/// Groups the windows of the workspace by stack key (see [`build_groups`]). The groups are kept
/// in order of first appearance; a map from each stack key to the position of its group finds
/// the group of a window (a window the workspace does not list has no key, and its group is
/// held apart).
fn build_groups_from_windows(ws: &WorkspaceInfo, next: u64) -> (r: (
    Vec<(Option<u64>, StageGroup)>,
    u64,
))
    ensures
        kviews(r.0@) == build_groups(
            *ws,
            window_ids(*ws),
            next,
        ).0,
        r.1 == build_groups(*ws, window_ids(*ws), next).1,
{
    broadcast use vstd::std_specs::hash::group_hash_axioms;

    let ghost ids = window_ids(*ws);
    let mut groups: Vec<(Option<u64>, StageGroup)> = Vec::new();
    let mut index: HashMap<u64, usize> = HashMap::new();
    let mut keyless: Option<usize> = None;
    let mut n = next;
    let mut i: usize = 0;
    while i < ws.windows.len()
        invariant
            ids == window_ids(*ws),
            i <= ids.len(),
            ids.len() == ws.windows@.len(),
            kviews(groups@) == build_groups(
                *ws,
                ids.take(i as int),
                next,
            ).0,
            n == build_groups(*ws, ids.take(i as int), next).1,
            forall|k: u64| #[trigger] index@.contains_key(k) ==> index@[k] < groups@.len()
                && groups@[index@[k] as int].0 == Some(k),
            forall|l: int| 0 <= l < groups@.len() && (#[trigger] groups@[l]).0 is Some
                ==> index@.contains_key(groups@[l].0->Some_0),
            keyless matches Some(l) ==> l < groups@.len() && groups@[l as int].0 is None,
            forall|l: int| 0 <= l < groups@.len() && (#[trigger] groups@[l]).0 is None
                ==> keyless is Some,
        decreases ids.len() - i,
    {
        let id = ws.windows[i].id;
        let key = window_key(ws, id);
        let ghost gv = kviews(groups@);
        proof {
            assert(ids.take(i + 1).drop_last() =~= ids.take(i as int));
            assert(ids.take(i + 1).last() == id);
            lemma_build_groups_keys(*ws, ids.take(i as int), next);
            assert forall|l: int| 0 <= l < groups@.len() implies #[trigger] gv[l].0
                == groups@[l].0 by {}
        }
        let len = groups.len();
        let (found, j): (bool, usize) = match key {
            Some(k) => match index.get(&k) {
                Some(pos) => (true, *pos),
                None => (false, len),
            },
            None => match keyless {
                Some(pos) => (true, pos),
                None => (false, len),
            },
        };
        proof {
            if found {
                assert(j < gv.len() && gv[j as int].0 == key);
                assert forall|l: int| 0 <= l < j implies (#[trigger] gv[l]).0 != key by {
                    assert(gv[l].0 != gv[j as int].0);
                }
            } else {
                assert forall|l: int| 0 <= l < j implies (#[trigger] gv[l]).0 != key by {
                    assert(gv[l].0 == groups@[l].0);
                }
            }
        }
        if found {
            proof {
                lemma_key_index(gv, key, j as int);
            }
            let ghost gs0 = groups@;
            let (k, mut g) = groups.remove(j);
            proof {
                assert((k, g@) == gv[j as int]);
            }
            g.windows.insert(0, id);
            proof {
                assert(g@ == (gv[j as int].1.0, seq![id] + gv[j as int].1.1));
                assert(k == key);
            }
            let ghost e = (k, g);
            groups.insert(j, (k, g));
            proof {
                assert(groups@ =~= gs0.update(j as int, e));
                assert forall|l: int| 0 <= l < groups@.len() implies #[trigger] kviews(groups@)[l]
                    == gv.update(j as int, (key, (gv[j as int].1.0, seq![id] + gv[j as int].1.1)))[l] by {
                    if l != j {
                        assert(groups@[l] == gs0[l]);
                    }
                }
                assert(kviews(groups@) =~= gv.update(
                    j as int,
                    (key, (gv[j as int].1.0, seq![id] + gv[j as int].1.1)),
                ));
                assert forall|l: int| 0 <= l < groups@.len() implies (#[trigger] groups@[l]).0
                    == gs0[l].0 by {
                    if l != j {
                        assert(groups@[l] == gs0[l]);
                    }
                }
            }
        } else {
            proof {
                lemma_key_index(gv, key, j as int);
            }
            let ghost gs0 = groups@;
            groups.push((key, StageGroup::new(n, id)));
            match key {
                Some(k) => {
                    index.insert(k, len);
                },
                None => {
                    keyless = Some(len);
                },
            }
            n = n.wrapping_add(1);
            proof {
                assert(kviews(groups@) =~= gv.push(
                    (key, (build_groups(*ws, ids.take(i as int), next).1, seq![id])),
                ));
                assert forall|l: int| 0 <= l < gs0.len() implies (#[trigger] groups@[l]) == gs0[l] by {}
            }
        }
        i += 1;
    }
    proof {
        assert(ids.take(i as int) =~= ids);
    }
    (groups, n)
}

impl StageManagerState {
    /// The state for a workspace whose windows are `ws.windows` and whose focused window is
    /// `active_window`; at most `max_cast` strip groups are visible, the others hidden.
    pub fn from_workspace(ws: &WorkspaceInfo, active_window: Option<WindowId>, max_cast: usize) -> (r:
        Self)
        ensures
            r@ == from_workspace_spec(*ws, active_window, max_cast),
            r@.cast.len() <= max_cast,
            r@.cast + r@.hidden == placed_from_workspace(*ws, active_window).cast
                + placed_from_workspace(*ws, active_window).hidden,
    {
        let mut state = Self::new();
        proof {
            assert(state@.cast =~= seq![]);
            assert(state@.hidden =~= seq![]);
            assert(state@.new_cast_windows =~= seq![]);
            assert(state@.stage_dialog_parents =~= seq![]);
        }
        if ws.windows.len() == 0 {
            proof {
                assert(state@ == placed_from_workspace(*ws, active_window));
            }
            state.enforce_cast_limit(max_cast);
            return state;
        }
        let ghost ids = window_ids(*ws);
        let (groups, n) = build_groups_from_windows(ws, 0);
        state.next_group_id = n;
        let active_id = match active_window {
            Some(a) => a,
            None => ws.windows[0].id,
        };
        let ghost gsv = kviews(groups@);
        let ghost base = state@;
        let mut rest = groups;
        let ghost total = rest@.len();
        let _len = rest.len();
        assert(total <= usize::MAX);
        let mut k: usize = 0;
        while rest.len() > 0
            invariant
                gsv.len() == total,
                total <= usize::MAX,
                k + rest@.len() == total,
                kviews(rest@) == gsv.skip(k as int),
                state@ == place_groups(base, gsv.take(k as int), active_id),
            decreases rest@.len(),
        {
            let ghost before = rest@;
            let (key, group) = rest.remove(0);
            proof {
                assert((key, group@) == gsv[k as int]) by {
                    assert(kviews(before)[0]
                        == gsv.skip(k as int)[0]);
                }
                assert forall|j: int| 0 <= j < rest@.len() implies #[trigger] kviews(rest@)[j]
                    == gsv.skip(k + 1)[j] by {
                    assert(rest@[j] == before[j + 1]);
                    assert(kviews(before)[j + 1]
                        == gsv.skip(k as int)[j + 1]);
                }
                assert(kviews(rest@) =~= gsv.skip(
                    k + 1,
                ));
                assert(gsv.take(k + 1).drop_last() =~= gsv.take(k as int));
                assert(gsv.take(k + 1).last() == gsv[k as int]);
            }
            let mut group = group;
            if group.contains(active_id) {
                let gid = state.fresh_group_id();
                state.active_group = Some(StageGroup::new(gid, active_id));
                group.remove(active_id);
                if group.windows.len() > 0 {
                    proof {
                        lemma_gviews_push(state.cast_groups@, group);
                    }
                    state.cast_groups.push(group);
                }
            } else {
                proof {
                    lemma_gviews_push(state.cast_groups@, group);
                }
                state.cast_groups.push(group);
            }
            proof {
                assert(state@ == place_groups(base, gsv.take(k + 1), active_id));
            }
            k += 1;
        }
        proof {
            assert(gsv.take(k as int) =~= gsv);
        }
        let ghost m = state@;
        if state.active_group.is_none() && state.cast_groups.len() > 0 {
            let ghost cg = state.cast_groups@;
            proof {
                lemma_gviews_remove(cg, 0);
            }
            let group = state.cast_groups.remove(0);
            proof {
                assert(gviews(cg).remove(0) =~= gviews(cg).drop_first());
                assert(group@ == m.cast[0]);
            }
            if group.windows.len() > 0 {
                let first = group.windows[0];
                let gid = state.fresh_group_id();
                state.active_group = Some(StageGroup::new(gid, first));
                if group.windows.len() > 1 {
                    let mut g = group;
                    g.windows.remove(0);
                    proof {
                        assert(g.windows@ =~= m.cast[0].1.skip(1));
                        lemma_gviews_insert0(state.cast_groups@, g);
                    }
                    state.cast_groups.insert(0, g);
                }
            }
        }
        proof {
            assert(state@ == placed_from_workspace(*ws, active_window));
        }
        state.enforce_cast_limit(max_cast);
        proof {
            let p = placed_from_workspace(*ws, active_window);
            if p.cast.len() > max_cast {
                assert(p.cast.take(max_cast as int) + (p.cast.skip(max_cast as int) + p.hidden)
                    =~= p.cast + p.hidden);
            }
        }
        state
    }
}


// ---------------------------------------------------------------------------------------------
// Stage dialogs, parallel stage, z-order and the auto-use-as-main timer.

pub open spec fn is_dialog(dp: Seq<(WindowId, WindowId)>, w: WindowId) -> bool {
    exists|i: int| 0 <= i < dp.len() && (#[trigger] dp[i]).0 == w
}

pub open spec fn not_dialog(dp: Seq<(WindowId, WindowId)>) -> spec_fn(WindowId) -> bool {
    |w: WindowId| !is_dialog(dp, w)
}

pub open spec fn only_dialog(dp: Seq<(WindowId, WindowId)>) -> spec_fn(WindowId) -> bool {
    |w: WindowId| is_dialog(dp, w)
}

/// The stage windows that are not dialogs, in stage order.
pub open spec fn primary_windows(m: StageView) -> Seq<WindowId> {
    active_windows_of(m).filter(not_dialog(m.stage_dialog_parents))
}

/// The stage windows that are dialogs, in stage order.
pub open spec fn dialog_windows(m: StageView) -> Seq<WindowId> {
    active_windows_of(m).filter(only_dialog(m.stage_dialog_parents))
}

/// Two or more primary (non-dialog) windows share the main stage.
pub open spec fn parallel_active(m: StageView) -> bool {
    primary_windows(m).len() >= MAX_PARALLEL_STAGE
}

/// The last stage window (in stage order) among the first `n` whose managed parent is `parent`.
pub open spec fn last_child_of(
    m: StageView,
    ws: WorkspaceInfo,
    s: Seq<WindowId>,
    parent: WindowId,
) -> Option<WindowId>
    decreases s.len(),
{
    if s.len() == 0 {
        None
    } else if stage_parent_of_spec(m, ws, s.last()) == Some(parent) {
        Some(s.last())
    } else {
        last_child_of(m, ws, s.drop_last(), parent)
    }
}

/// Topmost modal overlay child of `parent` on the stage.
pub open spec fn overlay_for(m: StageView, ws: WorkspaceInfo, parent: WindowId) -> Option<WindowId> {
    match m.active {
        Some(g) => last_child_of(m, ws, g.1, parent),
        None => None,
    }
}

pub open spec fn resolve_activation(m: StageView, ws: WorkspaceInfo, id: WindowId) -> WindowId {
    match overlay_for(m, ws, id) {
        Some(o) => o,
        None => id,
    }
}

/// The order in which stage windows are raised: primary windows, then dialogs, then the
/// focused window (or its modal overlay) on top.
pub open spec fn raise_order(m: StageView, ws: WorkspaceInfo, active: Option<WindowId>) -> Seq<
    WindowId,
> {
    if m.active is None {
        seq![]
    } else {
        primary_windows(m) + dialog_windows(m) + match active {
            Some(a) => seq![resolve_activation(m, ws, a)],
            None => seq![],
        }
    }
}

/// The front window of the strip group at `idx` (visible, then hidden).
pub open spec fn strip_front(m: StageView, idx: int) -> Option<WindowId> {
    if 0 <= idx < strip(m).len() && strip(m)[idx].1.len() > 0 {
        Some(strip(m)[idx].1[0])
    } else {
        None
    }
}

pub open spec fn clear_timer(m: StageView) -> StageView {
    StageView { interaction_target: None, interaction_since: None, ..m }
}

pub open spec fn opt_usize(o: Option<int>) -> Option<usize> {
    match o {
        Some(i) => Some(i as usize),
        None => None,
    }
}

/// One tick of the auto-use-as-main dwell timer: the state after, the effects, and whether
/// anything changed. `now` and the recorded start are nanoseconds of the layout clock.
pub open spec fn tick_auto_use_as_main_spec(
    m: StageView,
    ws: WorkspaceInfo,
    auto_use_as_main: bool,
    delay_ms: u32,
    max_cast: usize,
    suppress: bool,
    focused: Option<WindowId>,
    now: u64,
) -> (StageView, Seq<StageAction>, bool) {
    let had = m.interaction_target is Some || m.interaction_since is Some;
    if !auto_use_as_main || suppress || m.stage_dialog_parents.len() > 0 || parallel_active(m) {
        (clear_timer(m), seq![], had)
    } else {
        let target = match focused {
            Some(w) => opt_usize(first_with(strip(m), w)),
            None => None,
        };
        let retarget = target != m.interaction_target;
        let m0 = if retarget {
            match target {
                Some(idx) => match strip_front(m, idx as int) {
                    Some(id) => StageView {
                        new_cast_windows: without(m.new_cast_windows, id),
                        ..m
                    },
                    None => m,
                },
                None => m,
            }
        } else {
            m
        };
        let m1 = if retarget {
            StageView {
                interaction_target: target,
                interaction_since: match target {
                    Some(_) => Some(now),
                    None => None,
                },
                ..m0
            }
        } else {
            m
        };
        match target {
            None => (m1, seq![], retarget),
            Some(idx) => match m1.interaction_since {
                None => (m1, seq![], retarget),
                Some(since) => if (if now >= since {
                    now - since
                } else {
                    0
                }) < delay_ms as int * 1_000_000 {
                    (m1, seq![], retarget)
                } else {
                    match strip_front(m1, idx as int) {
                        None => (m1, seq![], retarget),
                        Some(id) => if is_stage(m1, id) {
                            (clear_timer(m1), seq![], retarget)
                        } else {
                            let m2 = StageView {
                                new_cast_windows: without(m1.new_cast_windows, id),
                                ..m1
                            };
                            let r = set_stage_single_spec(m2, ws, id, max_cast);
                            (clear_timer(r.0), seq![StageAction::SaveActiveSizes] + r.1, true)
                        },
                    }
                },
            },
        }
    }
}

impl StageManagerState {
    /// The stage windows, split into primary windows and dialogs (both in stage order).
    fn split_stage_windows(&self) -> (r: (Vec<WindowId>, Vec<WindowId>))
        ensures
            r.0@ == primary_windows(self@),
            r.1@ == dialog_windows(self@),
    {
        let wins = self.active_windows();
        let ghost dp = self@.stage_dialog_parents;
        let mut prim: Vec<WindowId> = Vec::new();
        let mut dia: Vec<WindowId> = Vec::new();
        let mut i: usize = 0;
        while i < wins.len()
            invariant
                wins@ == active_windows_of(self@),
                dp == self@.stage_dialog_parents,
                i <= wins@.len(),
                prim@ == wins@.take(i as int).filter(not_dialog(dp)),
                dia@ == wins@.take(i as int).filter(only_dialog(dp)),
            decreases wins@.len() - i,
        {
            proof {
                lemma_filter_step_any(wins@, i as int, not_dialog(dp));
                lemma_filter_step_any(wins@, i as int, only_dialog(dp));
            }
            let w = wins[i];
            if self.is_stage_dialog(w) {
                dia.push(w);
            } else {
                prim.push(w);
            }
            i += 1;
        }
        proof {
            assert(wins@.take(i as int) =~= wins@);
        }
        (prim, dia)
    }

    /// The stage windows that are not dialogs, in stage order.
    pub fn primary_stage_windows(&self) -> (r: Vec<WindowId>)
        ensures
            r@ == primary_windows(self@),
    {
        self.split_stage_windows().0
    }

    /// Two or more primary (non-dialog) windows share the main stage.
    pub fn parallel_stage_active(&self) -> (r: bool)
        ensures
            r == parallel_active(self@),
    {
        self.primary_stage_windows().len() >= MAX_PARALLEL_STAGE
    }

    /// Topmost modal overlay child of `parent_id` on the stage, if any.
    pub fn stage_modal_overlay_for_parent(&self, ws: &WorkspaceInfo, parent_id: WindowId) -> (r:
        Option<WindowId>)
        ensures
            r == overlay_for(self@, *ws, parent_id),
    {
        let wins = self.active_windows();
        if self.active_group.is_none() {
            return None;
        }
        let ghost s = wins@;
        let mut i: usize = wins.len();
        proof {
            assert(s.take(s.len() as int) =~= s);
        }
        while i > 0
            invariant
                s == wins@,
                s == active_windows_of(self@),
                self@.active is Some,
                i <= s.len(),
                last_child_of(self@, *ws, s, parent_id) == last_child_of(
                    self@,
                    *ws,
                    s.take(i as int),
                    parent_id,
                ),
            decreases i,
        {
            let child = wins[i - 1];
            proof {
                assert(s.take(i as int).last() == child);
                assert(s.take(i as int).drop_last() =~= s.take(i - 1));
            }
            match self.stage_parent_of(ws, child) {
                Some(p) => {
                    if p == parent_id {
                        return Some(child);
                    }
                },
                None => {},
            }
            i -= 1;
        }
        proof {
            assert(s.take(0) =~= seq![]);
        }
        None
    }

    /// Redirect activation from a stage parent to its open modal overlay.
    pub fn resolve_activation_target(&self, ws: &WorkspaceInfo, id: WindowId) -> (r: WindowId)
        ensures
            r == resolve_activation(self@, *ws, id),
    {
        match self.stage_modal_overlay_for_parent(ws, id) {
            Some(o) => o,
            None => id,
        }
    }

    /// The order in which to raise the stage windows so that dialogs stay above their
    /// parents and the focused window (or its overlay) ends on top.
    pub fn raise_stage_z_order(&self, ws: &WorkspaceInfo, active: Option<WindowId>) -> (r: Vec<
        WindowId,
    >)
        ensures
            r@ == raise_order(self@, *ws, active),
    {
        if self.active_group.is_none() {
            return Vec::new();
        }
        let (mut prim, mut dia) = self.split_stage_windows();
        let ghost p0 = prim@;
        let ghost d0 = dia@;
        prim.append(&mut dia);
        if let Some(a) = active {
            let top = self.resolve_activation_target(ws, a);
            prim.push(top);
        }
        proof {
            assert(prim@ =~= raise_order(self@, *ws, active));
        }
        prim
    }

    /// One tick of the auto-use-as-main dwell timer (see [`tick_auto_use_as_main_spec`]).
    pub fn tick_auto_use_as_main(
        &mut self,
        ws: &WorkspaceInfo,
        auto_use_as_main: bool,
        delay_ms: u32,
        max_cast: usize,
        suppress: bool,
        focused: Option<WindowId>,
        now: u64,
        effects: &mut Vec<StageAction>,
    ) -> (r: bool)
        requires
            old(self)@.cast.len() + old(self)@.hidden.len() <= usize::MAX,
        ensures
            final(self)@ == tick_auto_use_as_main_spec(
                old(self)@,
                *ws,
                auto_use_as_main,
                delay_ms,
                max_cast,
                suppress,
                focused,
                now,
            ).0,
            final(effects)@ == old(effects)@ + tick_auto_use_as_main_spec(
                old(self)@,
                *ws,
                auto_use_as_main,
                delay_ms,
                max_cast,
                suppress,
                focused,
                now,
            ).1,
            r == tick_auto_use_as_main_spec(
                old(self)@,
                *ws,
                auto_use_as_main,
                delay_ms,
                max_cast,
                suppress,
                focused,
                now,
            ).2,
    {
        let ghost o = self@;
        let had_state = self.interaction_target.is_some() || self.interaction_since.is_some();
        if !auto_use_as_main || suppress || self.has_stage_modal_overlay()
            || self.parallel_stage_active() {
            self.clear_auto_use_as_main_timer();
            proof {
                assert(effects@ =~= old(effects)@ + seq![]);
            }
            return had_state;
        }
        let target = match focused {
            Some(w) => self.cast_index_for(w),
            None => None,
        };
        proof {
            if let Some(w) = focused {
                lemma_first_with_range(strip(o), w);
            }
            assert(target == match focused {
                Some(w) => opt_usize(first_with(strip(o), w)),
                None => None,
            });
        }
        let retarget = match (target, self.interaction_target) {
            (Some(a), Some(b)) => a != b,
            (None, None) => false,
            _ => true,
        };
        if retarget {
            if let Some(idx) = target {
                if let Some(id) = self.strip_front_at(idx) {
                    self.consume_promote_defer(id);
                }
            }
            self.interaction_target = target;
            self.interaction_since = match target {
                Some(_) => Some(now),
                None => None,
            };
        }
        let ghost m1 = self@;
        proof {
            let r = tick_auto_use_as_main_spec(
                o,
                *ws,
                auto_use_as_main,
                delay_ms,
                max_cast,
                suppress,
                focused,
                now,
            );
            assert(retarget == (target != o.interaction_target));
        }
        let idx = match target {
            Some(i) => i,
            None => {
                proof {
                    assert(effects@ =~= old(effects)@ + seq![]);
                }
                return retarget;
            },
        };
        let since = match self.interaction_since {
            Some(s) => s,
            None => {
                proof {
                    assert(effects@ =~= old(effects)@ + seq![]);
                }
                return retarget;
            },
        };
        let elapsed = now.saturating_sub(since);
        let delay_ns: u64 = delay_ms as u64 * 1_000_000;
        if elapsed < delay_ns {
            proof {
                assert(effects@ =~= old(effects)@ + seq![]);
            }
            return retarget;
        }
        let id = match self.strip_front_at(idx) {
            Some(w) => w,
            None => {
                proof {
                    assert(effects@ =~= old(effects)@ + seq![]);
                }
                return retarget;
            },
        };
        if self.is_stage_window(id) {
            self.clear_auto_use_as_main_timer();
            proof {
                assert(effects@ =~= old(effects)@ + seq![]);
            }
            return retarget;
        }
        effects.push(StageAction::SaveActiveSizes);
        self.consume_promote_defer(id);
        self.set_stage_single(ws, id, max_cast, effects);
        self.clear_auto_use_as_main_timer();
        proof {
            let r = tick_auto_use_as_main_spec(
                o,
                *ws,
                auto_use_as_main,
                delay_ms,
                max_cast,
                suppress,
                focused,
                now,
            );
            assert(self@ == r.0);
            assert(effects@ =~= old(effects)@ + r.1);
        }
        true
    }
}


// ---------------------------------------------------------------------------------------------
// Keyboard navigation along the strip.

/// Directional focus request from keyboard navigation.
#[derive(Debug, Clone, Copy, PartialEq, Eq, Structural)]
pub enum FocusDirection {
    Up,
    Down,
    Left,
    Right,
}

/// The front windows of the groups, skipping empty groups.
pub open spec fn fronts(gs: Seq<GroupView>) -> Seq<WindowId>
    decreases gs.len(),
{
    if gs.len() == 0 {
        seq![]
    } else {
        fronts(gs.drop_last()) + if gs.last().1.len() > 0 {
            seq![gs.last().1[0]]
        } else {
            seq![]
        }
    }
}

/// The step along the strip that a direction makes: along the strip's axis only.
pub open spec fn strip_step(pos: StackPosition, dir: FocusDirection) -> Option<int> {
    if pos.is_vertical_spec() {
        match dir {
            FocusDirection::Up => Some(-1),
            FocusDirection::Down => Some(1),
            _ => None,
        }
    } else {
        match dir {
            FocusDirection::Left => Some(-1),
            FocusDirection::Right => Some(1),
            _ => None,
        }
    }
}

/// The strip thumbnail next to the one holding `current`, in direction `dir`.
pub open spec fn strip_neighbor(
    m: StageView,
    pos: StackPosition,
    current: WindowId,
    dir: FocusDirection,
) -> Option<WindowId> {
    let ids = fronts(strip(m));
    let t = target_for(m, current);
    let idx = first_index(ids, t);
    if idx >= ids.len() {
        None
    } else {
        match strip_step(pos, dir) {
            Some(d) => if 0 <= idx + d < ids.len() {
                Some(ids[idx + d])
            } else {
                None
            },
            None => None,
        }
    }
}

proof fn lemma_fronts_step(gs: Seq<GroupView>, i: int)
    requires
        0 <= i < gs.len(),
    ensures
        fronts(gs.take(i + 1)) == fronts(gs.take(i)) + if gs[i].1.len() > 0 {
            seq![gs[i].1[0]]
        } else {
            seq![]
        },
{
    assert(gs.take(i + 1).drop_last() =~= gs.take(i));
}

proof fn lemma_fronts_append(a: Seq<GroupView>, b: Seq<GroupView>)
    ensures
        fronts(a + b) == fronts(a) + fronts(b),
    decreases b.len(),
{
    if b.len() == 0 {
        assert(a + b =~= a);
        assert(fronts(a) + fronts(b) =~= fronts(a));
    } else {
        lemma_fronts_append(a, b.drop_last());
        assert((a + b).drop_last() =~= a + b.drop_last());
        assert(fronts(a) + fronts(b) =~= fronts(a) + fronts(b.drop_last()) + if b.last().1.len()
            > 0 {
            seq![b.last().1[0]]
        } else {
            seq![]
        });
    }
}

fn push_fronts(out: &mut Vec<WindowId>, gs: &Vec<StageGroup>)
    ensures
        final(out)@ == old(out)@ + fronts(gviews(gs@)),
{
    let ghost v = gviews(gs@);
    let mut i: usize = 0;
    while i < gs.len()
        invariant
            v == gviews(gs@),
            i <= gs@.len(),
            out@ == old(out)@ + fronts(v.take(i as int)),
        decreases gs@.len() - i,
    {
        proof {
            lemma_fronts_step(v, i as int);
            assert(v[i as int] == gs@[i as int]@);
        }
        if gs[i].windows.len() > 0 {
            out.push(gs[i].windows[0]);
        }
        proof {
            assert(out@ =~= old(out)@ + fronts(v.take(i + 1)));
        }
        i += 1;
    }
    proof {
        assert(v.take(i as int) =~= v);
    }
}

impl StageManagerState {
    /// The front windows of the strip groups, visible then hidden.
    pub fn cast_stack_window_ids(&self) -> (r: Vec<WindowId>)
        ensures
            r@ == fronts(strip(self@)),
    {
        let mut out: Vec<WindowId> = Vec::new();
        push_fronts(&mut out, &self.cast_groups);
        push_fronts(&mut out, &self.hidden_groups);
        proof {
            lemma_fronts_append(self@.cast, self@.hidden);
            assert(out@ =~= fronts(strip(self@)));
        }
        out
    }

    /// The strip thumbnail next to the one holding `current` (see [`strip_neighbor`]).
    pub fn focus_cast_stack_neighbor(
        &self,
        pos: StackPosition,
        current: WindowId,
        direction: FocusDirection,
    ) -> (r: Option<WindowId>)
        ensures
            r == strip_neighbor(self@, pos, current, direction),
    {
        let target_id = self.target_for(current);
        let windows = self.cast_stack_window_ids();
        let mut idx: usize = 0;
        while idx < windows.len() && windows[idx] != target_id
            invariant
                idx <= windows@.len(),
                forall|j: int| 0 <= j < idx ==> windows@[j] != target_id,
            decreases windows@.len() - idx,
        {
            idx += 1;
        }
        proof {
            if idx < windows@.len() {
                lemma_first_index(windows@, target_id, idx as int);
            } else {
                lemma_first_index_absent(windows@, target_id);
            }
        }
        if idx >= windows.len() {
            return None;
        }
        let forward = match (pos.is_vertical(), direction) {
            (true, FocusDirection::Up) => false,
            (true, FocusDirection::Down) => true,
            (false, FocusDirection::Left) => false,
            (false, FocusDirection::Right) => true,
            _ => {
                return None;
            },
        };
        if forward {
            if idx + 1 < windows.len() {
                Some(windows[idx + 1])
            } else {
                None
            }
        } else {
            if idx >= 1 {
                Some(windows[idx - 1])
            } else {
                None
            }
        }
    }
}

} // verus!
