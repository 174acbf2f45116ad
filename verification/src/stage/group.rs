//! Window groups and the list operations the stage manager performs on them.

use vstd::prelude::*;

verus! {

broadcast use vstd::seq_lib::group_filter_ensures;

/// Identifier of a window managed by the layout.
pub type WindowId = u64;

/// The predicate "is not `id`".
pub open spec fn ne(id: u64) -> spec_fn(u64) -> bool {
    |w: u64| w != id
}

/// `s` with every occurrence of `id` taken out.
pub open spec fn without(s: Seq<u64>, id: u64) -> Seq<u64> {
    s.filter(ne(id))
}

/// The position of the first occurrence of `id` in `s` (`s.len()` when there is none).
pub open spec fn first_index(s: Seq<u64>, id: u64) -> int
    decreases s.len(),
{
    if s.len() == 0 {
        0
    } else if s[0] == id {
        0
    } else {
        1 + first_index(s.drop_first(), id)
    }
}

pub proof fn lemma_first_index(s: Seq<u64>, id: u64, i: int)
    requires
        0 <= i < s.len(),
        s[i] == id,
        forall|j: int| 0 <= j < i ==> s[j] != id,
    ensures
        first_index(s, id) == i,
    decreases i,
{
    if i > 0 {
        lemma_first_index(s.drop_first(), id, i - 1);
    }
}

pub proof fn lemma_first_index_absent(s: Seq<u64>, id: u64)
    requires
        forall|j: int| 0 <= j < s.len() ==> s[j] != id,
    ensures
        first_index(s, id) == s.len(),
    decreases s.len(),
{
    if s.len() > 0 {
        lemma_first_index_absent(s.drop_first(), id);
    }
}

/// `s` with the first occurrence of `id` moved to the front, when `id` occurs in `s`.
pub open spec fn to_front(s: Seq<u64>, id: u64) -> Seq<u64> {
    if s.contains(id) {
        seq![id] + s.remove(first_index(s, id))
    } else {
        s
    }
}

/// A group of windows sharing a cast stack slot (typically same app).
#[derive(Debug)]
pub struct StageGroup {
    pub id: u64,
    /// Windows in this group; front (`[0]`) is shown as the cast thumbnail.
    pub windows: Vec<WindowId>,
}

/// The abstract value of a group: its identifier and its windows in order.
pub type GroupView = (u64, Seq<u64>);

impl View for StageGroup {
    type V = GroupView;

    open spec fn view(&self) -> GroupView {
        (self.id, self.windows@)
    }
}

/// The abstract value of a list of groups.
pub open spec fn gviews(gs: Seq<StageGroup>) -> Seq<GroupView> {
    gs.map_values(|g: StageGroup| g@)
}

proof fn lemma_filter_step(s: Seq<u64>, i: int, p: spec_fn(u64) -> bool)
    requires
        0 <= i < s.len(),
    ensures
        s.take(i + 1).filter(p) == (if p(s[i]) {
            s.take(i).filter(p).push(s[i])
        } else {
            s.take(i).filter(p)
        }),
{
    reveal(Seq::filter);
    assert(s.take(i + 1).drop_last() =~= s.take(i));
}

impl StageGroup {
    /// A group holding the single window `window`.
    pub fn new(group_id: u64, window: WindowId) -> (r: Self)
        ensures
            r@ == (group_id, seq![window]),
    {
        let mut windows = Vec::new();
        windows.push(window);
        StageGroup { id: group_id, windows }
    }

    pub fn contains(&self, id: WindowId) -> (r: bool)
        ensures
            r == self.windows@.contains(id),
    {
        let mut i: usize = 0;
        while i < self.windows.len()
            invariant
                i <= self.windows@.len(),
                forall|j: int| 0 <= j < i ==> self.windows@[j] != id,
            decreases self.windows@.len() - i,
        {
            if self.windows[i] == id {
                return true;
            }
            i += 1;
        }
        false
    }

    /// Takes every occurrence of `id` out of the group; tells whether there was any.
    pub fn remove(&mut self, id: WindowId) -> (r: bool)
        ensures
            final(self)@ == (old(self)@.0, without(old(self)@.1, id)),
            r == old(self)@.1.contains(id),
    {
        let ghost orig = self.windows@;
        let mut kept: Vec<WindowId> = Vec::new();
        let mut i: usize = 0;
        let mut found = false;
        while i < self.windows.len()
            invariant
                orig == self.windows@,
                i <= orig.len(),
                kept@ == orig.take(i as int).filter(ne(id)),
                found == (exists|k: int| 0 <= k < i && orig[k] == id),
            decreases orig.len() - i,
        {
            proof {
                lemma_filter_step(orig, i as int, ne(id));
                assert(orig.take(i + 1).drop_last() =~= orig.take(i as int));
            }
            let w = self.windows[i];
            if w != id {
                kept.push(w);
            } else {
                found = true;
            }
            i += 1;
        }
        proof {
            assert(orig.take(orig.len() as int) =~= orig);
        }
        self.windows = kept;
        found
    }

    /// Moves `id` to the front of the group, when it is in the group.
    pub fn bring_to_front(&mut self, id: WindowId)
        ensures
            final(self)@ == (old(self)@.0, to_front(old(self)@.1, id)),
    {
        let mut i: usize = 0;
        while i < self.windows.len()
            invariant
                i <= self.windows@.len(),
                forall|j: int| 0 <= j < i ==> self.windows@[j] != id,
                self.windows@ == old(self).windows@,
                self.id == old(self).id,
            decreases self.windows@.len() - i,
        {
            if self.windows[i] == id {
                proof {
                    assert(self.windows@.contains(id));
                    lemma_first_index(self.windows@, id, i as int);
                }
                if i != 0 {
                    let win = self.windows.remove(i);
                    self.windows.insert(0, win);
                    proof {
                        assert(self.windows@ =~= seq![id] + old(self).windows@.remove(i as int));
                    }
                } else {
                    proof {
                        assert(old(self).windows@ =~= seq![id] + old(self).windows@.remove(0));
                    }
                }
                return;
            }
            i += 1;
        }
        proof {
            assert(!self.windows@.contains(id));
        }
    }
}

} // verus!
