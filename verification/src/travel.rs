use vstd::prelude::*;

use crate::history::{path_for, HistoryView, NavigationEntry, NavigationMode};
use crate::item::{ItemState, ItemView, ProjectPath};
use crate::pane::{
    activate_spec, add_item_spec, contains_id, first_entry_index, has_open_entry, index_of,
    pane_wf, Event, Pane, PaneView,
};

verus! {

/// How one traversal request ended: something visibly changed; the relevant
/// stack ran out without effect; or a popped entry's item is gone but its
/// resource path is known, so the caller should reload it and then hand the
/// rebuilt item to `finish_reopen`.
#[derive(Clone, Copy, PartialEq, Eq, Structural, Debug)]
pub enum NavigateOutcome {
    Navigated,
    Exhausted,
    NeedsReopen { path: ProjectPath, entry: NavigationEntry },
}

/// The stack a traversal in `mode` consumes (empty for non-travel modes).
pub open spec fn stack_of(h: HistoryView, mode: NavigationMode) -> Seq<NavigationEntry> {
    match mode {
        NavigationMode::GoingBack => h.backward,
        NavigationMode::GoingForward => h.forward,
        NavigationMode::ReopeningClosedItem => h.closed,
        _ => Seq::<NavigationEntry>::empty(),
    }
}

pub open spec fn is_travel_mode(mode: NavigationMode) -> bool {
    mode is GoingBack || mode is GoingForward || mode is ReopeningClosedItem
}

/// The common, immediately-productive shape of a traversal: the top entry of
/// the relevant stack refers to an item that is still open and is not the
/// active one, so a single pop-and-activate settles it.
pub open spec fn travel_ready(p: PaneView, mode: NavigationMode) -> bool {
    &&& is_travel_mode(mode)
    &&& p.history.mode is Normal
    &&& stack_of(p.history, mode).len() > 0
    &&& contains_id(p.items, stack_of(p.history, mode).last().item_id)
    &&& index_of(p.items, stack_of(p.history, mode).last().item_id) != p.active
}

/// One productive traversal step: pop the top entry, activate its item under
/// the travel mode (so the entry being left lands on the opposite stack),
/// restore `Normal` mode, and apply the entry's payload if it carried one.
pub open spec fn travel_step(p: PaneView, mode: NavigationMode) -> PaneView {
    let popped = p.history.pop_spec(mode);
    let h1 = popped.0;
    let entry = popped.1.unwrap();
    let ix = index_of(p.items, entry.item_id);
    let p2 = activate_spec(
        PaneView { history: HistoryView { mode, ..h1 }, ..p },
        ix,
        false,
    );
    let p3 = PaneView {
        history: HistoryView { mode: NavigationMode::Normal, ..p2.history },
        ..p2
    };
    match entry.data {
        Some(d) => PaneView {
            items: p3.items.update(ix, ItemView { cursor: d, ..p3.items[ix] }),
            ..p3
        },
        None => p3,
    }
}

/// What `navigate_history` guarantees, relating the pane before and after to
/// the outcome.
pub open spec fn navigate_post(
    pre: PaneView,
    post: PaneView,
    mode: NavigationMode,
    r: NavigateOutcome,
) -> bool {
    &&& pane_wf(post)
    &&& !is_travel_mode(mode) ==> post == pre && r is Exhausted
    &&& stack_of(pre.history, mode).len() == 0 ==> post == pre && r is Exhausted
    &&& travel_ready(pre, mode) ==> post == travel_step(pre, mode) && r is Navigated
    &&& r is Exhausted ==> stack_of(post.history, mode).len() == 0
    &&& (r matches NavigateOutcome::NeedsReopen { path, entry } ==> !contains_id(
        post.items,
        entry.item_id,
    ) && path_for(post.history.paths, entry.item_id) == Some(path))
    &&& post.history.mode == pre.history.mode
    // A traversal never opens, closes or reorders items: every item keeps
    // its place, and at most its navigation state moves.
    &&& post.items.len() == pre.items.len()
    &&& forall|k: int|
        0 <= k < pre.items.len() ==> #[trigger] post.items[k] == (ItemView {
            cursor: post.items[k].cursor,
            ..pre.items[k]
        })
    &&& post.history.paths == pre.history.paths
}

/// The transition and result of `finish_reopen`: under the travel mode, open
/// the rebuilt item (reusing a matching open view of the resource), restore
/// `Normal` mode, apply the recorded payload, and report whether anything
/// visibly changed.
pub open spec fn finish_reopen_spec(
    p: PaneView,
    mode: NavigationMode,
    entry: NavigationEntry,
    entry_id: u64,
    build: ItemView,
) -> (PaneView, bool) {
    let prev_id = if 0 <= p.active < p.items.len() {
        Some(p.items[p.active].id)
    } else {
        None::<u64>
    };
    let p0 = PaneView { history: HistoryView { mode, ..p.history }, ..p };
    let opened = open_target_id(p0, entry_id, build);
    let p1 = open_item_spec(p0, entry_id, build);
    let p2 = PaneView { history: HistoryView { mode: NavigationMode::Normal, ..p1.history }, ..p1 };
    let nav0 = Some(opened) != prev_id;
    match entry.data {
        Some(d) => (
            PaneView {
                items: p2.items.update(
                    p2.active,
                    ItemView { cursor: d, ..p2.items[p2.active] },
                ),
                ..p2
            },
            nav0 || p2.items[p2.active].cursor != d,
        ),
        None => (p2, nav0),
    }
}

/// The state after `open_item`.
pub open spec fn open_item_spec(p: PaneView, entry_id: u64, build: ItemView) -> PaneView {
    if has_open_entry(p.items, entry_id) {
        activate_spec(p, first_entry_index(p.items, entry_id), true)
    } else {
        add_item_spec(p, build)
    }
}

/// The identity of the item that shows `entry_id` after `open_item`.
pub open spec fn open_target_id(p: PaneView, entry_id: u64, build: ItemView) -> u64 {
    if has_open_entry(p.items, entry_id) {
        p.items[first_entry_index(p.items, entry_id)].id
    } else {
        build.id
    }
}

/// The round-trip law: going back and then forward from the same point,
/// with no intervening `Normal`-mode navigation, restores the original
/// active item — identity, position and navigation state.  It holds
/// whenever a back step is immediately productive: the top backward entry
/// names an item still open that is not the active one.
pub proof fn lemma_back_then_forward_restores(p: PaneView)
    requires
        pane_wf(p),
        travel_ready(p, NavigationMode::GoingBack),
    ensures
        travel_ready(travel_step(p, NavigationMode::GoingBack), NavigationMode::GoingForward),
        travel_step(
            travel_step(p, NavigationMode::GoingBack),
            NavigationMode::GoingForward,
        ).active == p.active,
        travel_step(travel_step(p, NavigationMode::GoingBack), NavigationMode::GoingForward).items[
            p.active
        ] == p.items[p.active],
{
    let back_entry = p.history.backward.last();
    let ix = index_of(p.items, back_entry.item_id);
    let prev_item = p.items[p.active];
    let q = travel_step(p, NavigationMode::GoingBack);
    // Going back leaves the departed position on the forward stack.
    assert(0 <= ix < p.items.len() && p.items[ix].id == back_entry.item_id) by {
        let w = choose|w: int| 0 <= w < p.items.len() && p.items[w].id == back_entry.item_id;
    }
    assert(q.items.len() == p.items.len());
    assert(forall|k: int|
        0 <= k < p.items.len() && k != ix ==> q.items[k] == p.items[k]);
    assert(q.items[ix].id == p.items[ix].id);
    assert(q.active == ix);
    let dentry = crate::pane::deactivation_entry(prev_item);
    assert(q.history.forward == crate::history::bounded_push(p.history.forward, dentry));
    assert(q.history.forward.len() > 0 && q.history.forward.last() == dentry) by {
        if p.history.forward.len() >= crate::history::MAX_NAVIGATION_HISTORY_LEN {
            assert(q.history.forward == p.history.forward.subrange(
                1,
                p.history.forward.len() as int,
            ).push(dentry));
        } else {
            assert(q.history.forward == p.history.forward.push(dentry));
        }
    }
    assert(contains_id(q.items, dentry.item_id)) by {
        assert(q.items[p.active].id == prev_item.id);
    }
    assert(forall|i: int, j: int|
        0 <= i < j < q.items.len() ==> q.items[i].id != q.items[j].id);
    crate::pane::lemma_index_of_unique(q.items, dentry.item_id, p.active);
    assert(index_of(q.items, dentry.item_id) == p.active);
    assert(travel_ready(q, NavigationMode::GoingForward));
    // Going forward pops that entry and lands back on the original item.
    let r = travel_step(q, NavigationMode::GoingForward);
    assert(r.active == p.active);
    assert(r.items[p.active] == ItemView {
        cursor: prev_item.cursor,
        ..q.items[p.active]
    });
    assert(q.items[p.active] == p.items[p.active]);
    assert(r.items[p.active] == p.items[p.active]);
}

impl Pane {
    /// Travels through the history in `mode`: entries are popped until one
    /// produces a visible change.  An entry whose item is still open is
    /// activated (under the travel mode, so the position being left becomes
    /// redo history) and its payload applied; if that changed nothing — the
    /// history referenced the state already showing — the next entry is
    /// tried.  An entry whose item is gone ends the loop with its remembered
    /// resource path, for the caller to reload; entries of gone items
    /// without a remembered path are dropped.  An empty stack ends the
    /// traversal with no effect.
    #[verifier::loop_isolation(false)]
    #[verifier::rlimit(100)]
    pub fn navigate_history(&mut self, mode: NavigationMode) -> (r: (
        NavigateOutcome,
        Vec<Event>,
    ))
        requires
            pane_wf(old(self)@),
            old(self)@.history.mode is Normal,
        ensures
            navigate_post(old(self)@, final(self)@, mode, r.0),
    {
        let mut events: Vec<Event> = Vec::new();
        loop
            invariant
                pane_wf(self@),
                self@.history.mode is Normal,
                travel_ready(old(self)@, mode) ==> self@ == old(self)@,
                !is_travel_mode(mode) ==> self@ == old(self)@,
                stack_of(old(self)@.history, mode).len() == 0 ==> self@ == old(self)@,
                self@.items.len() == old(self)@.items.len(),
                forall|k: int|
                    0 <= k < old(self)@.items.len() ==> #[trigger] self@.items[k] == (ItemView {
                        cursor: self@.items[k].cursor,
                        ..old(self)@.items[k]
                    }),
                self@.history.paths == old(self)@.history.paths,
            decreases stack_of(self@.history, mode).len(),
        {
            let ghost iter_pre = self@;
            let entry = match self.nav_history.pop(mode) {
                Some(entry) => entry,
                None => {
                    return (NavigateOutcome::Exhausted, events);
                },
            };
            if let Some(index) = self.index_of_id(entry.item_id) {
                proof {
                    crate::pane::lemma_index_of_unique(iter_pre.items, entry.item_id, index as int);
                }
                let prev_active_item_index = self.active_item_index;
                self.nav_history.set_mode(mode);
                let mut activation_events = self.activate_item(index, true, true, false);
                events.append(&mut activation_events);
                self.nav_history.set_mode(NavigationMode::Normal);
                let mut navigated = prev_active_item_index != self.active_item_index;
                if let Some(data) = entry.data {
                    navigated = self.apply_navigation_data(index, data) || navigated;
                }
                if navigated {
                    proof {
                        if travel_ready(old(self)@, mode) {
                            assert(self@ =~= travel_step(old(self)@, mode));
                        }
                    }
                    return (NavigateOutcome::Navigated, events);
                }
            } else {
                match self.nav_history.path_for_item(entry.item_id) {
                    Some(path) => {
                        return (NavigateOutcome::NeedsReopen { path, entry }, events);
                    },
                    None => {},
                }
            }
        }
    }

    /// Goes back one visible step.
    pub fn go_back(&mut self) -> (r: (NavigateOutcome, Vec<Event>))
        requires
            pane_wf(old(self)@),
            old(self)@.history.mode is Normal,
        ensures
            navigate_post(old(self)@, final(self)@, NavigationMode::GoingBack, r.0),
    {
        self.navigate_history(NavigationMode::GoingBack)
    }

    /// Goes forward one visible step.
    pub fn go_forward(&mut self) -> (r: (NavigateOutcome, Vec<Event>))
        requires
            pane_wf(old(self)@),
            old(self)@.history.mode is Normal,
        ensures
            navigate_post(old(self)@, final(self)@, NavigationMode::GoingForward, r.0),
    {
        self.navigate_history(NavigationMode::GoingForward)
    }

    /// Reopens the most recently closed item that can still produce a
    /// visible change.
    pub fn reopen_closed_item(&mut self) -> (r: (NavigateOutcome, Vec<Event>))
        requires
            pane_wf(old(self)@),
            old(self)@.history.mode is Normal,
        ensures
            navigate_post(old(self)@, final(self)@, NavigationMode::ReopeningClosedItem, r.0),
    {
        self.navigate_history(NavigationMode::ReopeningClosedItem)
    }

    /// Completes a traversal whose entry had to be reloaded from disk: under
    /// the travel mode, opens the rebuilt item (reusing an open view of the
    /// same resource when there is one), restores `Normal` mode, reapplies
    /// the recorded payload, and reports whether anything visibly changed.
    /// When nothing changed, the caller should retry the traversal one level
    /// deeper.
    #[verifier::rlimit(100)]
    pub fn finish_reopen(
        &mut self,
        mode: NavigationMode,
        entry: NavigationEntry,
        entry_id: u64,
        build: ItemState,
    ) -> (r: (bool, Vec<Event>))
        requires
            pane_wf(old(self)@),
        ensures
            pane_wf(final(self)@),
            (final(self)@, r.0) == finish_reopen_spec(
                old(self)@,
                mode,
                entry,
                entry_id,
                build@,
            ),
    {
        let ghost pre = self@;
        let prev_active_item_id = match self.active_item() {
            Some(it) => Some(it.id),
            None => None,
        };
        self.nav_history.set_mode(mode);
        let (opened_id, events) = self.open_item(entry_id, true, build);
        self.nav_history.set_mode(NavigationMode::Normal);
        let mut navigated = match prev_active_item_id {
            Some(prev) => opened_id != prev,
            None => true,
        };
        if let Some(data) = entry.data {
            let ix = self.active_item_index;
            navigated = self.apply_navigation_data(ix, data) || navigated;
        }
        proof {
            assert(self@ =~= finish_reopen_spec(pre, mode, entry, entry_id, build@).0);
        }
        (navigated, events)
    }
}

} // verus!
