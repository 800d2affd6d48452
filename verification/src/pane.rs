use vstd::prelude::*;

use crate::history::{HistoryView, NavHistory, NavigationEntry, NavigationMode};
use crate::item::{ItemState, ItemView};

verus! {

/// A direction in which the containing workspace may split this pane.
#[derive(Clone, Copy, PartialEq, Eq, Structural, Debug)]
pub enum SplitDirection {
    Up,
    Down,
    Left,
    Right,
}

/// Signals the pane hands to its container.  `Remove` is the "empty pane"
/// signal: the last item is gone and the container may discard the pane.
#[derive(Clone, Copy, PartialEq, Eq, Structural, Debug)]
pub enum Event {
    Activate,
    ActivateItem { local: bool },
    Remove,
    RemoveItem,
    Split(SplitDirection),
    ChangeItemTitle,
}

/// Mathematical abstraction of a `Pane`.
#[verifier::ext_equal]
pub ghost struct PaneView {
    pub items: Seq<ItemView>,
    pub active: int,
    pub is_active: bool,
    pub autoscroll: bool,
    pub history: HistoryView,
}

/// Whether some open item carries identity `id`.
pub open spec fn contains_id(items: Seq<ItemView>, id: u64) -> bool {
    exists|i: int| 0 <= i < items.len() && items[i].id == id
}

/// The position of the item with identity `id` (meaningful when present;
/// unique when identities are unique).
pub open spec fn index_of(items: Seq<ItemView>, id: u64) -> int {
    choose|i: int| 0 <= i < items.len() && items[i].id == id
}

/// No two open items share an identity.
pub open spec fn ids_unique(items: Seq<ItemView>) -> bool {
    forall|i: int, j: int| 0 <= i < j < items.len() ==> items[i].id != items[j].id
}

/// Item identities are unique, and the active index is in range whenever the
/// pane is non-empty.
pub open spec fn pane_wf(p: PaneView) -> bool {
    &&& ids_unique(p.items)
    &&& p.items.len() > 0 ==> 0 <= p.active < p.items.len()
    &&& p.history.wf()
}

/// The navigation entry an item records when it is deactivated: its identity
/// and its current navigation state.
pub open spec fn deactivation_entry(it: ItemView) -> NavigationEntry {
    NavigationEntry { item_id: it.id, data: Some(it.cursor) }
}

/// The item order and indices after the "recently used" reorder of
/// `activate_item` with `move_after_current_active` set: the item at `index`
/// is taken out and reinserted immediately after the current active item.
/// Returns the reordered items, the index the previously active item ends up
/// at, and the index to activate.
pub open spec fn mru_reorder(items: Seq<ItemView>, active: int, index: int) -> (
    Seq<ItemView>,
    int,
    int,
) {
    let moved = items[index];
    let removed = items.remove(index);
    if active < index {
        (removed.insert(active + 1, moved), active, active + 1)
    } else {
        (removed.insert(active, moved), active - 1, active)
    }
}

/// The full transition of `activate_item(index, _, _, move_after)` on an
/// in-range index: optionally reorder, swap the active index, and let the
/// previously active item record a deactivation entry when the activation
/// represents a change (or unconditionally in a travel mode).
pub open spec fn activate_spec(p: PaneView, index: int, move_after: bool) -> PaneView {
    let (items1, prev, target) = if move_after && p.active != index && 0 <= p.active
        < p.items.len() {
        mru_reorder(p.items, p.active, index)
    } else {
        (p.items, p.active, index)
    };
    let fires = prev != target || p.history.mode is GoingBack || p.history.mode is GoingForward;
    let history1 = if fires && 0 <= prev < items1.len() {
        p.history.push_spec(deactivation_entry(items1[prev]))
    } else {
        p.history
    };
    PaneView { items: items1, active: target, autoscroll: true, history: history1, ..p }
}

/// Whether `activate_item(index, ..)` fires the deactivation/activation pair.
pub open spec fn activate_fires(p: PaneView, index: int, move_after: bool) -> bool {
    let (items1, prev, target) = if move_after && p.active != index && 0 <= p.active
        < p.items.len() {
        mru_reorder(p.items, p.active, index)
    } else {
        (p.items, p.active, index)
    };
    prev != target || p.history.mode is GoingBack || p.history.mode is GoingForward
}

/// The signals `activate_item` emits.
pub open spec fn activate_events(p: PaneView, index: int, activate_pane: bool, move_after: bool)
    -> Seq<Event> {
    let changed = if activate_fires(p, index, move_after) {
        seq![Event::ActivateItem { local: activate_pane }]
    } else {
        Seq::<Event>::empty()
    };
    if activate_pane {
        changed.push(Event::Activate)
    } else {
        changed
    }
}

/// The state after inserting a genuinely new item right after the current
/// active item (or at the end when no item is active), together with the
/// index it was inserted at.  Before activation, an out-of-range sentinel is
/// put into the active index so the subsequent activation registers as a
/// change.
pub open spec fn add_item_inserted(p: PaneView, item: ItemView) -> (PaneView, int) {
    if 0 <= p.active < p.items.len() {
        (PaneView { items: p.items.insert(p.active + 1, item), ..p }, p.active + 1)
    } else {
        (
            PaneView {
                items: p.items.insert(p.items.len() as int, item),
                active: usize::MAX as int,
                ..p
            },
            p.items.len() as int,
        )
    }
}

/// The full transition of `add_item`: activate in place when the identity is
/// already open (moving it after the active item), otherwise insert after
/// the active item and activate.
pub open spec fn add_item_spec(p: PaneView, item: ItemView) -> PaneView {
    if contains_id(p.items, item.id) {
        activate_spec(p, index_of(p.items, item.id), true)
    } else {
        let (q, ix) = add_item_inserted(p, item);
        activate_spec(q, ix, false)
    }
}

/// The signals `add_item` emits.
pub open spec fn add_item_events(p: PaneView, item: ItemView, activate_pane: bool) -> Seq<Event> {
    if contains_id(p.items, item.id) {
        activate_events(p, index_of(p.items, item.id), activate_pane, true)
    } else {
        let (q, ix) = add_item_inserted(p, item);
        activate_events(q, ix, activate_pane, false)
    }
}

/// Whether an item is the open view of exactly the resource `entry_id`, as
/// `open_item` reuses it: it has a resource path and `entry_id` as its one
/// backing resource.
pub open spec fn opens_entry(it: ItemView, entry_id: u64) -> bool {
    it.path is Some && it.entry_ids =~= seq![entry_id]
}

/// Whether some open item is the view of exactly the resource `entry_id`.
pub open spec fn has_open_entry(items: Seq<ItemView>, entry_id: u64) -> bool {
    exists|i: int| 0 <= i < items.len() && opens_entry(items[i], entry_id)
}

/// The first position whose item is the view of exactly `entry_id`
/// (meaningful when one exists, and then unique).
pub open spec fn first_entry_index(items: Seq<ItemView>, entry_id: u64) -> int {
    choose|i: int|
        0 <= i < items.len() && opens_entry(items[i], entry_id) && (forall|k: int|
            0 <= k < i ==> !opens_entry(items[k], entry_id))
}

/// The number of "empty pane" signals in a batch of events.
pub open spec fn count_removes(events: Seq<Event>) -> int
    decreases events.len(),
{
    if events.len() == 0 {
        0
    } else {
        count_removes(events.drop_last()) + if events.last() is Remove {
            1int
        } else {
            0int
        }
    }
}

/// The transition of taking the item with identity `item_id` out of the pane
/// during a close: shift activation off it, remove it, record a
/// `ClosingItem` history entry so it can be reopened, and remember or forget
/// its resource path.
pub open spec fn remove_item_spec(p: PaneView, item_id: u64) -> PaneView {
    if !contains_id(p.items, item_id) {
        p
    } else {
        let ix = index_of(p.items, item_id);
        let p1 = if ix == p.active {
            if ix > 0 {
                activate_spec(p, ix - 1, false)
            } else if ix + 1 < p.items.len() {
                activate_spec(p, ix + 1, false)
            } else {
                p
            }
        } else {
            p
        };
        let removed_item = p1.items[ix];
        let items2 = p1.items.remove(ix);
        let active2 = if ix < p1.active {
            p1.active - 1
        } else {
            p1.active
        };
        let h2 = if items2.len() == 0 {
            p1.history.push_spec(deactivation_entry(removed_item))
        } else {
            p1.history
        };
        let h3 = (HistoryView { mode: NavigationMode::ClosingItem, ..h2 }).push_spec(
            deactivation_entry(removed_item),
        );
        let h4 = HistoryView { mode: NavigationMode::Normal, ..h3 };
        let h5 = match removed_item.path {
            Some(path) => HistoryView { paths: h4.paths.push((item_id, path)), ..h4 },
            None => HistoryView {
                paths: crate::history::drop_key(h4.paths, item_id),
                ..h4
            },
        };
        PaneView { items: items2, active: active2, history: h5, ..p1 }
    }
}

/// An ordered collection of items with one active item and a navigation
/// history.  Order is tab order.
#[derive(Debug)]
pub struct Pane {
    pub items: Vec<ItemState>,
    pub is_active: bool,
    pub active_item_index: usize,
    pub autoscroll: bool,
    pub nav_history: NavHistory,
}

impl View for Pane {
    type V = PaneView;

    open spec fn view(&self) -> PaneView {
        PaneView {
            items: self.items@.map_values(|it: ItemState| it@),
            active: self.active_item_index as int,
            is_active: self.is_active,
            autoscroll: self.autoscroll,
            history: self.nav_history@,
        }
    }
}

/// A handle an item holds so it can record navigation entries against the
/// pane's history without owning it: all mutation routes through the pane's
/// `NavHistory` passed in explicitly.
pub struct ItemNavHistory {
    pub item_id: u64,
}

impl ItemNavHistory {
    /// Records a navigation of this handle's item.
    pub fn push(&self, history: &mut NavHistory, data: Option<u64>)
        requires
            old(history)@.wf(),
        ensures
            final(history)@ == old(history)@.push_spec(
                NavigationEntry { item_id: self.item_id, data },
            ),
            final(history)@.wf(),
    {
        history.push(data, self.item_id);
    }

    /// Pops the most recent backward entry.
    pub fn pop_backward(&self, history: &mut NavHistory) -> (entry: Option<NavigationEntry>)
        ensures
            (final(history)@, entry) == old(history)@.pop_spec(NavigationMode::GoingBack),
    {
        history.pop(NavigationMode::GoingBack)
    }

    /// Pops the most recent forward entry.
    pub fn pop_forward(&self, history: &mut NavHistory) -> (entry: Option<NavigationEntry>)
        ensures
            (final(history)@, entry) == old(history)@.pop_spec(NavigationMode::GoingForward),
    {
        history.pop(NavigationMode::GoingForward)
    }
}

impl Pane {
    /// A fresh pane: no items, `Normal`-mode history.
    pub fn new() -> (p: Pane)
        ensures
            p@.items.len() == 0,
            p@.active == 0,
            p@.is_active,
            !p@.autoscroll,
            p@.history.mode == NavigationMode::Normal,
            p@.history.backward.len() == 0,
            p@.history.forward.len() == 0,
            p@.history.closed.len() == 0,
            p@.history.paths.len() == 0,
            pane_wf(p@),
    {
        Pane {
            items: Vec::new(),
            is_active: true,
            active_item_index: 0,
            autoscroll: false,
            nav_history: NavHistory::new(),
        }
    }

    pub fn set_active(&mut self, is_active: bool)
        ensures
            final(self)@ == (PaneView { is_active, ..old(self)@ }),
    {
        self.is_active = is_active;
    }

    /// The signal asking the workspace to make this the active pane.
    pub fn activate(&self) -> (e: Event)
        ensures
            e == Event::Activate,
    {
        Event::Activate
    }

    /// The signal asking the workspace to split this pane in `direction`.
    pub fn split(&self, direction: SplitDirection) -> (e: Event)
        ensures
            e == Event::Split(direction),
    {
        Event::Split(direction)
    }

    /// Consumes the one-shot autoscroll flag that every activation sets; the
    /// rendering layer scrolls the tab strip to the active tab when it was
    /// set.
    pub fn take_autoscroll(&mut self) -> (was_set: bool)
        ensures
            was_set == old(self)@.autoscroll,
            final(self)@ == (PaneView { autoscroll: false, ..old(self)@ }),
    {
        let was_set = self.autoscroll;
        self.autoscroll = false;
        was_set
    }

    /// A history handle for one of this pane's items.
    pub fn nav_history_for_item(&self, item: &ItemState) -> (h: ItemNavHistory)
        ensures
            h.item_id == item@.id,
    {
        ItemNavHistory { item_id: item.id }
    }

    pub fn disable_history(&mut self)
        ensures
            final(self)@ == (PaneView {
                history: HistoryView { mode: NavigationMode::Disabled, ..old(self)@.history },
                ..old(self)@
            }),
    {
        self.nav_history.disable();
    }

    pub fn enable_history(&mut self)
        ensures
            final(self)@ == (PaneView {
                history: HistoryView { mode: NavigationMode::Normal, ..old(self)@.history },
                ..old(self)@
            }),
    {
        self.nav_history.enable();
    }

    pub fn can_navigate_backward(&self) -> (r: bool)
        ensures
            r == (self@.history.backward.len() > 0),
    {
        self.nav_history.can_navigate_backward()
    }

    pub fn can_navigate_forward(&self) -> (r: bool)
        ensures
            r == (self@.history.forward.len() > 0),
    {
        self.nav_history.can_navigate_forward()
    }

    /// Consumes the coalesced history-changed notification on behalf of the
    /// toolbar and other history-dependent affordances.
    pub fn history_updated(&mut self) -> (was_pending: bool)
        ensures
            was_pending == old(self)@.history.update_pending,
            final(self)@ == (PaneView {
                history: HistoryView { update_pending: false, ..old(self)@.history },
                ..old(self)@
            }),
    {
        self.nav_history.take_update()
    }

    /// The open items, in tab order.
    pub fn items(&self) -> (r: &Vec<ItemState>)
        ensures
            r@.map_values(|it: ItemState| it@) == self@.items,
    {
        &self.items
    }

    /// The index of the item with `item`'s identity, if present.
    pub fn index_for_item(&self, item: &ItemState) -> (r: Option<usize>)
        ensures
            match r {
                Some(ix) => 0 <= ix < self@.items.len() && self@.items[ix as int].id == item@.id
                    && forall|k: int| 0 <= k < ix ==> self@.items[k].id != item@.id,
                None => !contains_id(self@.items, item@.id),
            },
    {
        self.index_of_id(item.id)
    }

    /// The index of the item with identity `id`, if present.
    pub fn index_of_id(&self, id: u64) -> (r: Option<usize>)
        ensures
            match r {
                Some(ix) => 0 <= ix < self@.items.len() && self@.items[ix as int].id == id
                    && forall|k: int| 0 <= k < ix ==> self@.items[k].id != id,
                None => !contains_id(self@.items, id),
            },
    {
        let mut i: usize = 0;
        while i < self.items.len()
            invariant
                i <= self.items@.len(),
                self@.items.len() == self.items@.len(),
                forall|k: int| 0 <= k < i ==> self@.items[k].id != id,
            decreases self.items@.len() - i,
        {
            if self.items[i].id == id {
                return Some(i);
            }
            i = i + 1;
        }
        None
    }

    /// A copy of the active item, when the pane is non-empty.
    pub fn active_item(&self) -> (r: Option<ItemState>)
        ensures
            match r {
                Some(it) => 0 <= self@.active < self@.items.len() && it@ == self@.items[self@.active],
                None => !(0 <= self@.active < self@.items.len()),
            },
    {
        if self.active_item_index < self.items.len() {
            Some(self.items[self.active_item_index].clone())
        } else {
            None
        }
    }

    /// A copy of the singleton item backed exactly by `entry_id`, if any.
    pub fn item_for_entry(&self, entry_id: u64) -> (r: Option<ItemState>)
        ensures
            match r {
                Some(it) => exists|i: int|
                    0 <= i < self@.items.len() && it@ == self@.items[i] && it@.singleton
                        && it@.entry_ids =~= seq![entry_id],
                None => forall|i: int|
                    0 <= i < self@.items.len() ==> !(self@.items[i].singleton
                        && self@.items[i].entry_ids =~= seq![entry_id]),
            },
    {
        let mut i: usize = 0;
        while i < self.items.len()
            invariant
                i <= self.items@.len(),
                self@.items.len() == self.items@.len(),
                forall|k: int|
                    0 <= k < i ==> !(self@.items[k].singleton && self@.items[k].entry_ids =~= seq![
                        entry_id,
                    ]),
            decreases self.items@.len() - i,
        {
            let it = &self.items[i];
            if it.singleton && it.entry_ids.len() == 1 && it.entry_ids[0] == entry_id {
                proof {
                    assert(self@.items[i as int].entry_ids =~= seq![entry_id]);
                }
                return Some(it.clone());
            }
            proof {
                if self@.items[i as int].entry_ids =~= seq![entry_id] {
                    assert(self@.items[i as int].entry_ids.len() == 1);
                    assert(self@.items[i as int].entry_ids[0] == entry_id);
                }
            }
            i = i + 1;
        }
        None
    }

    /// Sets the active index to `index` (a no-op when out of range).  With
    /// `move_after_current_active`, the target item is first moved to sit
    /// immediately after the current active item, giving "recently used"
    /// tab ordering.  When the activation represents a change — or
    /// unconditionally during a back/forward traversal — the previously
    /// active item records a deactivation entry into the history and an
    /// `ActivateItem` signal is emitted.  The set of open items never
    /// changes, only their order and the active index.
    #[verifier::rlimit(100)]
    pub fn activate_item(
        &mut self,
        index: usize,
        activate_pane: bool,
        focus_item: bool,
        move_after_current_active: bool,
    ) -> (events: Vec<Event>)
        requires
            ids_unique(old(self)@.items),
            old(self)@.history.wf(),
        ensures
            ids_unique(final(self)@.items),
            final(self)@.history.wf(),
            pane_wf(old(self)@) || index < old(self)@.items.len() ==> pane_wf(final(self)@),
            index < old(self)@.items.len() ==> final(self)@ == activate_spec(
                old(self)@,
                index as int,
                move_after_current_active,
            ) && events@ == activate_events(
                old(self)@,
                index as int,
                activate_pane,
                move_after_current_active,
            ),
            index >= old(self)@.items.len() ==> final(self)@ == old(self)@ && events@.len() == 0,
            final(self)@.items.to_multiset() == old(self)@.items.to_multiset(),
            final(self)@.items.len() == old(self)@.items.len(),
    {
        let ghost pre = self@;
        let ghost orig_index = index as int;
        let mut events: Vec<Event> = Vec::new();
        let mut index = index;
        if index < self.items.len() {
            if move_after_current_active && self.active_item_index != index
                && self.active_item_index < self.items.len() {
                let pane_to_activate = self.items.remove(index);
                if self.active_item_index < index {
                    index = self.active_item_index + 1;
                } else {
                    index = self.active_item_index;
                    // Removal at a lower index shifted the active item left.
                    self.active_item_index = index - 1;
                }
                self.items.insert(index, pane_to_activate);
                proof {
                    assert(self@.items =~= pre.items.remove(orig_index).insert(
                        index as int,
                        pre.items[orig_index],
                    ));
                    lemma_remove_insert_multiset(pre.items, orig_index, index as int);
                }
            }
            let prev_active_item_ix = self.active_item_index;
            self.active_item_index = index;
            let fires = prev_active_item_ix != index || matches!(
                self.nav_history.mode(),
                NavigationMode::GoingBack | NavigationMode::GoingForward
            );
            if fires {
                if prev_active_item_ix < self.items.len() {
                    let prev_id = self.items[prev_active_item_ix].id;
                    let prev_cursor = self.items[prev_active_item_ix].cursor;
                    self.nav_history.push(Some(prev_cursor), prev_id);
                }
                events.push(Event::ActivateItem { local: activate_pane });
            }
            if activate_pane {
                events.push(Event::Activate);
            }
            self.autoscroll = true;
            proof {
                lemma_permutation_keeps_unique_ids(pre.items, self@.items);
                assert(self@ =~= activate_spec(pre, orig_index, move_after_current_active));
                assert(events@ =~= activate_events(
                    pre,
                    orig_index,
                    activate_pane,
                    move_after_current_active,
                ));
            }
        }
        let _ = focus_item;
        events
    }

    /// Moves the active index one to the left, wrapping to the last item;
    /// a no-op on an empty pane.
    pub fn activate_prev_item(&mut self) -> (events: Vec<Event>)
        requires
            pane_wf(old(self)@),
        ensures
            pane_wf(final(self)@),
            final(self)@.items.to_multiset() == old(self)@.items.to_multiset(),
            old(self)@.items.len() > 0 ==> final(self)@ == activate_spec(
                old(self)@,
                if old(self)@.active > 0 {
                    old(self)@.active - 1
                } else {
                    old(self)@.items.len() - 1
                },
                false,
            ) && events@ == activate_events(
                old(self)@,
                if old(self)@.active > 0 {
                    old(self)@.active - 1
                } else {
                    old(self)@.items.len() - 1
                },
                true,
                false,
            ),
            old(self)@.items.len() == 0 ==> final(self)@ == old(self)@ && events@.len() == 0,
    {
        let mut index = self.active_item_index;
        if index > 0 {
            index -= 1;
        } else if self.items.len() > 0 {
            index = self.items.len() - 1;
        }
        self.activate_item(index, true, true, false)
    }

    /// Moves the active index one to the right, wrapping to the first item;
    /// a no-op on an empty pane.
    pub fn activate_next_item(&mut self) -> (events: Vec<Event>)
        requires
            pane_wf(old(self)@),
        ensures
            pane_wf(final(self)@),
            final(self)@.items.to_multiset() == old(self)@.items.to_multiset(),
            old(self)@.items.len() > 0 ==> final(self)@ == activate_spec(
                old(self)@,
                if old(self)@.active + 1 < old(self)@.items.len() {
                    old(self)@.active + 1
                } else {
                    0
                },
                false,
            ) && events@ == activate_events(
                old(self)@,
                if old(self)@.active + 1 < old(self)@.items.len() {
                    old(self)@.active + 1
                } else {
                    0
                },
                true,
                false,
            ),
            old(self)@.items.len() == 0 ==> final(self)@ == old(self)@ && events@.len() == 0,
    {
        let mut index = self.active_item_index;
        if self.items.len() > 0 && index < self.items.len() - 1 {
            index += 1;
        } else {
            index = 0;
        }
        self.activate_item(index, true, true, false)
    }

    /// Applies a navigation payload to the item at `index`: the item adopts
    /// the recorded navigation state and reports whether its visible state
    /// changed.
    pub fn apply_navigation_data(&mut self, index: usize, data: u64) -> (changed: bool)
        requires
            index < old(self)@.items.len(),
        ensures
            changed == (old(self)@.items[index as int].cursor != data),
            final(self)@ == (PaneView {
                items: old(self)@.items.update(
                    index as int,
                    ItemView { cursor: data, ..old(self)@.items[index as int] },
                ),
                ..old(self)@
            }),
            pane_wf(old(self)@) ==> pane_wf(final(self)@),
    {
        let old_cursor = self.items[index].cursor;
        let mut it = self.items[index].clone();
        it.cursor = data;
        self.items.set(index, it);
        proof {
            assert(self@.items =~= old(self)@.items.update(
                index as int,
                ItemView { cursor: data, ..old(self)@.items[index as int] },
            ));
        }
        old_cursor != data
    }
}

/// The signals `remove_item` emits: those of the activation shift, then the
/// per-item removal signal, then the "empty pane" signal when the last item
/// went.
pub open spec fn remove_item_events(p: PaneView, item_id: u64) -> Seq<Event> {
    if !contains_id(p.items, item_id) {
        Seq::<Event>::empty()
    } else {
        let ix = index_of(p.items, item_id);
        let shift = if ix == p.active {
            if ix > 0 {
                activate_events(p, ix - 1, true, false)
            } else if ix + 1 < p.items.len() {
                activate_events(p, ix + 1, true, false)
            } else {
                Seq::<Event>::empty()
            }
        } else {
            Seq::<Event>::empty()
        };
        let after = shift.push(Event::RemoveItem);
        if p.items.len() == 1 {
            after.push(Event::Remove)
        } else {
            after
        }
    }
}

impl Pane {
    /// Opens `item` in this pane: when an item with the same identity is
    /// already open it is activated in place (and moved after the active
    /// item), never inserted twice; otherwise the item is inserted
    /// immediately after the current active item (at the end when none is
    /// active) and activated.
    pub fn add_item(&mut self, item: ItemState, activate_pane: bool, focus_item: bool) -> (events:
        Vec<Event>)
        requires
            ids_unique(old(self)@.items),
            old(self)@.history.wf(),
        ensures
            final(self)@ == add_item_spec(old(self)@, item@),
            events@ == add_item_events(old(self)@, item@, activate_pane),
            ids_unique(final(self)@.items),
            final(self)@.history.wf(),
            pane_wf(final(self)@),
            contains_id(final(self)@.items, item@.id),
            final(self)@.items.len() == old(self)@.items.len() + if contains_id(
                old(self)@.items,
                item@.id,
            ) {
                0int
            } else {
                1int
            },
    {
        let ghost pre = self@;
        if let Some(item_ix) = self.index_of_id(item.id) {
            proof {
                lemma_index_of_unique(pre.items, item@.id, item_ix as int);
            }
            let events = self.activate_item(item_ix, activate_pane, focus_item, true);
            proof {
                assert(contains_id(self@.items, item@.id)) by {
                    broadcast use vstd::seq_lib::group_to_multiset_ensures;

                    let x = pre.items[item_ix as int];
                    assert(pre.items.contains(x));
                    assert(pre.items.to_multiset().count(x) > 0);
                    assert(self@.items.to_multiset().count(x) > 0);
                    assert(self@.items.contains(x));
                    let w = choose|k: int| 0 <= k < self@.items.len() && self@.items[k] == x;
                    assert(self@.items[w].id == item@.id);
                }
            }
            return events;
        }
        let ghost item_v = item@;
        let item_ix: usize;
        if self.active_item_index < self.items.len() {
            item_ix = self.active_item_index + 1;
        } else {
            item_ix = self.items.len();
            self.active_item_index = usize::MAX;
        }
        self.items.insert(item_ix, item);
        proof {
            assert(self@.items =~= pre.items.insert(item_ix as int, item_v));
            lemma_insert_fresh_unique(pre.items, item_ix as int, item_v);
            assert(self@ =~= add_item_inserted(pre, item_v).0);
        }
        let events = self.activate_item(item_ix, activate_pane, focus_item, false);
        proof {
            assert(contains_id(self@.items, item_v.id)) by {
                assert(self@.items[item_ix as int].id == item_v.id);
            }
        }
        events
    }

    /// Opens the item for resource `entry_id`: when some open item is the
    /// plain view of exactly that resource, it is activated (and moved after
    /// the active item) and its identity is returned; otherwise `build` — the
    /// freshly built item for that resource — is added.  Returns the identity
    /// of the item that now shows the resource.
    #[verifier::loop_isolation(false)]
    pub fn open_item(&mut self, entry_id: u64, focus_item: bool, build: ItemState) -> (r: (
        u64,
        Vec<Event>,
    ))
        requires
            ids_unique(old(self)@.items),
            old(self)@.history.wf(),
        ensures
            ids_unique(final(self)@.items),
            final(self)@.history.wf(),
            pane_wf(final(self)@),
            has_open_entry(old(self)@.items, entry_id) ==> {
                let ix = first_entry_index(old(self)@.items, entry_id);
                &&& r.0 == old(self)@.items[ix].id
                &&& final(self)@ == activate_spec(old(self)@, ix, true)
                &&& r.1@ == activate_events(old(self)@, ix, true, true)
            },
            !has_open_entry(old(self)@.items, entry_id) ==> {
                &&& r.0 == build@.id
                &&& final(self)@ == add_item_spec(old(self)@, build@)
                &&& r.1@ == add_item_events(old(self)@, build@, true)
            },
    {
        let ghost pre = self@;
        let mut i: usize = 0;
        while i < self.items.len()
            invariant
                i <= self.items@.len(),
                self@ == pre,
                forall|k: int| 0 <= k < i ==> !opens_entry(pre.items[k], entry_id),
            decreases self.items@.len() - i,
        {
            let it = &self.items[i];
            if it.path.is_some() && it.entry_ids.len() == 1 && it.entry_ids[0] == entry_id {
                proof {
                    assert(pre.items[i as int].entry_ids =~= seq![entry_id]);
                    assert(opens_entry(pre.items[i as int], entry_id));
                    lemma_first_entry_index(pre.items, entry_id, i as int);
                }
                let opened_id = it.id;
                let events = self.activate_item(i, true, focus_item, true);
                return (opened_id, events);
            }
            proof {
                if opens_entry(pre.items[i as int], entry_id) {
                    assert(pre.items[i as int].entry_ids.len() == 1);
                    assert(pre.items[i as int].entry_ids[0] == entry_id);
                }
            }
            i = i + 1;
        }
        proof {
            assert(!has_open_entry(pre.items, entry_id));
        }
        let opened_id = build.id;
        let events = self.add_item(build, true, focus_item);
        (opened_id, events)
    }

    /// Takes the item with identity `item_id` out of the pane during a
    /// close: when it is active, activation first shifts to the previous
    /// item (else the next); the item then records a `ClosingItem` history
    /// entry so it can be reopened, and its resource path is remembered (or
    /// a stale remembered path forgotten).  Emits `RemoveItem`, and exactly
    /// one `Remove` — the "empty pane" signal — when the last item went.
    #[verifier::rlimit(100)]
    pub fn remove_item(&mut self, item_id: u64) -> (events: Vec<Event>)
        requires
            pane_wf(old(self)@),
        ensures
            pane_wf(final(self)@),
            final(self)@ == remove_item_spec(old(self)@, item_id),
            events@ == remove_item_events(old(self)@, item_id),
            !contains_id(final(self)@.items, item_id),
            forall|id2: u64|
                id2 != item_id ==> contains_id(final(self)@.items, id2) == contains_id(
                    old(self)@.items,
                    id2,
                ),
            contains_id(old(self)@.items, item_id) ==> final(self)@.items.len() == old(
                self,
            )@.items.len() - 1,
            count_removes(events@) == if contains_id(old(self)@.items, item_id) && old(
                self,
            )@.items.len() == 1 {
                1int
            } else {
                0int
            },
    {
        let ghost pre = self@;
        let item_ix = match self.index_of_id(item_id) {
            Some(ix) => ix,
            None => {
                proof {
                    assert(count_removes(Seq::<Event>::empty()) == 0);
                }
                return Vec::new();
            },
        };
        proof {
            lemma_index_of_unique(pre.items, item_id, item_ix as int);
        }
        let mut events: Vec<Event> = Vec::new();
        if item_ix == self.active_item_index {
            if item_ix > 0 {
                let mut shift = self.activate_prev_item();
                events.append(&mut shift);
            } else if item_ix + 1 < self.items.len() {
                let mut shift = self.activate_next_item();
                events.append(&mut shift);
            }
        }
        let ghost p1 = self@;
        let removed = self.items.remove(item_ix);
        events.push(Event::RemoveItem);
        if self.items.len() == 0 {
            // While the pane empties, the removed item is deactivated once
            // more under the current mode before the close entry is written.
            self.nav_history.push(Some(removed.cursor), removed.id);
            events.push(Event::Remove);
        }
        if item_ix < self.active_item_index {
            self.active_item_index -= 1;
        }
        self.nav_history.set_mode(NavigationMode::ClosingItem);
        self.nav_history.push(Some(removed.cursor), removed.id);
        self.nav_history.set_mode(NavigationMode::Normal);
        match removed.path {
            Some(path) => self.nav_history.record_path(removed.id, path),
            None => self.nav_history.forget_path(removed.id),
        }
        proof {
            lemma_remove_keeps_unique(p1.items, item_ix as int);
            assert(self@.items =~= p1.items.remove(item_ix as int));
            assert(self@.items =~= remove_item_spec(pre, item_id).items);
            assert(self@.history =~= remove_item_spec(pre, item_id).history);
            assert(self@ =~= remove_item_spec(pre, item_id));
            assert(events@ =~= remove_item_events(pre, item_id));
            lemma_count_removes(events@, pre, item_id);
            assert(!contains_id(self@.items, item_id)) by {
                if contains_id(self@.items, item_id) {
                    let k = choose|k: int|
                        0 <= k < self@.items.len() && self@.items[k].id == item_id;
                    if k < item_ix {
                        assert(p1.items[k].id == p1.items[item_ix as int].id);
                    } else {
                        assert(p1.items[k + 1].id == p1.items[item_ix as int].id);
                    }
                }
            }
            assert forall|id2: u64| id2 != item_id implies contains_id(self@.items, id2)
                == contains_id(pre.items, id2) by {
                assert(p1.items == pre.items);
                if contains_id(pre.items, id2) {
                    let w = choose|w: int|
                        0 <= w < pre.items.len() && pre.items[w].id == id2;
                    if w < item_ix {
                        assert(self@.items[w].id == id2);
                    } else {
                        assert(w != item_ix);
                        assert(self@.items[w - 1].id == id2);
                    }
                    assert(contains_id(self@.items, id2));
                }
                if contains_id(self@.items, id2) {
                    let w = choose|w: int|
                        0 <= w < self@.items.len() && self@.items[w].id == id2;
                    if w < item_ix {
                        assert(pre.items[w].id == id2);
                    } else {
                        assert(pre.items[w + 1].id == id2);
                    }
                    assert(contains_id(pre.items, id2));
                }
            }
        }
        events
    }
}

/// Two item lists with pointwise equal identities contain the same
/// identities.
pub proof fn lemma_pointwise_ids_contains(a: Seq<ItemView>, b: Seq<ItemView>)
    requires
        a.len() == b.len(),
        forall|k: int| 0 <= k < a.len() ==> (#[trigger] a[k]).id == b[k].id,
    ensures
        forall|id: u64| contains_id(a, id) == contains_id(b, id),
{
    assert forall|id: u64| contains_id(a, id) == contains_id(b, id) by {
        if contains_id(a, id) {
            let w = choose|w: int| 0 <= w < a.len() && a[w].id == id;
            assert(b[w].id == id);
        }
        if contains_id(b, id) {
            let w = choose|w: int| 0 <= w < b.len() && b[w].id == id;
            assert(a[w].id == id);
        }
    }
}

/// `count_removes` adds up over concatenation.
pub proof fn lemma_count_removes_add(a: Seq<Event>, b: Seq<Event>)
    ensures
        count_removes(a + b) == count_removes(a) + count_removes(b),
    decreases b.len(),
{
    if b.len() == 0 {
        assert(a + b =~= a);
    } else {
        lemma_count_removes_add(a, b.drop_last());
        assert((a + b).drop_last() =~= a + b.drop_last());
        assert((a + b).last() == b.last());
    }
}

/// With unique identities, any position holding `id` is the chosen one.
pub proof fn lemma_index_of_unique(items: Seq<ItemView>, id: u64, ix: int)
    requires
        ids_unique(items),
        0 <= ix < items.len(),
        items[ix].id == id,
    ensures
        index_of(items, id) == ix,
        contains_id(items, id),
{
    assert(contains_id(items, id));
    let c = index_of(items, id);
    assert(0 <= c < items.len() && items[c].id == id);
    if c != ix {
        if c < ix {
            assert(items[c].id != items[ix].id);
        } else {
            assert(items[ix].id != items[c].id);
        }
    }
}

/// A position that matches and is preceded only by non-matches is the first
/// match.
proof fn lemma_first_entry_index(items: Seq<ItemView>, entry_id: u64, ix: int)
    requires
        0 <= ix < items.len(),
        opens_entry(items[ix], entry_id),
        forall|k: int| 0 <= k < ix ==> !opens_entry(items[k], entry_id),
    ensures
        has_open_entry(items, entry_id),
        first_entry_index(items, entry_id) == ix,
{
    assert(has_open_entry(items, entry_id));
    let c = first_entry_index(items, entry_id);
    assert(0 <= c < items.len() && opens_entry(items[c], entry_id) && (forall|k: int|
        0 <= k < c ==> !opens_entry(items[k], entry_id)));
    if c < ix {
        assert(!opens_entry(items[c], entry_id));
    } else if ix < c {
        assert(!opens_entry(items[ix], entry_id));
    }
}

/// Inserting an item whose identity is not yet present keeps identities
/// unique.
proof fn lemma_insert_fresh_unique(items: Seq<ItemView>, ix: int, it: ItemView)
    requires
        0 <= ix <= items.len(),
        ids_unique(items),
        !contains_id(items, it.id),
    ensures
        ids_unique(items.insert(ix, it)),
{
    let s = items.insert(ix, it);
    items.insert_ensures(ix, it);
    assert forall|m: int| 0 <= m < items.len() implies items[m].id != it.id by {
        if items[m].id == it.id {
            assert(contains_id(items, it.id));
        }
    }
    assert forall|i: int, j: int| 0 <= i < j < s.len() implies s[i].id != s[j].id by {
        if i < ix {
            assert(s[i] == items[i]);
        } else if i > ix {
            assert(s[i] == items[i - 1]);
        }
        if j < ix {
            assert(s[j] == items[j]);
        } else if j > ix {
            assert(s[j] == items[j - 1]);
        }
    }
}

/// Removing an item keeps identities unique.
proof fn lemma_remove_keeps_unique(items: Seq<ItemView>, ix: int)
    requires
        0 <= ix < items.len(),
        ids_unique(items),
    ensures
        ids_unique(items.remove(ix)),
{
    let s = items.remove(ix);
    items.remove_ensures(ix);
    assert forall|i: int, j: int| 0 <= i < j < s.len() implies s[i].id != s[j].id by {
        if i < ix {
            assert(s[i] == items[i]);
        } else {
            assert(s[i] == items[i + 1]);
        }
        if j < ix {
            assert(s[j] == items[j]);
        } else {
            assert(s[j] == items[j + 1]);
        }
    }
}

/// The activation shift and removal signals carry no "empty pane" signal;
/// only emptying the pane adds one.
proof fn lemma_count_removes(events: Seq<Event>, p: PaneView, item_id: u64)
    requires
        events == remove_item_events(p, item_id),
        contains_id(p.items, item_id),
        ids_unique(p.items),
    ensures
        count_removes(events) == if p.items.len() == 1 {
            1int
        } else {
            0int
        },
{
    let ix = index_of(p.items, item_id);
    let shift = if ix == p.active {
        if ix > 0 {
            activate_events(p, ix - 1, true, false)
        } else if ix + 1 < p.items.len() {
            activate_events(p, ix + 1, true, false)
        } else {
            Seq::<Event>::empty()
        }
    } else {
        Seq::<Event>::empty()
    };
    assert(count_removes(shift) == 0) by {
        if ix == p.active && (ix > 0 || ix + 1 < p.items.len()) {
            let target = if ix > 0 {
                ix - 1
            } else {
                ix + 1
            };
            let changed = if activate_fires(p, target, false) {
                seq![Event::ActivateItem { local: true }]
            } else {
                Seq::<Event>::empty()
            };
            lemma_count_removes_push(Seq::<Event>::empty(), Event::ActivateItem { local: true });
            assert(seq![Event::ActivateItem { local: true }] =~= Seq::<Event>::empty().push(
                Event::ActivateItem { local: true },
            ));
            assert(count_removes(changed) == 0);
            lemma_count_removes_push(changed, Event::Activate);
            assert(shift == changed.push(Event::Activate));
        }
    }
    let after = shift.push(Event::RemoveItem);
    lemma_count_removes_push(shift, Event::RemoveItem);
    if p.items.len() == 1 {
        assert(events == after.push(Event::Remove));
        lemma_count_removes_push(after, Event::Remove);
    }
}

/// `count_removes` counts one more exactly when the appended signal is the
/// "empty pane" signal.
pub proof fn lemma_count_removes_push(s: Seq<Event>, e: Event)
    ensures
        count_removes(s.push(e)) == count_removes(s) + if e is Remove {
            1int
        } else {
            0int
        },
{
    assert(s.push(e).drop_last() =~= s);
    assert(s.push(e).last() == e);
}

/// Removing an element and reinserting it elsewhere keeps the multiset of
/// elements.
pub proof fn lemma_remove_insert_multiset<A>(items: Seq<A>, ix: int, j: int)
    requires
        0 <= ix < items.len(),
        0 <= j <= items.len() - 1,
    ensures
        items.remove(ix).insert(j, items[ix]).to_multiset() == items.to_multiset(),
{
    broadcast use vstd::seq_lib::group_to_multiset_ensures;

    let removed = items.remove(ix);
    let reinserted = removed.insert(j, items[ix]);
    assert(removed.to_multiset() =~= items.to_multiset().remove(items[ix]));
    lemma_insert_to_multiset(removed, j, items[ix]);
    assert(items.to_multiset().contains(items[ix]));
    assert(reinserted.to_multiset() =~= items.to_multiset());
}

/// Inserting anywhere adds one occurrence to the multiset.
pub proof fn lemma_insert_to_multiset<A>(s: Seq<A>, j: int, x: A)
    requires
        0 <= j <= s.len(),
    ensures
        s.insert(j, x).to_multiset() == s.to_multiset().insert(x),
{
    broadcast use vstd::seq_lib::group_to_multiset_ensures;

    let left = s.subrange(0, j);
    let right = s.subrange(j, s.len() as int);
    assert(s.insert(j, x) == left.push(x) + right);
    vstd::seq_lib::lemma_multiset_commutative(left.push(x), right);
    vstd::seq_lib::lemma_multiset_commutative(left, right);
    assert(left + right =~= s);
    assert(left.push(x).to_multiset() =~= left.to_multiset().insert(x));
    assert((left.push(x) + right).to_multiset() =~= left.to_multiset().insert(x).add(
        right.to_multiset(),
    ));
    assert(left.to_multiset().insert(x).add(right.to_multiset()) =~= left.to_multiset().add(
        right.to_multiset(),
    ).insert(x));
    assert(s.insert(j, x).to_multiset() =~= s.to_multiset().insert(x));
}

/// A permutation of a sequence with unique item identities again has unique
/// item identities.
proof fn lemma_permutation_keeps_unique_ids(a: Seq<ItemView>, b: Seq<ItemView>)
    requires
        a.to_multiset() == b.to_multiset(),
        forall|i: int, j: int| 0 <= i < j < a.len() ==> a[i].id != a[j].id,
    ensures
        forall|i: int, j: int| 0 <= i < j < b.len() ==> b[i].id != b[j].id,
{
    broadcast use vstd::seq_lib::group_to_multiset_ensures;

    assert forall|i: int, j: int| 0 <= i < j < b.len() implies b[i].id != b[j].id by {
        if b[i].id == b[j].id {
            if b[i] == b[j] {
                lemma_dup_count(b, i, j);
                assert(b.to_multiset().count(b[i]) >= 2);
                lemma_unique_ids_count(a, b[i]);
            } else {
                assert(b.contains(b[i]));
                assert(b.to_multiset().count(b[i]) > 0);
                assert(a.to_multiset().count(b[i]) > 0);
                assert(a.contains(b[i]));
                assert(b.contains(b[j]));
                assert(b.to_multiset().count(b[j]) > 0);
                assert(a.to_multiset().count(b[j]) > 0);
                assert(a.contains(b[j]));
                let ia = choose|k: int| 0 <= k < a.len() && a[k] == b[i];
                let ja = choose|k: int| 0 <= k < a.len() && a[k] == b[j];
                assert(a[ia].id == a[ja].id && ia != ja);
            }
        }
    }
}

/// Two positions holding the same value give that value count at least two.
proof fn lemma_dup_count(s: Seq<ItemView>, i: int, j: int)
    requires
        0 <= i < j < s.len(),
        s[i] == s[j],
    ensures
        s.to_multiset().count(s[i]) >= 2,
{
    broadcast use vstd::seq_lib::group_to_multiset_ensures;

    let removed = s.remove(i);
    assert(removed.to_multiset() =~= s.to_multiset().remove(s[i]));
    assert(removed[j - 1] == s[j]);
    assert(removed.contains(s[j]));
    assert(removed.to_multiset().count(s[j]) > 0);
}

/// In a sequence of unique identities no value occurs twice.
proof fn lemma_unique_ids_count(s: Seq<ItemView>, x: ItemView)
    requires
        forall|i: int, j: int| 0 <= i < j < s.len() ==> s[i].id != s[j].id,
    ensures
        s.to_multiset().count(x) <= 1,
{
    broadcast use vstd::seq_lib::group_to_multiset_ensures;

    if s.to_multiset().count(x) >= 2 {
        assert(s.contains(x));
        let i = choose|k: int| 0 <= k < s.len() && s[k] == x;
        let removed = s.remove(i);
        assert(removed.to_multiset() =~= s.to_multiset().remove(x));
        assert(removed.to_multiset().count(x) >= 1);
        assert(removed.contains(x));
        let j = choose|k: int| 0 <= k < removed.len() && removed[k] == x;
        if j < i {
            assert(s[j] == removed[j]);
            assert(s[j].id == s[i].id);
        } else {
            assert(s[j + 1] == removed[j]);
            assert(s[j + 1].id == s[i].id);
        }
    }
}

} // verus!
