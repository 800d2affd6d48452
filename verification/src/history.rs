use vstd::prelude::*;

use crate::item::ProjectPath;

verus! {

/// Bound on each of the three history stacks; pushing beyond it evicts the
/// oldest entry from the front.
pub const MAX_NAVIGATION_HISTORY_LEN: usize = 1024;

/// How a push into the history is interpreted.  The traversal algorithm sets
/// a non-`Normal` mode only for the duration of one activation call.
#[derive(Clone, Copy, PartialEq, Eq, Structural, Debug)]
pub enum NavigationMode {
    Normal,
    GoingBack,
    GoingForward,
    ClosingItem,
    ReopeningClosedItem,
    Disabled,
}

impl Default for NavigationMode {
    fn default() -> (r: Self)
        ensures
            r == NavigationMode::Normal,
    {
        Self::Normal
    }
}

/// One recorded navigation: the identity of the item it happened in, plus an
/// optional payload (for a text item, a cursor position) meaningful only to
/// that item's kind.  The entry does not keep the item alive.
#[derive(Clone, Copy, PartialEq, Eq, Structural, Debug)]
pub struct NavigationEntry {
    pub item_id: u64,
    pub data: Option<u64>,
}

/// Mathematical abstraction of a `NavHistory`.
pub ghost struct HistoryView {
    pub mode: NavigationMode,
    pub backward: Seq<NavigationEntry>,
    pub forward: Seq<NavigationEntry>,
    pub closed: Seq<NavigationEntry>,
    pub paths: Seq<(u64, ProjectPath)>,
    pub update_pending: bool,
}

/// Last-wins lookup in the stale-item-to-path table.
pub open spec fn path_for(paths: Seq<(u64, ProjectPath)>, item_id: u64) -> Option<ProjectPath>
    decreases paths.len(),
{
    if paths.len() == 0 {
        None
    } else if paths.last().0 == item_id {
        Some(paths.last().1)
    } else {
        path_for(paths.drop_last(), item_id)
    }
}

/// A stack bounded at `MAX_NAVIGATION_HISTORY_LEN`: pushing at capacity first
/// evicts the oldest entry at the front.
pub open spec fn bounded_push(stack: Seq<NavigationEntry>, e: NavigationEntry) -> Seq<
    NavigationEntry,
> {
    if stack.len() >= MAX_NAVIGATION_HISTORY_LEN {
        stack.subrange(1, stack.len() as int).push(e)
    } else {
        stack.push(e)
    }
}

impl HistoryView {
    /// The stack a pop in `mode` draws from, or `None` for the modes on which
    /// popping is invalid.
    pub open spec fn stack_for(self, mode: NavigationMode) -> Option<Seq<NavigationEntry>> {
        match mode {
            NavigationMode::GoingBack => Some(self.backward),
            NavigationMode::GoingForward => Some(self.forward),
            NavigationMode::ReopeningClosedItem => Some(self.closed),
            _ => None,
        }
    }

    /// The state after `push(e)`, branching on the current mode.
    pub open spec fn push_spec(self, e: NavigationEntry) -> HistoryView {
        match self.mode {
            NavigationMode::Disabled => HistoryView { update_pending: true, ..self },
            NavigationMode::Normal | NavigationMode::ReopeningClosedItem => HistoryView {
                backward: bounded_push(self.backward, e),
                forward: Seq::empty(),
                update_pending: true,
                ..self
            },
            NavigationMode::GoingBack => HistoryView {
                forward: bounded_push(self.forward, e),
                update_pending: true,
                ..self
            },
            NavigationMode::GoingForward => HistoryView {
                backward: bounded_push(self.backward, e),
                update_pending: true,
                ..self
            },
            NavigationMode::ClosingItem => HistoryView {
                closed: bounded_push(self.closed, e),
                update_pending: true,
                ..self
            },
        }
    }

    /// The state after `pop(mode)`, together with what the pop returned.
    pub open spec fn pop_spec(self, mode: NavigationMode) -> (HistoryView, Option<
        NavigationEntry,
    >) {
        match self.stack_for(mode) {
            None => (self, None),
            Some(stack) => {
                if stack.len() == 0 {
                    (self, None)
                } else {
                    let shorter = stack.drop_last();
                    let h = match mode {
                        NavigationMode::GoingBack => HistoryView { backward: shorter, ..self },
                        NavigationMode::GoingForward => HistoryView { forward: shorter, ..self },
                        _ => HistoryView { closed: shorter, ..self },
                    };
                    (HistoryView { update_pending: true, ..h }, Some(stack.last()))
                }
            },
        }
    }

    /// All three stacks respect the capacity bound.
    pub open spec fn wf(self) -> bool {
        &&& self.backward.len() <= MAX_NAVIGATION_HISTORY_LEN
        &&& self.forward.len() <= MAX_NAVIGATION_HISTORY_LEN
        &&& self.closed.len() <= MAX_NAVIGATION_HISTORY_LEN
    }
}

/// The navigation history of one pane: three bounded stacks, the mode that
/// steers pushes, a table remembering the last known resource path of items
/// that are gone, and a coalesced "history changed" notification flag that
/// the owning pane's toolbar consumes.
#[derive(Debug)]
pub struct NavHistory {
    pub mode: NavigationMode,
    pub backward_stack: Vec<NavigationEntry>,
    pub forward_stack: Vec<NavigationEntry>,
    pub closed_stack: Vec<NavigationEntry>,
    pub paths_by_item: Vec<(u64, ProjectPath)>,
    pub update_pending: bool,
}

impl View for NavHistory {
    type V = HistoryView;

    open spec fn view(&self) -> HistoryView {
        HistoryView {
            mode: self.mode,
            backward: self.backward_stack@,
            forward: self.forward_stack@,
            closed: self.closed_stack@,
            paths: self.paths_by_item@,
            update_pending: self.update_pending,
        }
    }
}

impl NavHistory {
    /// A fresh history: `Normal` mode, empty stacks, empty path table.
    pub fn new() -> (h: NavHistory)
        ensures
            h@ == (HistoryView {
                mode: NavigationMode::Normal,
                backward: Seq::<NavigationEntry>::empty(),
                forward: Seq::<NavigationEntry>::empty(),
                closed: Seq::<NavigationEntry>::empty(),
                paths: Seq::<(u64, ProjectPath)>::empty(),
                update_pending: false,
            }),
            h@.wf(),
    {
        NavHistory {
            mode: NavigationMode::Normal,
            backward_stack: Vec::new(),
            forward_stack: Vec::new(),
            closed_stack: Vec::new(),
            paths_by_item: Vec::new(),
            update_pending: false,
        }
    }

    pub fn mode(&self) -> (m: NavigationMode)
        ensures
            m == self@.mode,
    {
        self.mode
    }

    pub fn set_mode(&mut self, mode: NavigationMode)
        ensures
            final(self)@ == (HistoryView { mode, ..old(self)@ }),
    {
        self.mode = mode;
    }

    /// Further pushes become no-ops until `enable` is called.
    pub fn disable(&mut self)
        ensures
            final(self)@ == (HistoryView { mode: NavigationMode::Disabled, ..old(self)@ }),
    {
        self.mode = NavigationMode::Disabled;
    }

    pub fn enable(&mut self)
        ensures
            final(self)@ == (HistoryView { mode: NavigationMode::Normal, ..old(self)@ }),
    {
        self.mode = NavigationMode::Normal;
    }

    pub fn can_navigate_backward(&self) -> (r: bool)
        ensures
            r == (self@.backward.len() > 0),
    {
        self.backward_stack.len() > 0
    }

    pub fn can_navigate_forward(&self) -> (r: bool)
        ensures
            r == (self@.forward.len() > 0),
    {
        self.forward_stack.len() > 0
    }

    /// Consumes the coalesced "history changed" notification, telling the
    /// caller whether one was pending.
    pub fn take_update(&mut self) -> (was_pending: bool)
        ensures
            was_pending == old(self)@.update_pending,
            final(self)@ == (HistoryView { update_pending: false, ..old(self)@ }),
    {
        let was_pending = self.update_pending;
        self.update_pending = false;
        was_pending
    }

    /// Records a navigation of item `item_id` with optional payload `data`,
    /// interpreted under the current mode: a `Normal` or
    /// `ReopeningClosedItem` push appends to `backward` and clears `forward`;
    /// `GoingBack` appends to `forward`; `GoingForward` appends to
    /// `backward`; `ClosingItem` appends to `closed`; `Disabled` is a no-op.
    /// Every push schedules the coalesced notification.
    pub fn push(&mut self, data: Option<u64>, item_id: u64)
        requires
            old(self)@.wf(),
        ensures
            final(self)@ == old(self)@.push_spec(NavigationEntry { item_id, data }),
            final(self)@.wf(),
    {
        let entry = NavigationEntry { item_id, data };
        match self.mode {
            NavigationMode::Disabled => {},
            NavigationMode::Normal | NavigationMode::ReopeningClosedItem => {
                if self.backward_stack.len() >= MAX_NAVIGATION_HISTORY_LEN {
                    self.backward_stack.remove(0);
                }
                self.backward_stack.push(entry);
                self.forward_stack.clear();
            },
            NavigationMode::GoingBack => {
                if self.forward_stack.len() >= MAX_NAVIGATION_HISTORY_LEN {
                    self.forward_stack.remove(0);
                }
                self.forward_stack.push(entry);
            },
            NavigationMode::GoingForward => {
                if self.backward_stack.len() >= MAX_NAVIGATION_HISTORY_LEN {
                    self.backward_stack.remove(0);
                }
                self.backward_stack.push(entry);
            },
            NavigationMode::ClosingItem => {
                if self.closed_stack.len() >= MAX_NAVIGATION_HISTORY_LEN {
                    self.closed_stack.remove(0);
                }
                self.closed_stack.push(entry);
            },
        }
        self.update_pending = true;
    }

    /// Pops one entry for a traversal in `mode`.  `Normal`, `Disabled` and
    /// `ClosingItem` are invalid pop modes and return nothing; the travel
    /// modes pop from their stack.  A non-empty pop schedules the same
    /// notification as a push.
    pub fn pop(&mut self, mode: NavigationMode) -> (entry: Option<NavigationEntry>)
        ensures
            (final(self)@, entry) == old(self)@.pop_spec(mode),
    {
        let entry = match mode {
            NavigationMode::GoingBack => self.backward_stack.pop(),
            NavigationMode::GoingForward => self.forward_stack.pop(),
            NavigationMode::ReopeningClosedItem => self.closed_stack.pop(),
            _ => None,
        };
        if entry.is_some() {
            self.update_pending = true;
        }
        entry
    }

    /// The last remembered resource path of `item_id`, if any.
    pub fn path_for_item(&self, item_id: u64) -> (r: Option<ProjectPath>)
        ensures
            r == path_for(self@.paths, item_id),
    {
        proof {
            assert(self@.paths.take(self.paths_by_item@.len() as int) =~= self@.paths);
        }
        let mut i = self.paths_by_item.len();
        while i > 0
            invariant
                i <= self.paths_by_item.len(),
                path_for(self@.paths.take(i as int), item_id) == path_for(self@.paths, item_id),
            decreases i,
        {
            i = i - 1;
            let pair = self.paths_by_item[i];
            proof {
                assert(self@.paths.take(i + 1).drop_last() =~= self@.paths.take(i as int));
            }
            if pair.0 == item_id {
                return Some(pair.1);
            }
        }
        None
    }

    /// Remembers `path` as the last known resource path of `item_id`.
    pub fn record_path(&mut self, item_id: u64, path: ProjectPath)
        ensures
            final(self)@ == (HistoryView {
                paths: old(self)@.paths.push((item_id, path)),
                ..old(self)@
            }),
            path_for(final(self)@.paths, item_id) == Some(path),
            forall|other: u64|
                other != item_id ==> path_for(final(self)@.paths, other) == path_for(
                    old(self)@.paths,
                    other,
                ),
    {
        self.paths_by_item.push((item_id, path));
        proof {
            assert(self@.paths.drop_last() =~= old(self)@.paths);
        }
    }

    /// Forgets any remembered resource path of `item_id`.
    pub fn forget_path(&mut self, item_id: u64)
        ensures
            final(self)@ == (HistoryView {
                paths: drop_key(old(self)@.paths, item_id),
                ..old(self)@
            }),
            path_for(final(self)@.paths, item_id) == None::<ProjectPath>,
            forall|other: u64|
                other != item_id ==> path_for(final(self)@.paths, other) == path_for(
                    old(self)@.paths,
                    other,
                ),
    {
        let ghost old_paths = self@.paths;
        let mut kept: Vec<(u64, ProjectPath)> = Vec::new();
        let mut i: usize = 0;
        while i < self.paths_by_item.len()
            invariant
                i <= self.paths_by_item@.len(),
                self@.paths == old_paths,
                kept@ == drop_key(old_paths.take(i as int), item_id),
            decreases self.paths_by_item@.len() - i,
        {
            let pair = self.paths_by_item[i];
            proof {
                assert(old_paths.take(i + 1).drop_last() =~= old_paths.take(i as int));
            }
            if pair.0 != item_id {
                kept.push(pair);
            }
            i = i + 1;
        }
        proof {
            assert(old_paths.take(old_paths.len() as int) =~= old_paths);
        }
        self.paths_by_item = kept;
        proof {
            lemma_path_for_drop_key(old_paths, item_id);
        }
    }
}

/// A navigation recorded in `Normal` mode invalidates the forward-redo
/// chain: the forward stack is empty immediately after any `Normal`-mode
/// push, whatever sequence of operations came before.
pub proof fn lemma_normal_push_clears_forward(h: HistoryView, e: NavigationEntry)
    requires
        h.mode is Normal,
    ensures
        h.push_spec(e).forward.len() == 0,
{
}

/// No stack ever grows past the capacity bound, and a push onto a full
/// stack evicts exactly the oldest entry from the front.
pub proof fn lemma_push_respects_capacity(h: HistoryView, e: NavigationEntry)
    requires
        h.wf(),
    ensures
        h.push_spec(e).wf(),
        h.mode is Normal && h.backward.len() == MAX_NAVIGATION_HISTORY_LEN ==> h.push_spec(
            e,
        ).backward =~= h.backward.subrange(1, MAX_NAVIGATION_HISTORY_LEN as int).push(e),
        h.mode is GoingBack && h.forward.len() == MAX_NAVIGATION_HISTORY_LEN ==> h.push_spec(
            e,
        ).forward =~= h.forward.subrange(1, MAX_NAVIGATION_HISTORY_LEN as int).push(e),
        h.mode is ClosingItem && h.closed.len() == MAX_NAVIGATION_HISTORY_LEN ==> h.push_spec(
            e,
        ).closed =~= h.closed.subrange(1, MAX_NAVIGATION_HISTORY_LEN as int).push(e),
{
}

/// The path table with every pair keyed by `item_id` removed, order kept.
pub open spec fn drop_key(paths: Seq<(u64, ProjectPath)>, item_id: u64) -> Seq<(u64, ProjectPath)>
    decreases paths.len(),
{
    if paths.len() == 0 {
        paths
    } else {
        let rest = drop_key(paths.drop_last(), item_id);
        if paths.last().0 == item_id {
            rest
        } else {
            rest.push(paths.last())
        }
    }
}

/// Dropping every pair keyed by `item_id` erases its entry and leaves every
/// other key's lookup unchanged.
proof fn lemma_path_for_drop_key(paths: Seq<(u64, ProjectPath)>, item_id: u64)
    ensures
        path_for(drop_key(paths, item_id), item_id) == None::<ProjectPath>,
        forall|other: u64|
            other != item_id ==> path_for(drop_key(paths, item_id), other) == path_for(
                paths,
                other,
            ),
    decreases paths.len(),
{
    if paths.len() > 0 {
        lemma_path_for_drop_key(paths.drop_last(), item_id);
        if paths.last().0 != item_id {
            assert(drop_key(paths, item_id).drop_last() =~= drop_key(
                paths.drop_last(),
                item_id,
            ));
            assert forall|other: u64| other != item_id implies path_for(
                drop_key(paths, item_id),
                other,
            ) == path_for(paths, other) by {
                let dk = drop_key(paths, item_id);
                assert(dk == drop_key(paths.drop_last(), item_id).push(paths.last()));
                assert(dk.last() == paths.last());
                assert(dk.drop_last() =~= drop_key(paths.drop_last(), item_id));
                if paths.last().0 == other {
                    assert(path_for(dk, other) == Some(dk.last().1));
                    assert(path_for(paths, other) == Some(paths.last().1));
                } else {
                    assert(path_for(dk, other) == path_for(dk.drop_last(), other));
                    assert(path_for(paths, other) == path_for(paths.drop_last(), other));
                }
            }
        } else {
            assert forall|other: u64| other != item_id implies path_for(
                drop_key(paths, item_id),
                other,
            ) == path_for(paths, other) by {
                assert(drop_key(paths, item_id) == drop_key(paths.drop_last(), item_id));
                assert(path_for(paths, other) == path_for(paths.drop_last(), other));
            }
        }
    }
}

} // verus!
