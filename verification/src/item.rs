use vstd::prelude::*;

verus! {

/// Stable identifier for a backing resource: the worktree it lives in and the
/// path within that worktree.  The surrounding shell resolves real filesystem
/// paths to and from these identifiers.
#[derive(Clone, Copy, PartialEq, Eq, Structural, Debug)]
pub struct ProjectPath {
    pub worktree_id: u64,
    pub path_id: u64,
}

/// The observable state of one open item, as the pane consumes it: a stable
/// identity, the identities of the resources backing it (empty when the item
/// is unsaved or ephemeral), capability flags, an optional resource path, the
/// label description codes the item can produce at each detail level, and the
/// item's current navigation state (for a text item, its cursor).
#[derive(Debug)]
pub struct ItemState {
    pub id: u64,
    pub entry_ids: Vec<u64>,
    pub singleton: bool,
    pub dirty: bool,
    pub conflict: bool,
    pub can_save: bool,
    pub path: Option<ProjectPath>,
    pub descriptions: Vec<u64>,
    pub cursor: u64,
}

/// Mathematical abstraction of an `ItemState`.
pub ghost struct ItemView {
    pub id: u64,
    pub entry_ids: Seq<u64>,
    pub singleton: bool,
    pub dirty: bool,
    pub conflict: bool,
    pub can_save: bool,
    pub path: Option<ProjectPath>,
    pub descriptions: Seq<u64>,
    pub cursor: u64,
}

impl View for ItemState {
    type V = ItemView;

    open spec fn view(&self) -> ItemView {
        ItemView {
            id: self.id,
            entry_ids: self.entry_ids@,
            singleton: self.singleton,
            dirty: self.dirty,
            conflict: self.conflict,
            can_save: self.can_save,
            path: self.path,
            descriptions: self.descriptions@,
            cursor: self.cursor,
        }
    }
}

impl ItemView {
    /// The label description this item produces at a given detail level, or
    /// `None` when the item has run out of ancestry to add.
    pub open spec fn description_at(self, detail: int) -> Option<u64> {
        if 0 <= detail < self.descriptions.len() {
            Some(self.descriptions[detail])
        } else {
            None
        }
    }

    /// An item qualifies for autosave when it is dirty, carries no disk
    /// conflict, can save in place, and is still backed by a live resource.
    pub open spec fn spec_can_autosave(self) -> bool {
        self.dirty && !self.conflict && self.can_save && self.entry_ids.len() > 0
    }
}

impl Clone for ItemState {
    /// A clone observes as the same item.
    fn clone(&self) -> (r: Self)
        ensures
            r@ == self@,
    {
        let entry_ids = self.entry_ids.clone();
        let descriptions = self.descriptions.clone();
        proof {
            assert(entry_ids@ =~= self.entry_ids@);
            assert(descriptions@ =~= self.descriptions@);
        }
        ItemState {
            id: self.id,
            entry_ids,
            singleton: self.singleton,
            dirty: self.dirty,
            conflict: self.conflict,
            can_save: self.can_save,
            path: self.path,
            descriptions,
            cursor: self.cursor,
        }
    }
}

impl ItemState {
    /// The label description at `detail`, mirroring `ItemView::description_at`.
    pub fn tab_description(&self, detail: usize) -> (r: Option<u64>)
        ensures
            r == self@.description_at(detail as int),
    {
        if detail < self.descriptions.len() {
            Some(self.descriptions[detail])
        } else {
            None
        }
    }

    /// Whether an autosave policy may save this item without asking: it must
    /// be dirty, conflict-free, saveable in place, and still backed by a
    /// resource.
    pub fn can_autosave(&self) -> (r: bool)
        ensures
            r == self@.spec_can_autosave(),
    {
        self.dirty && !self.conflict && self.can_save && self.entry_ids.len() > 0
    }
}

} // verus!
