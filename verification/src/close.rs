use vstd::prelude::*;

use crate::item::{ItemView, ProjectPath};
use crate::pane::{
    activate_events, activate_spec, contains_id, count_removes, index_of, pane_wf, Event, Pane,
    PaneView,
};
use crate::tab_details::views;

verus! {

/// How a whole close batch ended: all candidates handled; the user cancelled
/// partway (already-closed items stay closed, the rest stay open — partial
/// progress is designed behaviour); or a disk failure aborted it.
#[derive(Clone, Copy, PartialEq, Eq, Structural, Debug)]
pub enum CloseOutcome {
    Completed,
    Cancelled,
    Failed(ErrorKind),
}

/// One save consideration taken during a close batch: the item it was for
/// and the resource identities that were at stake — those of its backing
/// resources not open anywhere outside the batch (empty for an item with no
/// backing resource at all).
#[derive(Debug)]
pub struct PromptRecord {
    pub item_id: u64,
    pub remaining: Vec<u64>,
}

/// What a close batch did: how it ended, which items it removed (in order),
/// the save considerations it took, and the signals it emitted.
#[derive(Debug)]
pub struct CloseReport {
    pub outcome: CloseOutcome,
    pub closed: Vec<u64>,
    pub prompts: Vec<PromptRecord>,
    pub events: Vec<Event>,
}

/// Whether resource `eid` is referenced by some workspace item outside the
/// close batch — closing the batch then cannot lose access to it.
pub open spec fn kept_elsewhere(eid: u64, workspace: Seq<ItemView>, batch: Seq<u64>) -> bool {
    exists|w: int|
        0 <= w < workspace.len() && !batch.contains(workspace[w].id)
            && workspace[w].entry_ids.contains(eid)
}

/// The error kinds a close or traversal operation can surface.  A user's
/// Cancel is not an error and is reported separately in the outcome.
#[derive(Clone, Copy, PartialEq, Eq, Structural, Debug)]
pub enum ErrorKind {
    SaveFailed,
    ReloadFailed,
    LoadFailed,
}

/// How one item's save decision ended: go on and close it, the user
/// cancelled the whole batch, or an I/O failure aborted it.
#[derive(Clone, Copy, PartialEq, Eq, Structural, Debug)]
pub enum SaveItemResult {
    Proceed,
    Cancelled,
    Failed(ErrorKind),
}

/// The environment's answers to the workflow's suspension points, fixed in
/// advance and consumed in order: modal prompt choices, save-as destination
/// paths, and the success of each disk operation.  A missing choice or path
/// reads as a dismissal; a missing disk result reads as success.  The
/// workflow is verified for every value of these answers.
#[derive(Debug)]
pub struct PromptAnswers {
    pub choices: Vec<Option<usize>>,
    pub next_choice: usize,
    pub paths: Vec<Option<ProjectPath>>,
    pub next_path: usize,
    pub disk_results: Vec<bool>,
    pub next_disk: usize,
}

impl PromptAnswers {
    /// Answers where every prompt is dismissed and every disk operation
    /// succeeds.
    pub fn new() -> (r: PromptAnswers)
        ensures
            r.choices@.len() == 0,
            r.paths@.len() == 0,
            r.disk_results@.len() == 0,
            r.next_choice == 0,
            r.next_path == 0,
            r.next_disk == 0,
    {
        PromptAnswers {
            choices: Vec::new(),
            next_choice: 0,
            paths: Vec::new(),
            next_path: 0,
            disk_results: Vec::new(),
            next_disk: 0,
        }
    }

    /// The next modal answer; a dismissal once the script has run out.
    pub fn take_choice(&mut self) -> (r: Option<usize>)
        ensures
            old(self).next_choice < old(self).choices@.len() ==> r == old(self).choices@[old(
                self,
            ).next_choice as int] && *final(self) == (PromptAnswers {
                next_choice: (old(self).next_choice + 1) as usize,
                ..*old(self)
            }),
            old(self).next_choice >= old(self).choices@.len() ==> r is None && *final(self) == *old(self),
    {
        if self.next_choice < self.choices.len() {
            let r = self.choices[self.next_choice];
            self.next_choice = self.next_choice + 1;
            r
        } else {
            None
        }
    }

    /// The next save-as destination; a cancellation once the script has run
    /// out.
    pub fn take_path(&mut self) -> (r: Option<ProjectPath>)
        ensures
            old(self).next_path < old(self).paths@.len() ==> r == old(self).paths@[old(
                self,
            ).next_path as int] && *final(self) == (PromptAnswers {
                next_path: (old(self).next_path + 1) as usize,
                ..*old(self)
            }),
            old(self).next_path >= old(self).paths@.len() ==> r is None && *final(self) == *old(self),
    {
        if self.next_path < self.paths.len() {
            let r = self.paths[self.next_path];
            self.next_path = self.next_path + 1;
            r
        } else {
            None
        }
    }

    /// Whether the next disk operation succeeds; success once the script has
    /// run out.
    pub fn take_disk_result(&mut self) -> (r: bool)
        ensures
            old(self).next_disk < old(self).disk_results@.len() ==> r == old(
                self,
            ).disk_results@[old(self).next_disk as int] && *final(self) == (PromptAnswers {
                next_disk: (old(self).next_disk + 1) as usize,
                ..*old(self)
            }),
            old(self).next_disk >= old(self).disk_results@.len() ==> r && *final(self) == *old(self),
    {
        if self.next_disk < self.disk_results.len() {
            let r = self.disk_results[self.next_disk];
            self.next_disk = self.next_disk + 1;
            r
        } else {
            true
        }
    }
}

impl Pane {
    /// The observable result of the item at `index` finishing a save: its
    /// edits are on disk, so it is neither dirty nor in conflict.
    fn apply_save(&mut self, index: usize)
        requires
            index < old(self)@.items.len(),
        ensures
            final(self)@ == (PaneView {
                items: old(self)@.items.update(
                    index as int,
                    crate::item::ItemView {
                        dirty: false,
                        conflict: false,
                        ..old(self)@.items[index as int]
                    },
                ),
                ..old(self)@
            }),
    {
        let mut it = self.items[index].clone();
        it.dirty = false;
        it.conflict = false;
        self.items.set(index, it);
        proof {
            assert(self@.items =~= old(self)@.items.update(
                index as int,
                crate::item::ItemView {
                    dirty: false,
                    conflict: false,
                    ..old(self)@.items[index as int]
                },
            ));
        }
    }

    /// The observable result of the item at `index` finishing a reload from
    /// disk: its in-memory edits are discarded, so it is neither dirty nor
    /// in conflict.
    fn apply_reload(&mut self, index: usize)
        requires
            index < old(self)@.items.len(),
        ensures
            final(self)@ == (PaneView {
                items: old(self)@.items.update(
                    index as int,
                    crate::item::ItemView {
                        dirty: false,
                        conflict: false,
                        ..old(self)@.items[index as int]
                    },
                ),
                ..old(self)@
            }),
    {
        let mut it = self.items[index].clone();
        it.dirty = false;
        it.conflict = false;
        self.items.set(index, it);
        proof {
            assert(self@.items =~= old(self)@.items.update(
                index as int,
                crate::item::ItemView {
                    dirty: false,
                    conflict: false,
                    ..old(self)@.items[index as int]
                },
            ));
        }
    }

    /// The observable result of the item at `index` finishing a save to a
    /// fresh destination: clean, and now carrying that resource path.
    fn apply_save_as(&mut self, index: usize, path: ProjectPath)
        requires
            index < old(self)@.items.len(),
        ensures
            final(self)@ == (PaneView {
                items: old(self)@.items.update(
                    index as int,
                    crate::item::ItemView {
                        dirty: false,
                        conflict: false,
                        path: Some(path),
                        ..old(self)@.items[index as int]
                    },
                ),
                ..old(self)@
            }),
    {
        let mut it = self.items[index].clone();
        it.dirty = false;
        it.conflict = false;
        it.path = Some(path);
        self.items.set(index, it);
        proof {
            assert(self@.items =~= old(self)@.items.update(
                index as int,
                crate::item::ItemView {
                    dirty: false,
                    conflict: false,
                    path: Some(path),
                    ..old(self)@.items[index as int]
                },
            ));
        }
    }

    /// Decides and carries out the save handling for the item at `item_ix`
    /// before it is closed.  A conflicting, saveable item asks
    /// Overwrite / Discard / Cancel; a dirty item that can be saved (or is a
    /// singleton that can save as) asks Save / Don't Save / Cancel — unless
    /// an autosave-on-focus-change policy would save it anyway, in which
    /// case it is saved without asking.  A singleton without in-place save
    /// asks for a destination path.  Cancelling any prompt cancels the whole
    /// batch; a failed disk operation aborts it.  A clean, conflict-free
    /// item needs nothing and always proceeds untouched.
    #[verifier::rlimit(100)]
    pub fn save_item(
        &mut self,
        item_ix: usize,
        should_prompt_for_save: bool,
        autosave_on_focus: bool,
        env: &mut PromptAnswers,
    ) -> (r: (SaveItemResult, Vec<Event>))
        requires
            pane_wf(old(self)@),
            item_ix < old(self)@.items.len(),
        ensures
            pane_wf(final(self)@),
            final(self)@ == save_item_spec(
                old(self)@,
                item_ix as int,
                should_prompt_for_save,
                autosave_on_focus,
                *old(env),
            ).0,
            *final(env) == save_item_spec(
                old(self)@,
                item_ix as int,
                should_prompt_for_save,
                autosave_on_focus,
                *old(env),
            ).1,
            r.0 == save_item_spec(
                old(self)@,
                item_ix as int,
                should_prompt_for_save,
                autosave_on_focus,
                *old(env),
            ).2,
            r.1@ == save_item_events_spec(
                old(self)@,
                item_ix as int,
                should_prompt_for_save,
                autosave_on_focus,
            ),
            final(self)@.items.len() == old(self)@.items.len(),
            final(self)@.active == (if prompts_now(
                old(self)@.items[item_ix as int],
                should_prompt_for_save,
                autosave_on_focus,
            ) {
                item_ix as int
            } else {
                old(self)@.active
            }),
            forall|k: int|
                0 <= k < old(self)@.items.len() ==> (#[trigger] final(self)@.items[k]).id == old(
                    self,
                )@.items[k].id && final(self)@.items[k].entry_ids == old(self)@.items[k].entry_ids
                    && final(self)@.items[k].singleton == old(self)@.items[k].singleton
                    && final(self)@.items[k].descriptions == old(self)@.items[k].descriptions,
            !need_any_save(old(self)@.items[item_ix as int]) ==> r.0 is Proceed && final(self)@
                == old(self)@ && *final(env) == *old(env) && r.1@.len() == 0,
            r.0 is Proceed && old(self)@.items[item_ix as int].conflict && old(
                self,
            )@.items[item_ix as int].can_save ==> !final(self)@.items[item_ix as int].dirty
                && !final(self)@.items[item_ix as int].conflict,
            will_autosave(old(self)@.items[item_ix as int], autosave_on_focus) && old(
                self,
            )@.items[item_ix as int].can_save && !old(self)@.items[item_ix as int].conflict
                ==> final(env).next_choice == old(env).next_choice,
            count_removes(r.1@) == 0,
    {
        proof {
            reveal(save_item_spec);
        }
        let ghost pre = self@;
        let it = &self.items[item_ix];
        let has_conflict = it.conflict;
        let is_dirty = it.dirty;
        let can_save = it.can_save;
        let is_singleton = it.singleton;
        let mut events: Vec<Event> = Vec::new();
        if has_conflict && can_save {
            let mut activation = self.activate_item(item_ix, true, true, false);
            events.append(&mut activation);
            proof {
                lemma_activate_no_removes(pre, item_ix as int);
            }
            match env.take_choice() {
                Some(0) => {
                    if env.take_disk_result() {
                        self.apply_save(item_ix);
                    } else {
                        return (SaveItemResult::Failed(ErrorKind::SaveFailed), events);
                    }
                },
                Some(1) => {
                    if env.take_disk_result() {
                        self.apply_reload(item_ix);
                    } else {
                        return (SaveItemResult::Failed(ErrorKind::ReloadFailed), events);
                    }
                },
                _ => {
                    return (SaveItemResult::Cancelled, events);
                },
            }
        } else if is_dirty && (can_save || is_singleton) {
            let autosaves = autosave_on_focus && self.items[item_ix].can_autosave();
            let should_save = if should_prompt_for_save && !autosaves {
                let mut activation = self.activate_item(item_ix, true, true, false);
                events.append(&mut activation);
                proof {
                    lemma_activate_no_removes(pre, item_ix as int);
                }
                match env.take_choice() {
                    Some(0) => true,
                    Some(1) => false,
                    _ => {
                        return (SaveItemResult::Cancelled, events);
                    },
                }
            } else {
                true
            };
            if should_save {
                if can_save {
                    if env.take_disk_result() {
                        self.apply_save(item_ix);
                    } else {
                        return (SaveItemResult::Failed(ErrorKind::SaveFailed), events);
                    }
                } else {
                    match env.take_path() {
                        Some(path) => {
                            if env.take_disk_result() {
                                self.apply_save_as(item_ix, path);
                            } else {
                                return (SaveItemResult::Failed(ErrorKind::SaveFailed), events);
                            }
                        },
                        None => {
                            return (SaveItemResult::Cancelled, events);
                        },
                    }
                }
            }
        }
        (SaveItemResult::Proceed, events)
    }
}

/// Whether the item needs any save handling before closing: a conflict it
/// can overwrite, or unsaved edits it can save in place or save as.
pub open spec fn need_any_save(it: crate::item::ItemView) -> bool {
    (it.conflict && it.can_save) || (it.dirty && (it.can_save || it.singleton))
}

/// The script after one modal prompt, and the answer given (a dismissal once
/// the script has run out) — the mirror of `take_choice`.
pub open spec fn spec_take_choice(env: PromptAnswers) -> (PromptAnswers, Option<usize>) {
    if env.next_choice < env.choices@.len() {
        (
            PromptAnswers { next_choice: (env.next_choice + 1) as usize, ..env },
            env.choices@[env.next_choice as int],
        )
    } else {
        (env, None)
    }
}

/// The script after one destination prompt, and the path given — the mirror
/// of `take_path`.
pub open spec fn spec_take_path(env: PromptAnswers) -> (PromptAnswers, Option<ProjectPath>) {
    if env.next_path < env.paths@.len() {
        (
            PromptAnswers { next_path: (env.next_path + 1) as usize, ..env },
            env.paths@[env.next_path as int],
        )
    } else {
        (env, None)
    }
}

/// The script after one disk operation, and whether it succeeded (success
/// once the script has run out) — the mirror of `take_disk_result`.
pub open spec fn spec_take_disk(env: PromptAnswers) -> (PromptAnswers, bool) {
    if env.next_disk < env.disk_results@.len() {
        (
            PromptAnswers { next_disk: (env.next_disk + 1) as usize, ..env },
            env.disk_results@[env.next_disk as int],
        )
    } else {
        (env, true)
    }
}

/// The pane once the item at `ix` has its edits settled on disk: neither
/// dirty nor in conflict.
pub open spec fn cleaned_at(p: PaneView, ix: int) -> PaneView {
    PaneView {
        items: p.items.update(
            ix,
            ItemView { dirty: false, conflict: false, ..p.items[ix] },
        ),
        ..p
    }
}

/// The pane once the item at `ix` was saved to a fresh destination: clean,
/// and carrying that resource path.
pub open spec fn cleaned_at_path(p: PaneView, ix: int, path: ProjectPath) -> PaneView {
    PaneView {
        items: p.items.update(
            ix,
            ItemView { dirty: false, conflict: false, path: Some(path), ..p.items[ix] },
        ),
        ..p
    }
}

/// The saving half of `save_item` once the decision to save fell: save in
/// place when the item can, else ask for a destination and save as; a false
/// disk result fails, a declined destination cancels.
pub open spec fn save_branch_spec(p: PaneView, ix: int, can_save: bool, env: PromptAnswers) -> (
    PaneView,
    PromptAnswers,
    SaveItemResult,
) {
    if can_save {
        let taken = spec_take_disk(env);
        if taken.1 {
            (cleaned_at(p, ix), taken.0, SaveItemResult::Proceed)
        } else {
            (p, taken.0, SaveItemResult::Failed(ErrorKind::SaveFailed))
        }
    } else {
        let taken = spec_take_path(env);
        match taken.1 {
            Some(path) => {
                let taken2 = spec_take_disk(taken.0);
                if taken2.1 {
                    (cleaned_at_path(p, ix, path), taken2.0, SaveItemResult::Proceed)
                } else {
                    (p, taken2.0, SaveItemResult::Failed(ErrorKind::SaveFailed))
                }
            },
            None => (p, taken.0, SaveItemResult::Cancelled),
        }
    }
}

/// The complete transition of `save_item`, mapping the scripted answers to
/// the final pane, the consumed script and the result.  A conflicting,
/// saveable item is brought to the front and asked Overwrite / Discard /
/// Cancel: answer 0 saves, answer 1 reloads (each failing with the matching
/// error on a false disk result), anything else cancels.  A dirty item that
/// can save (or save as) is asked Save / Don't Save / Cancel the same way —
/// unless the prompt is suppressed or an autosave policy would save it
/// anyway, in which case it is saved silently.  A clean, conflict-free item
/// proceeds untouched.
#[verifier::opaque]
pub open spec fn save_item_spec(
    p: PaneView,
    ix: int,
    should_prompt: bool,
    autosave_on_focus: bool,
    env: PromptAnswers,
) -> (PaneView, PromptAnswers, SaveItemResult) {
    let it = p.items[ix];
    if it.conflict && it.can_save {
        let p1 = activate_spec(p, ix, false);
        let taken = spec_take_choice(env);
        if taken.1 == Some(0usize) {
            let taken2 = spec_take_disk(taken.0);
            if taken2.1 {
                (cleaned_at(p1, ix), taken2.0, SaveItemResult::Proceed)
            } else {
                (p1, taken2.0, SaveItemResult::Failed(ErrorKind::SaveFailed))
            }
        } else if taken.1 == Some(1usize) {
            let taken2 = spec_take_disk(taken.0);
            if taken2.1 {
                (cleaned_at(p1, ix), taken2.0, SaveItemResult::Proceed)
            } else {
                (p1, taken2.0, SaveItemResult::Failed(ErrorKind::ReloadFailed))
            }
        } else {
            (p1, taken.0, SaveItemResult::Cancelled)
        }
    } else if it.dirty && (it.can_save || it.singleton) {
        if should_prompt && !will_autosave(it, autosave_on_focus) {
            let p1 = activate_spec(p, ix, false);
            let taken = spec_take_choice(env);
            if taken.1 == Some(0usize) {
                save_branch_spec(p1, ix, it.can_save, taken.0)
            } else if taken.1 == Some(1usize) {
                (p1, taken.0, SaveItemResult::Proceed)
            } else {
                (p1, taken.0, SaveItemResult::Cancelled)
            }
        } else {
            save_branch_spec(p, ix, it.can_save, env)
        }
    } else {
        (p, env, SaveItemResult::Proceed)
    }
}

/// The signals `save_item` emits: the activation pair when a modal shows,
/// nothing otherwise.
pub open spec fn save_item_events_spec(
    p: PaneView,
    ix: int,
    should_prompt: bool,
    autosave_on_focus: bool,
) -> Seq<Event> {
    if prompts_now(p.items[ix], should_prompt, autosave_on_focus) {
        activate_events(p, ix, true, false)
    } else {
        Seq::<Event>::empty()
    }
}

/// Whether `save_item` puts a modal prompt in front of the user (and so
/// first brings the item to the front): a conflict it can overwrite, or
/// unsaved edits that neither an autosave policy nor a declined prompt
/// request would handle silently.
pub open spec fn prompts_now(
    it: crate::item::ItemView,
    should_prompt: bool,
    autosave_on_focus: bool,
) -> bool {
    (it.conflict && it.can_save) || (it.dirty && (it.can_save || it.singleton) && should_prompt
        && !will_autosave(it, autosave_on_focus))
}

/// Whether an autosave-on-focus-change policy would save the item anyway.
pub open spec fn will_autosave(it: crate::item::ItemView, autosave_on_focus: bool) -> bool {
    autosave_on_focus && it.spec_can_autosave()
}

/// Whether `v` holds `x`.
fn vec_contains_u64(v: &Vec<u64>, x: u64) -> (r: bool)
    ensures
        r == v@.contains(x),
{
    let mut i: usize = 0;
    while i < v.len()
        invariant
            i <= v@.len(),
            forall|k: int| 0 <= k < i ==> v@[k] != x,
        decreases v@.len() - i,
    {
        if v[i] == x {
            return true;
        }
        i = i + 1;
    }
    false
}

/// Appending to a sequence only adds the appended element to what it holds.
proof fn lemma_contains_push(s: Seq<u64>, e: u64)
    ensures
        forall|x: u64| s.push(e).contains(x) == (s.contains(x) || x == e),
{
    assert forall|x: u64| s.push(e).contains(x) == (s.contains(x) || x == e) by {
        if s.contains(x) {
            let w = choose|w: int| 0 <= w < s.len() && s[w] == x;
            assert(s.push(e)[w] == x);
        }
        assert(s.push(e)[s.len() as int] == e);
        if s.push(e).contains(x) {
            let w = choose|w: int| 0 <= w < s.push(e).len() && s.push(e)[w] == x;
            if w < s.len() {
                assert(s[w] == x);
            }
        }
    }
}

/// The save-prompt de-duplication invariants of a close batch: each recorded
/// single-resource consideration has its resource in the accounted set, and
/// no two of them name the same resource.
pub open spec fn prompts_dedup(prompts: Seq<PromptRecord>, saved: Seq<u64>) -> bool {
    &&& forall|p: int|
        0 <= p < prompts.len() && (#[trigger] prompts[p]).remaining@.len() == 1
            ==> saved.contains(prompts[p].remaining@[0])
    &&& forall|a: int, b: int|
        0 <= a < b < prompts.len() && prompts[a].remaining@.len() == 1
            && prompts[b].remaining@.len() == 1 ==> prompts[a].remaining@[0]
            != prompts[b].remaining@[0]
}

/// Where a close batch stands: still working through candidates, or ended
/// with its outcome.
pub enum BatchStatus {
    Running,
    Done(CloseOutcome),
}

/// The complete state a close batch threads from candidate to candidate:
/// the pane, the unconsumed part of the answer script, the resources
/// already accounted for by a save decision, and everything reported at the
/// end.
#[verifier::ext_equal]
pub ghost struct BatchState {
    pub pane: PaneView,
    pub env: PromptAnswers,
    pub saved: Seq<u64>,
    pub closed: Seq<u64>,
    pub prompts: Seq<(u64, Seq<u64>)>,
    pub events: Seq<Event>,
    pub status: BatchStatus,
}

/// The identities of the items in `batch`, pane order, restricted to one
/// singleton class.
pub open spec fn batch_filter(items: Seq<ItemView>, batch: Seq<u64>, want_singleton: bool) -> Seq<
    u64,
>
    decreases items.len(),
{
    if items.len() == 0 {
        Seq::<u64>::empty()
    } else {
        let rest = batch_filter(items.drop_last(), batch, want_singleton);
        if items.last().singleton == want_singleton && batch.contains(items.last().id) {
            rest.push(items.last().id)
        } else {
            rest
        }
    }
}

/// The identities of every item but the one with `active_id`, pane order —
/// the batch `close_inactive_items` closes.
pub open spec fn non_active_ids(items: Seq<ItemView>, active_id: u64) -> Seq<u64>
    decreases items.len(),
{
    if items.len() == 0 {
        Seq::<u64>::empty()
    } else {
        let rest = non_active_ids(items.drop_last(), active_id);
        if items.last().id != active_id {
            rest.push(items.last().id)
        } else {
            rest
        }
    }
}

/// The order a close batch processes its candidates: singleton items first,
/// then composite items, each class in pane order.
pub open spec fn close_order(items: Seq<ItemView>, batch: Seq<u64>) -> Seq<u64> {
    batch_filter(items, batch, true) + batch_filter(items, batch, false)
}

/// The item's backing resources that are at stake: those not referenced by
/// any workspace item outside the batch, in the item's order.
pub open spec fn spec_retained(entry_ids: Seq<u64>, ws: Seq<ItemView>, batch: Seq<u64>) -> Seq<u64>
    decreases entry_ids.len(),
{
    if entry_ids.len() == 0 {
        Seq::<u64>::empty()
    } else {
        let rest = spec_retained(entry_ids.drop_last(), ws, batch);
        if kept_elsewhere(entry_ids.last(), ws, batch) {
            rest
        } else {
            rest.push(entry_ids.last())
        }
    }
}

/// Walking the retained resources from position `k`: the first one not yet
/// accounted for is added to the accounted set and makes the save decision
/// due; finding none leaves the set alone.
pub open spec fn spec_account(saved: Seq<u64>, retained: Seq<u64>, k: int) -> (Seq<u64>, bool)
    decreases retained.len() - k,
{
    if k < 0 || k >= retained.len() {
        (saved, false)
    } else if !saved.contains(retained[k]) {
        (saved.push(retained[k]), true)
    } else {
        spec_account(saved, retained, k + 1)
    }
}

/// The recorded save considerations, as plain values.
pub open spec fn prompt_views(prompts: Seq<PromptRecord>) -> Seq<(u64, Seq<u64>)> {
    prompts.map_values(|r: PromptRecord| (r.item_id, r.remaining@))
}

/// One candidate's turn in a close batch: skip it when it is gone; decide
/// whether a save consideration is due (an unbacked item always, a backed
/// one when some retained resource is newly accounted); run the save
/// handling when it is; then take the item out of the pane.  A Cancel or a
/// disk failure ends the batch; an ended batch ignores further candidates.
#[verifier::opaque]
pub open spec fn close_step(
    s: BatchState,
    cid: u64,
    ws: Seq<ItemView>,
    batch: Seq<u64>,
    autosave: bool,
) -> BatchState {
    if !(s.status is Running) {
        s
    } else if !contains_id(s.pane.items, cid) {
        s
    } else {
        let ix = index_of(s.pane.items, cid);
        let entry_ids = s.pane.items[ix].entry_ids;
        let remaining = if entry_ids.len() == 0 {
            Seq::<u64>::empty()
        } else {
            spec_retained(entry_ids, ws, batch)
        };
        let accounted = if entry_ids.len() == 0 {
            (s.saved, true)
        } else {
            spec_account(s.saved, remaining, 0)
        };
        let s1 = BatchState { saved: accounted.0, ..s };
        if accounted.1 {
            let stepped = save_item_spec(s1.pane, ix, true, autosave, s1.env);
            let s2 = BatchState {
                pane: stepped.0,
                env: stepped.1,
                prompts: s1.prompts.push((cid, remaining)),
                events: s1.events + save_item_events_spec(s1.pane, ix, true, autosave),
                ..s1
            };
            match stepped.2 {
                SaveItemResult::Proceed => close_removal(s2, cid),
                SaveItemResult::Cancelled => BatchState {
                    status: BatchStatus::Done(CloseOutcome::Cancelled),
                    ..s2
                },
                SaveItemResult::Failed(kind) => BatchState {
                    status: BatchStatus::Done(CloseOutcome::Failed(kind)),
                    ..s2
                },
            }
        } else {
            close_removal(s1, cid)
        }
    }
}

/// The removal half of one candidate's turn.
pub open spec fn close_removal(s: BatchState, cid: u64) -> BatchState {
    BatchState {
        pane: crate::pane::remove_item_spec(s.pane, cid),
        closed: s.closed.push(cid),
        events: s.events + crate::pane::remove_item_events(s.pane, cid),
        ..s
    }
}

/// A whole close batch: every candidate's turn in order, and a batch still
/// running at the end completed.
#[verifier::opaque]
pub open spec fn close_run(
    s: BatchState,
    order: Seq<u64>,
    ws: Seq<ItemView>,
    batch: Seq<u64>,
    autosave: bool,
) -> BatchState
    decreases order.len(),
{
    if order.len() == 0 {
        if s.status is Running {
            BatchState { status: BatchStatus::Done(CloseOutcome::Completed), ..s }
        } else {
            s
        }
    } else {
        close_run(close_step(s, order[0], ws, batch, autosave), order.drop_first(), ws, batch, autosave)
    }
}

/// One candidate's turn peels off the front of the remaining order.
proof fn lemma_run_advance(
    s: BatchState,
    order: Seq<u64>,
    c: int,
    ws: Seq<ItemView>,
    batch: Seq<u64>,
    autosave: bool,
)
    requires
        0 <= c < order.len(),
    ensures
        close_run(s, order.skip(c), ws, batch, autosave) == close_run(
            close_step(s, order[c], ws, batch, autosave),
            order.skip(c + 1),
            ws,
            batch,
            autosave,
        ),
{
    reveal(close_run);
    assert(order.skip(c)[0] == order[c]);
    assert(order.skip(c).drop_first() =~= order.skip(c + 1));
}

/// An ended batch is inert: the remaining candidates change nothing.
proof fn lemma_run_done(
    s: BatchState,
    order: Seq<u64>,
    ws: Seq<ItemView>,
    batch: Seq<u64>,
    autosave: bool,
)
    requires
        !(s.status is Running),
    ensures
        close_run(s, order, ws, batch, autosave) == s,
    decreases order.len(),
{
    reveal(close_run);
    reveal(close_step);
    if order.len() > 0 {
        lemma_run_done(s, order.drop_first(), ws, batch, autosave);
    }
}

/// The complete relation a close batch establishes between its inputs and
/// everything it leaves behind: the final pane, the consumed script and the
/// whole report equal the run of the batch over the candidates in
/// processing order.
pub open spec fn close_post_full(
    pre: PaneView,
    ws: Seq<ItemView>,
    batch: Seq<u64>,
    autosave: bool,
    env0: PromptAnswers,
    post: PaneView,
    env1: PromptAnswers,
    r: CloseReport,
) -> bool {
    let fin = close_run(batch_init(pre, env0), close_order(pre.items, batch), ws, batch, autosave);
    &&& post == fin.pane
    &&& env1 == fin.env
    &&& r.closed@ == fin.closed
    &&& prompt_views(r.prompts@) == fin.prompts
    &&& r.events@ == fin.events
    &&& BatchStatus::Done(r.outcome) == fin.status
}

/// A batch about to start: nothing closed, considered or accounted yet.
pub open spec fn batch_init(pre: PaneView, env0: PromptAnswers) -> BatchState {
    BatchState {
        pane: pre,
        env: env0,
        saved: Seq::<u64>::empty(),
        closed: Seq::<u64>::empty(),
        prompts: Seq::<(u64, Seq<u64>)>::empty(),
        events: Seq::<Event>::empty(),
        status: BatchStatus::Running,
    }
}

/// A batch still running, mid-way through its candidates.
pub open spec fn batch_mid(
    pane: PaneView,
    env: PromptAnswers,
    saved: Seq<u64>,
    closed: Seq<u64>,
    prompts: Seq<(u64, Seq<u64>)>,
    events: Seq<Event>,
) -> BatchState {
    BatchState { pane, env, saved, closed, prompts, events, status: BatchStatus::Running }
}

impl Pane {
    /// Closes every open item whose identity is in `item_ids_to_close`,
    /// prompting to save as needed and answering prompts from `env`.
    /// Candidates are processed singleton items first; each is re-resolved
    /// against the pane's current state when its turn comes.  A save prompt
    /// is considered for an item with no backing resource at all, and
    /// otherwise only when one of its resources is neither open outside the
    /// batch nor already accounted for by an earlier save decision in this
    /// batch — the same resource is never brought to the user twice.  A
    /// Cancel stops the batch, leaving items already closed closed and the
    /// rest open; a disk failure aborts it with the error.
    #[verifier::loop_isolation(false)]
    #[verifier::rlimit(100)]
    pub fn close_items(
        &mut self,
        workspace_items: &Vec<crate::item::ItemState>,
        item_ids_to_close: &Vec<u64>,
        autosave_on_focus: bool,
        env: &mut PromptAnswers,
    ) -> (r: CloseReport)
        requires
            pane_wf(old(self)@),
        ensures
            pane_wf(final(self)@),
            forall|id: u64|
                #![trigger contains_id(final(self)@.items, id)]
                #![trigger contains_id(old(self)@.items, id)]
                contains_id(final(self)@.items, id) == (contains_id(old(self)@.items, id)
                    && !r.closed@.contains(id)),
            forall|k: int| 0 <= k < r.closed@.len() ==> item_ids_to_close@.contains(r.closed@[k]),
            forall|k: int|
                0 <= k < r.closed@.len() ==> contains_id(old(self)@.items, #[trigger] r.closed@[k]),
            forall|a: int, b: int|
                0 <= a < b < r.closed@.len() ==> r.closed@[a] != r.closed@[b],
            forall|k: int|
                0 <= k < r.prompts@.len() ==> item_ids_to_close@.contains(
                    (#[trigger] r.prompts@[k]).item_id,
                ),
            forall|a: int, b: int|
                0 <= a < b < r.prompts@.len() && r.prompts@[a].remaining@.len() == 1
                    && r.prompts@[b].remaining@.len() == 1 ==> r.prompts@[a].remaining@[0]
                    != r.prompts@[b].remaining@[0],
            forall|k: int, e: int|
                0 <= k < r.prompts@.len() && 0 <= e < r.prompts@[k].remaining@.len()
                    ==> !kept_elsewhere(
                    #[trigger] r.prompts@[k].remaining@[e],
                    views(workspace_items@),
                    item_ids_to_close@,
                ),
            count_removes(r.events@) == if final(self)@.items.len() == 0 && r.closed@.len() > 0 {
                1int
            } else {
                0int
            },
            r.outcome is Completed ==> forall|id: u64|
                item_ids_to_close@.contains(id) ==> !contains_id(final(self)@.items, id),
            close_post_full(
                old(self)@,
                views(workspace_items@),
                item_ids_to_close@,
                autosave_on_focus,
                *old(env),
                final(self)@,
                *final(env),
                r,
            ),
    {
        let ghost pre = self@;
        let ghost env0 = *env;
        let ghost ws_g = views(workspace_items@);
        let ghost batch_g = item_ids_to_close@;
        // Snapshot the candidates, singleton items first, so that a resource
        // open both as a plain document and inside a composite view prompts
        // on the plain document.
        let mut order: Vec<u64> = Vec::new();
        let mut i: usize = 0;
        while i < self.items.len()
            invariant
                i <= self.items@.len(),
                self@ == pre,
                forall|k: int| 0 <= k < order@.len() ==> item_ids_to_close@.contains(order@[k]),
                forall|j: int|
                    0 <= j < i && item_ids_to_close@.contains((#[trigger] pre.items[j]).id)
                        && pre.items[j].singleton ==> order@.contains(pre.items[j].id),
                order@ == batch_filter(pre.items.take(i as int), batch_g, true),
            decreases self.items@.len() - i,
        {
            proof {
                assert(pre.items.take(i + 1).drop_last() =~= pre.items.take(i as int));
                assert(pre.items.take(i + 1).last() == pre.items[i as int]);
            }
            let it = &self.items[i];
            if it.singleton && vec_contains_u64(item_ids_to_close, it.id) {
                let ghost before = order@;
                order.push(it.id);
                proof {
                    assert(order@ == before.push(pre.items[i as int].id));
                    lemma_contains_push(before, pre.items[i as int].id);
                    assert forall|j: int|
                        0 <= j <= i && item_ids_to_close@.contains((#[trigger] pre.items[j]).id)
                            && pre.items[j].singleton implies order@.contains(
                        pre.items[j].id,
                    ) by {
                        if j < i {
                            assert(before.contains(pre.items[j].id));
                            assert(order@.contains(pre.items[j].id));
                        } else {
                            assert(before.push(pre.items[i as int].id)[before.len() as int]
                                == pre.items[i as int].id);
                            assert(order@.contains(pre.items[i as int].id));
                        }
                    }
                }
            }
            i = i + 1;
        }
        proof {
            assert(pre.items.take(pre.items.len() as int) =~= pre.items);
            assert(order@ + batch_filter(pre.items.take(0), batch_g, false) =~= order@);
        }
        let mut i: usize = 0;
        while i < self.items.len()
            invariant
                i <= self.items@.len(),
                self@ == pre,
                forall|k: int| 0 <= k < order@.len() ==> item_ids_to_close@.contains(order@[k]),
                forall|j: int|
                    0 <= j < pre.items.len() && item_ids_to_close@.contains(
                        (#[trigger] pre.items[j]).id,
                    ) && pre.items[j].singleton ==> order@.contains(pre.items[j].id),
                forall|j: int|
                    0 <= j < i && item_ids_to_close@.contains((#[trigger] pre.items[j]).id)
                        && !pre.items[j].singleton ==> order@.contains(pre.items[j].id),
                order@ == batch_filter(pre.items, batch_g, true) + batch_filter(
                    pre.items.take(i as int),
                    batch_g,
                    false,
                ),
            decreases self.items@.len() - i,
        {
            proof {
                assert(pre.items.take(i + 1).drop_last() =~= pre.items.take(i as int));
                assert(pre.items.take(i + 1).last() == pre.items[i as int]);
                assert((batch_filter(pre.items, batch_g, true) + batch_filter(
                    pre.items.take(i as int),
                    batch_g,
                    false,
                )).push(pre.items[i as int].id) =~= batch_filter(pre.items, batch_g, true)
                    + batch_filter(pre.items.take(i as int), batch_g, false).push(
                    pre.items[i as int].id,
                ));
            }
            let it = &self.items[i];
            if !it.singleton && vec_contains_u64(item_ids_to_close, it.id) {
                let ghost before = order@;
                order.push(it.id);
                proof {
                    assert(order@ == before.push(pre.items[i as int].id));
                    lemma_contains_push(before, pre.items[i as int].id);
                    assert forall|j: int|
                        0 <= j < pre.items.len() && item_ids_to_close@.contains(
                            (#[trigger] pre.items[j]).id,
                        ) && pre.items[j].singleton implies order@.contains(pre.items[j].id) by {
                        assert(before.contains(pre.items[j].id));
                    }
                    assert forall|j: int|
                        0 <= j <= i && item_ids_to_close@.contains((#[trigger] pre.items[j]).id)
                            && !pre.items[j].singleton implies order@.contains(
                        pre.items[j].id,
                    ) by {
                        if j < i {
                            assert(before.contains(pre.items[j].id));
                            assert(order@.contains(pre.items[j].id));
                        } else {
                            assert(before.push(pre.items[i as int].id)[before.len() as int]
                                == pre.items[i as int].id);
                            assert(order@.contains(pre.items[i as int].id));
                        }
                    }
                }
            }
            i = i + 1;
        }
        proof {
            assert(pre.items.take(pre.items.len() as int) =~= pre.items);
            assert(order@ == close_order(pre.items, batch_g));
        }
        // Work through the candidates, re-resolving each against the pane's
        // current state.
        let mut saved_project_entry_ids: Vec<u64> = Vec::new();
        let mut closed: Vec<u64> = Vec::new();
        let mut prompts: Vec<PromptRecord> = Vec::new();
        let mut events: Vec<Event> = Vec::new();
        proof {
            assert(order@.skip(0) =~= order@);
            assert(prompt_views(Seq::<PromptRecord>::empty()) =~= Seq::<(u64, Seq<u64>)>::empty());
            assert(batch_mid(
                self@,
                *env,
                Seq::<u64>::empty(),
                Seq::<u64>::empty(),
                prompt_views(Seq::<PromptRecord>::empty()),
                Seq::<Event>::empty(),
            ) =~= batch_init(pre, env0));
        }
        let mut c: usize = 0;
        while c < order.len()
            invariant
                c <= order@.len(),
                pane_wf(self@),
                close_run(batch_init(pre, env0), order@, ws_g, batch_g, autosave_on_focus)
                    == close_run(
                    batch_mid(
                        self@,
                        *env,
                        saved_project_entry_ids@,
                        closed@,
                        prompt_views(prompts@),
                        events@,
                    ),
                    order@.skip(c as int),
                    ws_g,
                    batch_g,
                    autosave_on_focus,
                ),
                forall|id: u64|
                    contains_id(self@.items, id) == (contains_id(pre.items, id)
                        && !closed@.contains(id)),
                forall|k: int| 0 <= k < closed@.len() ==> item_ids_to_close@.contains(closed@[k]),
                forall|k: int|
                    0 <= k < closed@.len() ==> contains_id(pre.items, #[trigger] closed@[k]),
                forall|a: int, b: int| 0 <= a < b < closed@.len() ==> closed@[a] != closed@[b],
                forall|k: int|
                    0 <= k < prompts@.len() ==> item_ids_to_close@.contains(
                        (#[trigger] prompts@[k]).item_id,
                    ),
                prompts_dedup(prompts@, saved_project_entry_ids@),
                forall|k: int, e: int|
                    0 <= k < prompts@.len() && 0 <= e < prompts@[k].remaining@.len()
                        ==> !kept_elsewhere(
                        #[trigger] prompts@[k].remaining@[e],
                        views(workspace_items@),
                        item_ids_to_close@,
                    ),
                count_removes(events@) == if self@.items.len() == 0 && closed@.len() > 0 {
                    1int
                } else {
                    0int
                },
                forall|k: int| 0 <= k < c ==> !contains_id(self@.items, order@[k]),
            decreases order@.len() - c,
        {
            let cid = order[c];
            let ghost cur = batch_mid(
                self@,
                *env,
                saved_project_entry_ids@,
                closed@,
                prompt_views(prompts@),
                events@,
            );
            let item_ix = match self.index_of_id(cid) {
                Some(ix) => ix,
                None => {
                    proof {
                        assert(close_step(cur, cid, ws_g, batch_g, autosave_on_focus) == cur) by {
                            reveal(close_step);
                        }
                        lemma_run_advance(
                            cur,
                            order@,
                            c as int,
                            ws_g,
                            batch_g,
                            autosave_on_focus,
                        );
                    }
                    c = c + 1;
                    continue ;
                },
            };
            proof {
                crate::pane::lemma_index_of_unique(cur.pane.items, cid, item_ix as int);
            }
            let ghost saved_pre = saved_project_entry_ids@;
            let ghost entry_ids_v = self@.items[item_ix as int].entry_ids;
            // Gather the item's current backing resources.
            let entry_count = self.items[item_ix].entry_ids.len();
            let mut should_save: bool;
            let mut remaining: Vec<u64> = Vec::new();
            if entry_count == 0 {
                // An item with no backing resource is always worth a prompt.
                should_save = true;
            } else {
                // Drop every resource still open somewhere outside the batch.
                let mut e: usize = 0;
                while e < self.items[item_ix].entry_ids.len()
                    invariant
                        item_ix < self@.items.len(),
                        e <= self@.items[item_ix as int].entry_ids.len(),
                        forall|k: int|
                            0 <= k < remaining@.len() ==> !kept_elsewhere(
                                (#[trigger] remaining@[k]),
                                views(workspace_items@),
                                item_ids_to_close@,
                            ),
                        remaining@ == spec_retained(
                            entry_ids_v.take(e as int),
                            ws_g,
                            batch_g,
                        ),
                    decreases self@.items[item_ix as int].entry_ids.len() - e,
                {
                    proof {
                        assert(entry_ids_v.take(e + 1).drop_last() =~= entry_ids_v.take(e as int));
                        assert(entry_ids_v.take(e + 1).last() == entry_ids_v[e as int]);
                    }
                    let eid = self.items[item_ix].entry_ids[e];
                    let mut open_elsewhere = false;
                    let mut w: usize = 0;
                    while w < workspace_items.len()
                        invariant
                            w <= workspace_items@.len(),
                            open_elsewhere ==> kept_elsewhere(
                                eid,
                                views(workspace_items@),
                                item_ids_to_close@,
                            ),
                            !open_elsewhere ==> forall|k: int|
                                0 <= k < w ==> !(!item_ids_to_close@.contains(
                                    (#[trigger] views(workspace_items@)[k]).id,
                                ) && views(workspace_items@)[k].entry_ids.contains(eid)),
                        decreases workspace_items@.len() - w,
                    {
                        let other = &workspace_items[w];
                        if !vec_contains_u64(item_ids_to_close, other.id) && vec_contains_u64(
                            &other.entry_ids,
                            eid,
                        ) {
                            open_elsewhere = true;
                            proof {
                                let wv = views(workspace_items@)[w as int];
                                assert(wv.id == workspace_items@[w as int]@.id);
                                assert(wv.entry_ids.contains(eid));
                                assert(kept_elsewhere(
                                    eid,
                                    views(workspace_items@),
                                    item_ids_to_close@,
                                ));
                            }
                        }
                        w = w + 1;
                    }
                    proof {
                        assert(open_elsewhere == kept_elsewhere(eid, ws_g, batch_g));
                    }
                    if !open_elsewhere {
                        let ghost before = remaining@;
                        remaining.push(eid);
                        proof {
                            lemma_contains_push(before, eid);
                            assert(!kept_elsewhere(
                                eid,
                                views(workspace_items@),
                                item_ids_to_close@,
                            ));
                        }
                    }
                    e = e + 1;
                }
                proof {
                    assert(entry_ids_v.take(entry_ids_v.len() as int) =~= entry_ids_v);
                    assert(remaining@ == spec_retained(entry_ids_v, ws_g, batch_g));
                }
                // Among what is left, a prompt is due only when some
                // resource has not yet been accounted for in this batch.
                should_save = false;
                let mut k: usize = 0;
                while k < remaining.len() && !should_save
                    invariant
                        k <= remaining@.len(),
                        !should_save ==> saved_project_entry_ids@ == saved_pre,
                        should_save ==> 1 <= k && saved_project_entry_ids@ == saved_pre.push(
                            remaining@[k - 1],
                        ) && !saved_pre.contains(remaining@[k - 1]),
                        spec_account(saved_pre, remaining@, 0) == (if should_save {
                            (saved_project_entry_ids@, true)
                        } else {
                            spec_account(saved_project_entry_ids@, remaining@, k as int)
                        }),
                    decreases remaining@.len() - k,
                {
                    if !vec_contains_u64(&saved_project_entry_ids, remaining[k]) {
                        saved_project_entry_ids.push(remaining[k]);
                        should_save = true;
                    }
                    k = k + 1;
                }
            }
            proof {
                if entry_count == 0 {
                    assert((saved_project_entry_ids@, should_save) == (cur.saved, true));
                } else {
                    assert((saved_project_entry_ids@, should_save) == spec_account(
                        cur.saved,
                        spec_retained(entry_ids_v, ws_g, batch_g),
                        0,
                    ));
                }
            }
            proof {
                // The accounted set only grew, so earlier considerations
                // stay accounted.
                if saved_project_entry_ids@ != saved_pre {
                    let f = saved_project_entry_ids@.last();
                    lemma_contains_push(saved_pre, f);
                }
                assert(prompts_dedup(prompts@, saved_project_entry_ids@));
            }
            if should_save {
                let ghost rem = remaining@;
                let record = PromptRecord { item_id: cid, remaining };
                let ghost prompts_before = prompts@;
                prompts.push(record);
                proof {
                    assert(prompts@ == prompts_before.push(record));
                    assert(prompt_views(prompts@) =~= cur.prompts.push((cid, rem)));
                    assert(prompts_dedup(prompts@, saved_project_entry_ids@)) by {
                        assert(forall|p: int|
                            0 <= p < prompts_before.len() ==> prompts@[p] == prompts_before[p]);
                        assert(prompts@[prompts_before.len() as int] == record);
                        if rem.len() == 1 {
                            assert(saved_project_entry_ids@ == saved_pre.push(rem[0]));
                            lemma_contains_push(saved_pre, rem[0]);
                            assert(saved_project_entry_ids@.contains(rem[0]));
                            assert(!saved_pre.contains(rem[0]));
                        }
                    }
                }
                let ghost items_before_save = self@.items;
                let ghost ev_before = events@;
                let (result, mut save_events) = self.save_item(
                    item_ix,
                    true,
                    autosave_on_focus,
                    env,
                );
                let ghost sev = save_events@;
                events.append(&mut save_events);
                proof {
                    crate::pane::lemma_count_removes_add(ev_before, sev);
                    crate::pane::lemma_pointwise_ids_contains(items_before_save, self@.items);
                }
                match result {
                    SaveItemResult::Proceed => {},
                    SaveItemResult::Cancelled => {
                        proof {
                            let fin_state = BatchState {
                                pane: self@,
                                env: *env,
                                saved: saved_project_entry_ids@,
                                closed: closed@,
                                prompts: prompt_views(prompts@),
                                events: events@,
                                status: BatchStatus::Done(CloseOutcome::Cancelled),
                            };
                            assert(fin_state =~= close_step(
                                cur,
                                cid,
                                ws_g,
                                batch_g,
                                autosave_on_focus,
                            )) by {
                                reveal(close_step);
                            }
                            lemma_run_advance(cur, order@, c as int, ws_g, batch_g, autosave_on_focus);
                            lemma_run_done(
                                fin_state,
                                order@.skip(c as int + 1),
                                ws_g,
                                batch_g,
                                autosave_on_focus,
                            );
                        }
                        return CloseReport {
                            outcome: CloseOutcome::Cancelled,
                            closed,
                            prompts,
                            events,
                        };
                    },
                    SaveItemResult::Failed(kind) => {
                        proof {
                            let fin_state = BatchState {
                                pane: self@,
                                env: *env,
                                saved: saved_project_entry_ids@,
                                closed: closed@,
                                prompts: prompt_views(prompts@),
                                events: events@,
                                status: BatchStatus::Done(CloseOutcome::Failed(kind)),
                            };
                            assert(fin_state =~= close_step(
                                cur,
                                cid,
                                ws_g,
                                batch_g,
                                autosave_on_focus,
                            )) by {
                                reveal(close_step);
                            }
                            lemma_run_advance(cur, order@, c as int, ws_g, batch_g, autosave_on_focus);
                            lemma_run_done(
                                fin_state,
                                order@.skip(c as int + 1),
                                ws_g,
                                batch_g,
                                autosave_on_focus,
                            );
                        }
                        return CloseReport {
                            outcome: CloseOutcome::Failed(kind),
                            closed,
                            prompts,
                            events,
                        };
                    },
                }
            }
            let ghost before_remove = self@;
            let ghost ev2_before = events@;
            let mut remove_events = self.remove_item(cid);
            let ghost rev = remove_events@;
            events.append(&mut remove_events);
            let ghost closed_before = closed@;
            closed.push(cid);
            proof {
                crate::pane::lemma_count_removes_add(ev2_before, rev);
                lemma_contains_push(closed_before, cid);
                assert(contains_id(before_remove.items, cid));
                assert(contains_id(pre.items, cid));
                assert(!closed_before.contains(cid));
                assert forall|k: int| 0 <= k < closed@.len() implies contains_id(
                    pre.items,
                    #[trigger] closed@[k],
                ) by {
                    if k < closed_before.len() {
                        assert(closed@[k] == closed_before[k]);
                    } else {
                        assert(closed@[k] == cid);
                    }
                }
                assert forall|id: u64|
                    contains_id(self@.items, id) == (contains_id(pre.items, id)
                        && !closed@.contains(id)) by {
                    if id != cid {
                        assert(contains_id(self@.items, id) == contains_id(
                            before_remove.items,
                            id,
                        ));
                        assert(closed@.contains(id) == closed_before.contains(id));
                    }
                }
                let nxt = batch_mid(
                    self@,
                    *env,
                    saved_project_entry_ids@,
                    closed@,
                    prompt_views(prompts@),
                    events@,
                );
                assert(nxt =~= close_step(cur, cid, ws_g, batch_g, autosave_on_focus)) by {
                    reveal(close_step);
                }
                lemma_run_advance(cur, order@, c as int, ws_g, batch_g, autosave_on_focus);
            }
            c = c + 1;
        }
        proof {
            let cur_end = batch_mid(
                self@,
                *env,
                saved_project_entry_ids@,
                closed@,
                prompt_views(prompts@),
                events@,
            );
            assert(order@.skip(c as int) =~= Seq::<u64>::empty());
            assert(close_run(cur_end, order@.skip(c as int), ws_g, batch_g, autosave_on_focus)
                == (BatchState {
                status: BatchStatus::Done(CloseOutcome::Completed),
                ..cur_end
            })) by {
                reveal(close_run);
            }
            assert forall|id: u64| item_ids_to_close@.contains(id) implies !contains_id(
                self@.items,
                id,
            ) by {
                if contains_id(self@.items, id) {
                    assert(contains_id(pre.items, id));
                    let j = choose|j: int| 0 <= j < pre.items.len() && pre.items[j].id == id;
                    assert(order@.contains(pre.items[j].id));
                    let k = choose|k: int| 0 <= k < order@.len() && order@[k] == id;
                    assert(!contains_id(self@.items, order@[k]));
                }
            }
        }
        CloseReport { outcome: CloseOutcome::Completed, closed, prompts, events }
    }
}

impl Pane {
    /// Closes the active item, if any: `None` on an empty pane, otherwise
    /// the report of a one-item close batch.
    pub fn close_active_item(
        &mut self,
        workspace_items: &Vec<crate::item::ItemState>,
        autosave_on_focus: bool,
        env: &mut PromptAnswers,
    ) -> (r: Option<CloseReport>)
        requires
            pane_wf(old(self)@),
        ensures
            pane_wf(final(self)@),
            old(self)@.items.len() == 0 ==> r is None && final(self)@ == old(self)@,
            old(self)@.items.len() > 0 ==> r is Some,
            (r matches Some(rep) && rep.outcome is Completed) ==> !contains_id(
                final(self)@.items,
                old(self)@.items[old(self)@.active].id,
            ),
            r matches Some(rep) ==> {
                let active_id = old(self)@.items[old(self)@.active].id;
                // Only the active item may close; everything else stays.
                &&& forall|k: int| 0 <= k < rep.closed@.len() ==> rep.closed@[k] == active_id
                &&& forall|id: u64|
                    id != active_id ==> contains_id(final(self)@.items, id) == contains_id(
                        old(self)@.items,
                        id,
                    )
                &&& close_post_full(
                    old(self)@,
                    views(workspace_items@),
                    seq![active_id],
                    autosave_on_focus,
                    *old(env),
                    final(self)@,
                    *final(env),
                    rep,
                )
            },
    {
        if self.items.len() == 0 {
            return None;
        }
        let id = self.items[self.active_item_index].id;
        let mut batch: Vec<u64> = Vec::new();
        batch.push(id);
        let report = self.close_items(workspace_items, &batch, autosave_on_focus, env);
        proof {
            assert(batch@ =~= seq![id]);
            assert(batch@[0] == id);
            assert(batch@.contains(id));
            assert forall|k: int| 0 <= k < report.closed@.len() implies report.closed@[k]
                == id by {
                assert(batch@.contains(report.closed@[k]));
                let w = choose|w: int| 0 <= w < batch@.len() && batch@[w] == report.closed@[k];
            }
            assert forall|id2: u64| id2 != id implies contains_id(self@.items, id2)
                == contains_id(old(self)@.items, id2) by {
                if report.closed@.contains(id2) {
                    let w = choose|w: int|
                        0 <= w < report.closed@.len() && report.closed@[w] == id2;
                }
            }
        }
        Some(report)
    }

    /// Closes every item but the active one.  On a completed batch only the
    /// item that was active remains.
    pub fn close_inactive_items(
        &mut self,
        workspace_items: &Vec<crate::item::ItemState>,
        autosave_on_focus: bool,
        env: &mut PromptAnswers,
    ) -> (r: Option<CloseReport>)
        requires
            pane_wf(old(self)@),
        ensures
            pane_wf(final(self)@),
            old(self)@.items.len() == 0 ==> r is None && final(self)@ == old(self)@,
            old(self)@.items.len() > 0 ==> r is Some,
            (r matches Some(rep) && rep.outcome is Completed) ==> forall|k: int|
                0 <= k < final(self)@.items.len() ==> (#[trigger] final(self)@.items[k]).id == old(
                    self,
                )@.items[old(self)@.active].id,
            r matches Some(rep) ==> {
                let active_id = old(self)@.items[old(self)@.active].id;
                // The active item survives every outcome; only the others
                // may close.
                &&& contains_id(final(self)@.items, active_id)
                &&& !rep.closed@.contains(active_id)
                &&& close_post_full(
                    old(self)@,
                    views(workspace_items@),
                    non_active_ids(old(self)@.items, active_id),
                    autosave_on_focus,
                    *old(env),
                    final(self)@,
                    *final(env),
                    rep,
                )
            },
    {
        if self.items.len() == 0 {
            return None;
        }
        let ghost pre = self@;
        let active_item_id = self.items[self.active_item_index].id;
        let mut batch: Vec<u64> = Vec::new();
        let mut i: usize = 0;
        while i < self.items.len()
            invariant
                i <= self.items@.len(),
                self@ == pre,
                forall|x: u64| batch@.contains(x) ==> x != active_item_id,
                forall|j: int|
                    0 <= j < i && (#[trigger] pre.items[j]).id != active_item_id
                        ==> batch@.contains(pre.items[j].id),
                batch@ == non_active_ids(pre.items.take(i as int), active_item_id),
            decreases self.items@.len() - i,
        {
            proof {
                assert(pre.items.take(i + 1).drop_last() =~= pre.items.take(i as int));
                assert(pre.items.take(i + 1).last() == pre.items[i as int]);
            }
            let id = self.items[i].id;
            if id != active_item_id {
                let ghost before = batch@;
                batch.push(id);
                proof {
                    assert(batch@ == before.push(id));
                    lemma_contains_push(before, id);
                    assert forall|j: int|
                        0 <= j <= i && (#[trigger] pre.items[j]).id != active_item_id implies batch@.contains(
                        pre.items[j].id,
                    ) by {
                        if j < i {
                            assert(before.contains(pre.items[j].id));
                        } else {
                            assert(batch@[before.len() as int] == id);
                        }
                    }
                    assert forall|x: u64| batch@.contains(x) implies x != active_item_id by {
                        assert(before.contains(x) || x == id);
                    }
                }
            }
            i = i + 1;
        }
        proof {
            assert(pre.items.take(pre.items.len() as int) =~= pre.items);
            assert(batch@ == non_active_ids(pre.items, active_item_id));
        }
        let report = self.close_items(workspace_items, &batch, autosave_on_focus, env);
        proof {
            assert(contains_id(self@.items, active_item_id)) by {
                assert(contains_id(pre.items, active_item_id)) by {
                    assert(pre.items[pre.active].id == active_item_id);
                }
                if report.closed@.contains(active_item_id) {
                    let w = choose|w: int|
                        0 <= w < report.closed@.len() && report.closed@[w] == active_item_id;
                    assert(batch@.contains(report.closed@[w]));
                }
            }
            assert(!report.closed@.contains(active_item_id)) by {
                if report.closed@.contains(active_item_id) {
                    let w = choose|w: int|
                        0 <= w < report.closed@.len() && report.closed@[w] == active_item_id;
                    assert(batch@.contains(report.closed@[w]));
                }
            }
            if report.outcome is Completed {
                assert forall|k: int| 0 <= k < self@.items.len() implies (
                #[trigger] self@.items[k]).id == pre.items[pre.active].id by {
                    let id = self@.items[k].id;
                    assert(contains_id(self@.items, id));
                    assert(contains_id(pre.items, id));
                    let j = choose|j: int| 0 <= j < pre.items.len() && pre.items[j].id == id;
                    if id != active_item_id {
                        assert(batch@.contains(pre.items[j].id));
                        assert(!contains_id(self@.items, id));
                    }
                }
            }
        }
        Some(report)
    }

    /// Closes the one item with identity `item_id` (a no-op batch when it is
    /// not open).
    pub fn close_item(
        &mut self,
        item_id: u64,
        workspace_items: &Vec<crate::item::ItemState>,
        autosave_on_focus: bool,
        env: &mut PromptAnswers,
    ) -> (r: CloseReport)
        requires
            pane_wf(old(self)@),
        ensures
            pane_wf(final(self)@),
            r.outcome is Completed ==> !contains_id(final(self)@.items, item_id),
            forall|id: u64|
                contains_id(final(self)@.items, id) == (contains_id(old(self)@.items, id)
                    && !r.closed@.contains(id)),
            forall|k: int| 0 <= k < r.closed@.len() ==> r.closed@[k] == item_id,
            close_post_full(
                old(self)@,
                views(workspace_items@),
                seq![item_id],
                autosave_on_focus,
                *old(env),
                final(self)@,
                *final(env),
                r,
            ),
    {
        let mut batch: Vec<u64> = Vec::new();
        batch.push(item_id);
        let report = self.close_items(workspace_items, &batch, autosave_on_focus, env);
        proof {
            assert(batch@ == Seq::<u64>::empty().push(item_id));
            assert(batch@ =~= seq![item_id]);
            assert(batch@[0] == item_id);
            assert(batch@.contains(item_id));
            assert forall|k: int| 0 <= k < report.closed@.len() implies report.closed@[k]
                == item_id by {
                assert(batch@.contains(report.closed@[k]));
                let w = choose|w: int| 0 <= w < batch@.len() && batch@[w] == report.closed@[k];
            }
        }
        report
    }

    /// Saves the item at `index` if an autosave policy may do so silently:
    /// it must be dirty, conflict-free, saveable in place and still backed
    /// by a resource.  Anything else is left untouched and reported as
    /// success, exactly as an autosave tick would.
    pub fn autosave_item(&mut self, index: usize, env: &mut PromptAnswers) -> (r: Result<
        (),
        ErrorKind,
    >)
        requires
            index < old(self)@.items.len(),
        ensures
            !old(self)@.items[index as int].spec_can_autosave() ==> r is Ok && final(self)@ == old(
                self,
            )@ && *final(env) == *old(env),
            old(self)@.items[index as int].spec_can_autosave() ==> ({
                let taken = spec_take_disk(*old(env));
                &&& *final(env) == taken.0
                &&& taken.1 ==> r is Ok && final(self)@ == cleaned_at(old(self)@, index as int)
                &&& !taken.1 ==> r == Err::<(), ErrorKind>(ErrorKind::SaveFailed) && final(self)@
                    == old(self)@
            }),
    {
        if self.items[index].can_autosave() {
            if env.take_disk_result() {
                self.apply_save(index);
                Ok(())
            } else {
                Err(ErrorKind::SaveFailed)
            }
        } else {
            Ok(())
        }
    }
}

/// An in-place activation emits no "empty pane" signal.
proof fn lemma_activate_no_removes(p: PaneView, index: int)
    requires
        0 <= index < p.items.len(),
    ensures
        count_removes(activate_events(p, index, true, false)) == 0,
{
    let base = if crate::pane::activate_fires(p, index, false) {
        seq![Event::ActivateItem { local: true }]
    } else {
        Seq::<Event>::empty()
    };
    assert(count_removes(Seq::<Event>::empty()) == 0);
    assert(seq![Event::ActivateItem { local: true }] =~= Seq::<Event>::empty().push(
        Event::ActivateItem { local: true },
    ));
    crate::pane::lemma_count_removes_push(
        Seq::<Event>::empty(),
        Event::ActivateItem { local: true },
    );
    assert(count_removes(base) == 0);
    assert(activate_events(p, index, true, false) == base.push(Event::Activate));
    crate::pane::lemma_count_removes_push(base, Event::Activate);
}

} // verus!
