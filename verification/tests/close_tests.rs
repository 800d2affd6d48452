use pane_core::close::{CloseOutcome, ErrorKind, PromptAnswers, SaveItemResult};
use pane_core::item::{ItemState, ProjectPath};
use pane_core::pane::{Event, Pane};

fn item(id: u64, entries: Vec<u64>, dirty: bool, conflict: bool, can_save: bool) -> ItemState {
    ItemState {
        id,
        entry_ids: entries.clone(),
        singleton: entries.len() <= 1,
        dirty,
        conflict,
        can_save,
        path: entries.first().map(|e| ProjectPath {
            worktree_id: 1,
            path_id: *e,
        }),
        descriptions: vec![id],
        cursor: 0,
    }
}

fn answers(choices: Vec<Option<usize>>, paths: Vec<Option<ProjectPath>>, disk: Vec<bool>) -> PromptAnswers {
    PromptAnswers {
        choices,
        next_choice: 0,
        paths,
        next_path: 0,
        disk_results: disk,
        next_disk: 0,
    }
}

fn workspace_of(pane: &Pane) -> Vec<ItemState> {
    pane.items.clone()
}

fn ids(pane: &Pane) -> Vec<u64> {
    pane.items.iter().map(|it| it.id).collect()
}

#[test]
fn shared_resource_prompts_once() {
    // Two dirty items over the same resource, nowhere else open: one prompt
    // covers both, not two.
    let mut pane = Pane::new();
    pane.add_item(item(1, vec![100], true, false, true), true, true);
    pane.add_item(item(2, vec![100], true, false, true), true, true);
    pane.add_item(item(3, vec![300], false, false, true), true, true);
    let workspace = workspace_of(&pane);
    let mut env = answers(vec![Some(0)], vec![], vec![true]);
    let report = pane.close_items(&workspace, &vec![1, 2], false, &mut env);
    assert_eq!(report.outcome, CloseOutcome::Completed);
    assert_eq!(ids(&pane), vec![3]);
    // Exactly one save consideration was taken for resource 100 …
    assert_eq!(report.prompts.len(), 1);
    assert_eq!(report.prompts[0].remaining, vec![100]);
    // … and exactly one modal answer was consumed.
    assert_eq!(env.next_choice, 1);
}

#[test]
fn resource_open_elsewhere_needs_no_prompt() {
    // The resource stays reachable through an item outside the batch, so the
    // dirty view closes without any prompt.
    let mut pane = Pane::new();
    pane.add_item(item(1, vec![100], true, false, true), true, true);
    let mut composite = item(2, vec![100, 200], true, false, true);
    composite.singleton = false;
    pane.add_item(composite, true, true);
    let workspace = workspace_of(&pane);
    let mut env = answers(vec![], vec![], vec![]);
    let report = pane.close_items(&workspace, &vec![1], false, &mut env);
    assert_eq!(report.outcome, CloseOutcome::Completed);
    assert_eq!(ids(&pane), vec![2]);
    assert_eq!(report.prompts.len(), 0);
    assert_eq!(env.next_choice, 0);
}

#[test]
fn cancel_leaves_earlier_items_closed_and_later_open() {
    // Five dirty single-resource items; the third prompt is cancelled: the
    // first two stay closed, the rest stay open.
    let mut pane = Pane::new();
    for i in 1..=5 {
        pane.add_item(item(i, vec![i * 100], true, false, true), true, true);
    }
    let workspace = workspace_of(&pane);
    let mut env = answers(
        vec![Some(0), Some(0), Some(2)],
        vec![],
        vec![true, true],
    );
    let report = pane.close_items(&workspace, &vec![1, 2, 3, 4, 5], false, &mut env);
    assert_eq!(report.outcome, CloseOutcome::Cancelled);
    assert_eq!(report.closed, vec![1, 2]);
    assert_eq!(ids(&pane), vec![3, 4, 5]);
}

#[test]
fn closing_every_item_emits_one_empty_pane_signal() {
    let mut pane = Pane::new();
    pane.add_item(item(1, vec![100], false, false, true), true, true);
    pane.add_item(item(2, vec![200], false, false, true), true, true);
    let workspace = workspace_of(&pane);
    let mut env = answers(vec![], vec![], vec![]);
    let report = pane.close_items(&workspace, &vec![1, 2], false, &mut env);
    assert_eq!(report.outcome, CloseOutcome::Completed);
    assert_eq!(pane.items.len(), 0);
    let removes = report
        .events
        .iter()
        .filter(|e| matches!(e, Event::Remove))
        .count();
    assert_eq!(removes, 1);
}

#[test]
fn singletons_are_handled_before_composites() {
    // The same resource open as a plain document and inside a composite
    // view: the prompt lands while the plain document is in front.
    let mut pane = Pane::new();
    let mut composite = item(1, vec![100, 200], true, false, true);
    composite.singleton = false;
    pane.add_item(composite, true, true);
    pane.add_item(item(2, vec![100], true, false, true), true, true);
    let workspace = workspace_of(&pane);
    let mut env = answers(vec![Some(0), Some(0)], vec![], vec![true, true]);
    let report = pane.close_items(&workspace, &vec![1, 2], false, &mut env);
    assert_eq!(report.outcome, CloseOutcome::Completed);
    // The singleton (id 2) was considered first.
    assert_eq!(report.closed, vec![2, 1]);
    assert_eq!(report.prompts[0].item_id, 2);
}

#[test]
fn unbacked_item_always_prompts() {
    let mut pane = Pane::new();
    pane.add_item(item(1, vec![], true, false, true), true, true);
    let workspace = workspace_of(&pane);
    let mut env = answers(vec![Some(1)], vec![], vec![]);
    let report = pane.close_items(&workspace, &vec![1], false, &mut env);
    assert_eq!(report.outcome, CloseOutcome::Completed);
    assert_eq!(report.prompts.len(), 1);
    assert_eq!(report.prompts[0].remaining.len(), 0);
    // "Don't Save" still closes the item.
    assert_eq!(pane.items.len(), 0);
}

#[test]
fn conflict_overwrite_saves_in_place() {
    let mut pane = Pane::new();
    pane.add_item(item(1, vec![100], true, true, true), true, true);
    let mut env = answers(vec![Some(0)], vec![], vec![true]);
    let (result, _) = pane.save_item(0, true, false, &mut env);
    assert_eq!(result, SaveItemResult::Proceed);
    assert!(!pane.items[0].dirty);
    assert!(!pane.items[0].conflict);
}

#[test]
fn conflict_discard_reloads_from_disk() {
    let mut pane = Pane::new();
    pane.add_item(item(1, vec![100], true, true, true), true, true);
    let mut env = answers(vec![Some(1)], vec![], vec![true]);
    let (result, _) = pane.save_item(0, true, false, &mut env);
    assert_eq!(result, SaveItemResult::Proceed);
    assert!(!pane.items[0].dirty);
    assert!(!pane.items[0].conflict);
}

#[test]
fn conflict_cancel_aborts() {
    let mut pane = Pane::new();
    pane.add_item(item(1, vec![100], true, true, true), true, true);
    let mut env = answers(vec![None], vec![], vec![]);
    let (result, _) = pane.save_item(0, true, false, &mut env);
    assert_eq!(result, SaveItemResult::Cancelled);
    assert!(pane.items[0].dirty);
}

#[test]
fn failed_save_surfaces_save_error() {
    let mut pane = Pane::new();
    pane.add_item(item(1, vec![100], true, true, true), true, true);
    let mut env = answers(vec![Some(0)], vec![], vec![false]);
    let (result, _) = pane.save_item(0, true, false, &mut env);
    assert_eq!(result, SaveItemResult::Failed(ErrorKind::SaveFailed));
}

#[test]
fn failed_reload_surfaces_reload_error() {
    let mut pane = Pane::new();
    pane.add_item(item(1, vec![100], true, true, true), true, true);
    let mut env = answers(vec![Some(1)], vec![], vec![false]);
    let (result, _) = pane.save_item(0, true, false, &mut env);
    assert_eq!(result, SaveItemResult::Failed(ErrorKind::ReloadFailed));
}

#[test]
fn failed_save_aborts_the_batch() {
    let mut pane = Pane::new();
    pane.add_item(item(1, vec![100], true, false, true), true, true);
    pane.add_item(item(2, vec![200], true, false, true), true, true);
    let workspace = workspace_of(&pane);
    let mut env = answers(vec![Some(0), Some(0)], vec![], vec![false]);
    let report = pane.close_items(&workspace, &vec![1, 2], false, &mut env);
    assert_eq!(report.outcome, CloseOutcome::Failed(ErrorKind::SaveFailed));
    // Nothing was closed: the failing save came before the first removal.
    assert_eq!(ids(&pane), vec![1, 2]);
}

#[test]
fn dirty_singleton_without_save_asks_for_a_path() {
    let mut pane = Pane::new();
    let mut it = item(1, vec![], true, false, false);
    it.singleton = true;
    pane.add_item(it, true, true);
    let destination = ProjectPath {
        worktree_id: 2,
        path_id: 77,
    };
    let mut env = answers(vec![Some(0)], vec![Some(destination)], vec![true]);
    let (result, _) = pane.save_item(0, true, false, &mut env);
    assert_eq!(result, SaveItemResult::Proceed);
    assert!(!pane.items[0].dirty);
    assert_eq!(pane.items[0].path, Some(destination));
}

#[test]
fn cancelling_the_path_prompt_cancels() {
    let mut pane = Pane::new();
    let mut it = item(1, vec![], true, false, false);
    it.singleton = true;
    pane.add_item(it, true, true);
    let mut env = answers(vec![Some(0)], vec![None], vec![]);
    let (result, _) = pane.save_item(0, true, false, &mut env);
    assert_eq!(result, SaveItemResult::Cancelled);
    assert!(pane.items[0].dirty);
}

#[test]
fn autosave_policy_skips_the_prompt() {
    let mut pane = Pane::new();
    pane.add_item(item(1, vec![100], true, false, true), true, true);
    // No choices scripted: if a prompt were shown it would read as Cancel.
    let mut env = answers(vec![], vec![], vec![true]);
    let (result, _) = pane.save_item(0, true, true, &mut env);
    assert_eq!(result, SaveItemResult::Proceed);
    assert!(!pane.items[0].dirty);
    assert_eq!(env.next_choice, 0);
}

#[test]
fn clean_item_needs_nothing() {
    let mut pane = Pane::new();
    pane.add_item(item(1, vec![100], false, false, true), true, true);
    let mut env = answers(vec![], vec![], vec![]);
    let (result, events) = pane.save_item(0, true, false, &mut env);
    assert_eq!(result, SaveItemResult::Proceed);
    assert_eq!(events.len(), 0);
}

#[test]
fn autosave_item_saves_only_eligible_items() {
    let mut pane = Pane::new();
    pane.add_item(item(1, vec![100], true, false, true), true, true);
    pane.add_item(item(2, vec![200], false, false, true), true, true);
    let mut env = answers(vec![], vec![], vec![true]);
    assert!(pane.autosave_item(0, &mut env).is_ok());
    assert!(!pane.items[0].dirty);
    assert!(pane.autosave_item(1, &mut env).is_ok());
    let mut env_fail = answers(vec![], vec![], vec![false]);
    let mut pane2 = Pane::new();
    pane2.add_item(item(3, vec![300], true, false, true), true, true);
    assert_eq!(
        pane2.autosave_item(0, &mut env_fail),
        Err(ErrorKind::SaveFailed)
    );
}

#[test]
fn close_active_and_inactive_items() {
    let mut pane = Pane::new();
    for i in 1..=3 {
        pane.add_item(item(i, vec![i * 100], false, false, true), true, true);
    }
    let workspace = workspace_of(&pane);
    let mut env = answers(vec![], vec![], vec![]);
    let report = pane
        .close_active_item(&workspace, false, &mut env)
        .expect("non-empty pane");
    assert_eq!(report.outcome, CloseOutcome::Completed);
    assert_eq!(ids(&pane), vec![1, 2]);
    let report = pane
        .close_inactive_items(&workspace, false, &mut env)
        .expect("non-empty pane");
    assert_eq!(report.outcome, CloseOutcome::Completed);
    assert_eq!(ids(&pane), vec![2]);
    let mut empty = Pane::new();
    assert!(empty.close_active_item(&workspace, false, &mut env).is_none());
}

#[test]
fn close_item_by_identity() {
    let mut pane = Pane::new();
    for i in 1..=3 {
        pane.add_item(item(i, vec![i * 100], false, false, true), true, true);
    }
    let workspace = workspace_of(&pane);
    let mut env = answers(vec![], vec![], vec![]);
    let report = pane.close_item(2, &workspace, false, &mut env);
    assert_eq!(report.outcome, CloseOutcome::Completed);
    assert_eq!(report.closed, vec![2]);
    assert_eq!(ids(&pane), vec![1, 3]);
    // Closing an identity that is not open completes without effect.
    let report = pane.close_item(9, &workspace, false, &mut env);
    assert_eq!(report.outcome, CloseOutcome::Completed);
    assert_eq!(report.closed.len(), 0);
}
