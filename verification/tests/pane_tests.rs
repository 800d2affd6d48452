use pane_core::history::NavigationMode;
use pane_core::item::{ItemState, ProjectPath};
use pane_core::pane::{Event, Pane, SplitDirection};
use pane_core::travel::NavigateOutcome;

fn item(id: u64, entry: Option<u64>, cursor: u64) -> ItemState {
    ItemState {
        id,
        entry_ids: entry.into_iter().collect(),
        singleton: true,
        dirty: false,
        conflict: false,
        can_save: true,
        path: entry.map(|e| ProjectPath {
            worktree_id: 1,
            path_id: e,
        }),
        descriptions: vec![id],
        cursor,
    }
}

fn ids(pane: &Pane) -> Vec<u64> {
    pane.items.iter().map(|it| it.id).collect()
}

#[test]
fn add_item_inserts_after_active() {
    let mut pane = Pane::new();
    pane.add_item(item(1, Some(10), 0), true, true);
    pane.add_item(item(2, Some(20), 0), true, true);
    pane.add_item(item(3, Some(30), 0), true, true);
    assert_eq!(ids(&pane), vec![1, 2, 3]);
    assert_eq!(pane.active_item_index, 2);
    // Adding behind the active item puts the new one right after it.
    pane.activate_item(0, true, true, false);
    pane.add_item(item(4, Some(40), 0), true, true);
    assert_eq!(ids(&pane), vec![1, 4, 2, 3]);
    assert_eq!(pane.active_item_index, 1);
}

#[test]
fn add_item_never_duplicates() {
    let mut pane = Pane::new();
    pane.add_item(item(1, Some(10), 0), true, true);
    pane.add_item(item(2, Some(20), 0), true, true);
    pane.add_item(item(1, Some(10), 0), true, true);
    assert_eq!(pane.items.len(), 2);
    // The existing item was activated in place (and moved after the active).
    assert_eq!(pane.items[pane.active_item_index].id, 1);
}

#[test]
fn activate_item_keeps_the_set_of_items() {
    let mut pane = Pane::new();
    for i in 1..=4 {
        pane.add_item(item(i, Some(i * 10), 0), true, true);
    }
    let before_len = pane.items.len();
    let mut before_ids = ids(&pane);
    before_ids.sort();
    // A recently-used reorder changes order and active index, never the set.
    pane.activate_item(1, true, true, true);
    assert_eq!(pane.items.len(), before_len);
    let mut after_ids = ids(&pane);
    after_ids.sort();
    assert_eq!(before_ids, after_ids);
}

#[test]
fn mru_reorder_moves_item_after_active() {
    let mut pane = Pane::new();
    for i in 1..=4 {
        pane.add_item(item(i, Some(i * 10), 0), true, true);
    }
    // Items [1,2,3,4], active 3 (id 4).  Activate id 2 with reorder: it moves
    // right after id 4 and becomes active.
    pane.activate_item(1, true, true, true);
    assert_eq!(ids(&pane), vec![1, 3, 4, 2]);
    assert_eq!(pane.active_item_index, 3);
    assert_eq!(pane.items[pane.active_item_index].id, 2);
}

#[test]
fn mru_reorder_from_lower_index() {
    let mut pane = Pane::new();
    for i in 1..=4 {
        pane.add_item(item(i, Some(i * 10), 0), true, true);
    }
    pane.activate_item(0, true, true, false);
    // Items [1,2,3,4], active 0.  Activate id 3 with reorder: it moves to
    // position 1, right after id 1.
    pane.activate_item(2, true, true, true);
    assert_eq!(ids(&pane), vec![1, 3, 2, 4]);
    assert_eq!(pane.active_item_index, 1);
}

#[test]
fn out_of_range_activation_is_a_noop() {
    let mut pane = Pane::new();
    pane.add_item(item(1, Some(10), 0), true, true);
    let events = pane.activate_item(5, true, true, false);
    assert_eq!(events.len(), 0);
    assert_eq!(pane.active_item_index, 0);
}

#[test]
fn prev_and_next_wrap_around() {
    let mut pane = Pane::new();
    for i in 1..=3 {
        pane.add_item(item(i, Some(i * 10), 0), true, true);
    }
    assert_eq!(pane.active_item_index, 2);
    pane.activate_next_item();
    assert_eq!(pane.active_item_index, 0);
    pane.activate_prev_item();
    assert_eq!(pane.active_item_index, 2);
    pane.activate_prev_item();
    assert_eq!(pane.active_item_index, 1);
}

#[test]
fn back_then_forward_restores_active_item() {
    let mut pane = Pane::new();
    for i in 1..=3 {
        pane.add_item(item(i, Some(i * 10), 0), true, true);
    }
    // Active is id 3; backward holds entries for 1 then 2.
    let (outcome, _) = pane.go_back();
    assert_eq!(outcome, NavigateOutcome::Navigated);
    assert_eq!(pane.items[pane.active_item_index].id, 2);
    let (outcome, _) = pane.go_forward();
    assert_eq!(outcome, NavigateOutcome::Navigated);
    assert_eq!(pane.items[pane.active_item_index].id, 3);
}

#[test]
fn traversal_on_empty_history_is_exhausted() {
    let mut pane = Pane::new();
    pane.add_item(item(1, Some(10), 0), true, true);
    let (outcome, _) = pane.go_forward();
    assert_eq!(outcome, NavigateOutcome::Exhausted);
    assert_eq!(pane.items[pane.active_item_index].id, 1);
}

#[test]
fn closing_only_item_empties_pane_with_one_signal() {
    let mut pane = Pane::new();
    pane.add_item(item(1, Some(10), 0), true, true);
    let events = pane.remove_item(1);
    assert_eq!(pane.items.len(), 0);
    let removes = events.iter().filter(|e| matches!(e, Event::Remove)).count();
    assert_eq!(removes, 1);
    assert!(events.iter().any(|e| matches!(e, Event::RemoveItem)));
    // The closed item can be travelled back to later.
    assert_eq!(pane.nav_history.closed_stack.len(), 1);
    assert_eq!(pane.nav_history.closed_stack[0].item_id, 1);
}

#[test]
fn removing_active_item_activates_previous() {
    let mut pane = Pane::new();
    for i in 1..=3 {
        pane.add_item(item(i, Some(i * 10), 0), true, true);
    }
    pane.remove_item(3);
    assert_eq!(ids(&pane), vec![1, 2]);
    assert_eq!(pane.items[pane.active_item_index].id, 2);
}

#[test]
fn removing_first_active_item_activates_next() {
    let mut pane = Pane::new();
    for i in 1..=2 {
        pane.add_item(item(i, Some(i * 10), 0), true, true);
    }
    pane.activate_item(0, true, true, false);
    pane.remove_item(1);
    assert_eq!(ids(&pane), vec![2]);
    assert_eq!(pane.active_item_index, 0);
}

#[test]
fn removed_item_path_is_remembered() {
    let mut pane = Pane::new();
    pane.add_item(item(7, Some(70), 0), true, true);
    pane.remove_item(7);
    assert_eq!(
        pane.nav_history.path_for_item(7),
        Some(ProjectPath {
            worktree_id: 1,
            path_id: 70
        })
    );
}

#[test]
fn reopening_closed_item_restores_it_with_its_cursor() {
    let mut pane = Pane::new();
    for i in 1..=3 {
        pane.add_item(item(i, Some(i * 10), 41 + i), true, true);
    }
    // Close id 2 (not active); its cursor 43 is recorded with the entry.
    pane.remove_item(2);
    assert_eq!(ids(&pane), vec![1, 3]);
    let (outcome, _) = pane.reopen_closed_item();
    let (path, entry) = match outcome {
        NavigateOutcome::NeedsReopen { path, entry } => (path, entry),
        other => panic!("expected a reopen request, got {:?}", other),
    };
    assert_eq!(path.path_id, 20);
    assert_eq!(entry.item_id, 2);
    // The shell reloads the resource and hands back a rebuilt item.
    let rebuilt = item(9, Some(20), 0);
    let (navigated, _) = pane.finish_reopen(NavigationMode::ReopeningClosedItem, entry, 20, rebuilt);
    assert!(navigated);
    assert_eq!(ids(&pane), vec![1, 3, 9]);
    let active = &pane.items[pane.active_item_index];
    assert_eq!(active.id, 9);
    // The recorded navigation state was reapplied.
    assert_eq!(active.cursor, 43);
}

#[test]
fn reopen_reuses_open_view_of_same_resource() {
    let mut pane = Pane::new();
    pane.add_item(item(1, Some(10), 0), true, true);
    pane.add_item(item(2, Some(20), 0), true, true);
    // Opening resource 10 again activates the existing item, never a copy.
    let (opened, _) = pane.open_item(10, true, item(5, Some(10), 0));
    assert_eq!(opened, 1);
    assert_eq!(pane.items.len(), 2);
    assert_eq!(pane.items[pane.active_item_index].id, 1);
}

#[test]
fn item_for_entry_finds_singleton_views() {
    let mut pane = Pane::new();
    pane.add_item(item(1, Some(10), 0), true, true);
    let mut composite = item(2, Some(20), 0);
    composite.singleton = false;
    pane.add_item(composite, true, true);
    assert_eq!(pane.item_for_entry(10).map(|it| it.id), Some(1));
    assert_eq!(pane.item_for_entry(20).map(|it| it.id), None);
    assert_eq!(pane.index_of_id(2), Some(1));
    assert_eq!(pane.index_of_id(9), None);
}

#[test]
fn split_and_activate_signals() {
    let pane = Pane::new();
    assert_eq!(pane.activate(), Event::Activate);
    assert_eq!(
        pane.split(SplitDirection::Right),
        Event::Split(SplitDirection::Right)
    );
}

#[test]
fn history_flags_track_navigation() {
    let mut pane = Pane::new();
    pane.add_item(item(1, Some(10), 0), true, true);
    pane.add_item(item(2, Some(20), 0), true, true);
    assert!(pane.can_navigate_backward());
    assert!(!pane.can_navigate_forward());
    pane.go_back();
    assert!(pane.can_navigate_forward());
}
