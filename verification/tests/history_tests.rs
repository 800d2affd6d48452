use pane_core::history::{NavHistory, NavigationMode, MAX_NAVIGATION_HISTORY_LEN};
use pane_core::item::ProjectPath;

fn path(w: u64, p: u64) -> ProjectPath {
    ProjectPath {
        worktree_id: w,
        path_id: p,
    }
}

#[test]
fn normal_push_goes_backward_and_clears_forward() {
    let mut h = NavHistory::new();
    // Put something on the forward stack first.
    h.set_mode(NavigationMode::GoingBack);
    h.push(Some(7), 1);
    assert_eq!(h.forward_stack.len(), 1);
    h.set_mode(NavigationMode::Normal);
    h.push(Some(9), 2);
    assert_eq!(h.backward_stack.len(), 1);
    assert_eq!(h.backward_stack[0].item_id, 2);
    assert_eq!(h.backward_stack[0].data, Some(9));
    // A fresh Normal-mode navigation invalidates the redo chain.
    assert_eq!(h.forward_stack.len(), 0);
}

#[test]
fn going_back_push_goes_forward() {
    let mut h = NavHistory::new();
    h.set_mode(NavigationMode::GoingBack);
    h.push(None, 5);
    assert_eq!(h.forward_stack.len(), 1);
    assert_eq!(h.backward_stack.len(), 0);
    assert_eq!(h.forward_stack[0].item_id, 5);
}

#[test]
fn going_forward_push_goes_backward() {
    let mut h = NavHistory::new();
    h.set_mode(NavigationMode::GoingForward);
    h.push(None, 5);
    assert_eq!(h.backward_stack.len(), 1);
    assert_eq!(h.forward_stack.len(), 0);
}

#[test]
fn closing_push_goes_to_closed_stack() {
    let mut h = NavHistory::new();
    h.set_mode(NavigationMode::ClosingItem);
    h.push(Some(3), 8);
    assert_eq!(h.closed_stack.len(), 1);
    assert_eq!(h.backward_stack.len(), 0);
    assert_eq!(h.forward_stack.len(), 0);
}

#[test]
fn disabled_push_is_noop() {
    let mut h = NavHistory::new();
    h.disable();
    h.push(Some(3), 8);
    assert_eq!(h.backward_stack.len(), 0);
    assert_eq!(h.forward_stack.len(), 0);
    assert_eq!(h.closed_stack.len(), 0);
    h.enable();
    h.push(Some(3), 8);
    assert_eq!(h.backward_stack.len(), 1);
}

#[test]
fn pop_in_invalid_modes_returns_nothing() {
    let mut h = NavHistory::new();
    h.push(None, 1);
    assert!(h.pop(NavigationMode::Normal).is_none());
    assert!(h.pop(NavigationMode::Disabled).is_none());
    assert!(h.pop(NavigationMode::ClosingItem).is_none());
    assert_eq!(h.backward_stack.len(), 1);
}

#[test]
fn pop_takes_most_recent_entry() {
    let mut h = NavHistory::new();
    h.push(Some(10), 1);
    h.push(Some(20), 2);
    let e = h.pop(NavigationMode::GoingBack).unwrap();
    assert_eq!(e.item_id, 2);
    assert_eq!(e.data, Some(20));
    assert_eq!(h.backward_stack.len(), 1);
}

#[test]
fn capacity_overflow_evicts_oldest() {
    let mut h = NavHistory::new();
    for i in 0..(MAX_NAVIGATION_HISTORY_LEN as u64 + 1) {
        h.push(Some(i), i);
    }
    // The stack never exceeds its bound; the 1025th push evicted entry 0.
    assert_eq!(h.backward_stack.len(), MAX_NAVIGATION_HISTORY_LEN);
    assert_eq!(h.backward_stack[0].item_id, 1);
    assert_eq!(
        h.backward_stack[MAX_NAVIGATION_HISTORY_LEN - 1].item_id,
        MAX_NAVIGATION_HISTORY_LEN as u64
    );
}

#[test]
fn update_notification_is_coalesced_and_consumed() {
    let mut h = NavHistory::new();
    assert!(!h.take_update());
    h.push(None, 1);
    h.push(None, 2);
    assert!(h.take_update());
    assert!(!h.take_update());
    // An empty pop schedules nothing.
    let _ = h.pop(NavigationMode::GoingForward);
    assert!(!h.take_update());
    let _ = h.pop(NavigationMode::GoingBack);
    assert!(h.take_update());
}

#[test]
fn path_table_remembers_last_known_path() {
    let mut h = NavHistory::new();
    assert_eq!(h.path_for_item(4), None);
    h.record_path(4, path(1, 100));
    h.record_path(5, path(1, 200));
    h.record_path(4, path(2, 300));
    assert_eq!(h.path_for_item(4), Some(path(2, 300)));
    assert_eq!(h.path_for_item(5), Some(path(1, 200)));
    h.forget_path(4);
    assert_eq!(h.path_for_item(4), None);
    assert_eq!(h.path_for_item(5), Some(path(1, 200)));
}

#[test]
fn can_navigate_flags_follow_stacks() {
    let mut h = NavHistory::new();
    assert!(!h.can_navigate_backward());
    assert!(!h.can_navigate_forward());
    h.push(None, 1);
    assert!(h.can_navigate_backward());
    h.set_mode(NavigationMode::GoingBack);
    h.push(None, 2);
    h.set_mode(NavigationMode::Normal);
    assert!(h.can_navigate_forward());
}
