use pane_core::item::ItemState;
use pane_core::tab_details::tab_details;
use pane_core::tab_switcher::{TabSwitcherDelegate, Toggle};

fn item(id: u64, descriptions: Vec<u64>) -> ItemState {
    ItemState {
        id,
        entry_ids: vec![],
        singleton: true,
        dirty: false,
        conflict: false,
        can_save: false,
        path: None,
        descriptions,
        cursor: 0,
    }
}

fn pane_items() -> Vec<ItemState> {
    vec![item(1, vec![10]), item(2, vec![11]), item(3, vec![12])]
}

#[test]
fn rows_follow_activation_recency() {
    let items = pane_items();
    let details = tab_details(&items);
    // Item 2 was activated after item 3; item 1 never.
    let history = vec![3, 2];
    let mut delegate = TabSwitcherDelegate::new(&Toggle { select_last: false });
    delegate.update_matches(&items, &details, &history, None);
    let row_ids: Vec<u64> = delegate.matches.iter().map(|m| m.item_id).collect();
    assert_eq!(row_ids, vec![2, 3, 1]);
    // Each row keeps its pane position and detail.
    assert_eq!(delegate.matches[0].item_index, 1);
    assert_eq!(delegate.matches[2].item_index, 0);
    assert_eq!(delegate.matches[2].detail, 0);
}

#[test]
fn unlisted_items_keep_pane_order() {
    let items = pane_items();
    let details = tab_details(&items);
    let history = vec![];
    let mut delegate = TabSwitcherDelegate::new(&Toggle { select_last: false });
    delegate.update_matches(&items, &details, &history, None);
    let row_ids: Vec<u64> = delegate.matches.iter().map(|m| m.item_id).collect();
    assert_eq!(row_ids, vec![1, 2, 3]);
}

#[test]
fn fresh_switcher_preselects_second_row() {
    let items = pane_items();
    let details = tab_details(&items);
    let history = vec![3];
    let mut delegate = TabSwitcherDelegate::new(&Toggle { select_last: false });
    delegate.update_matches(&items, &details, &history, None);
    // Row 0 is the already-active item, so the switcher starts on row 1.
    assert_eq!(delegate.selected_index(), 1);
}

#[test]
fn select_last_starts_on_the_last_row() {
    let items = pane_items();
    let details = tab_details(&items);
    let history = vec![3];
    let mut delegate = TabSwitcherDelegate::new(&Toggle { select_last: true });
    delegate.update_matches(&items, &details, &history, None);
    assert_eq!(delegate.selected_index(), delegate.match_count() - 1);
}

#[test]
fn selection_follows_its_item_across_updates() {
    let items = pane_items();
    let details = tab_details(&items);
    let mut delegate = TabSwitcherDelegate::new(&Toggle { select_last: false });
    delegate.update_matches(&items, &details, &vec![3], None);
    delegate.set_selected_index(2);
    let followed = delegate.selected_item_id();
    // The history changes; the selected item moves but stays selected.
    delegate.update_matches(&items, &details, &vec![2, 1], None);
    assert_eq!(delegate.selected_item_id(), followed);
}

#[test]
fn confirm_and_close_report_the_selected_row() {
    let items = pane_items();
    let details = tab_details(&items);
    let mut delegate = TabSwitcherDelegate::new(&Toggle { select_last: false });
    delegate.update_matches(&items, &details, &vec![3, 2], None);
    delegate.set_selected_index(0);
    assert_eq!(delegate.confirm(), Some(1));
    assert_eq!(delegate.close_selected_item(), Some(2));
    assert_eq!(delegate.close_item_at(9), None);
    assert_eq!(delegate.separators_after_indices().len(), 0);
}

#[test]
fn preview_flag_marks_the_preview_item() {
    let items = pane_items();
    let details = tab_details(&items);
    let mut delegate = TabSwitcherDelegate::new(&Toggle { select_last: false });
    delegate.update_matches(&items, &details, &vec![], Some(2));
    for m in delegate.matches.iter() {
        assert_eq!(m.preview, m.item_id == 2);
    }
}

#[test]
fn score_ties_keep_pane_order() {
    // With a duplicated history entry, a ranked item and an unlisted one
    // can tie on score; the tie is broken by pane position.
    let items = vec![item(1, vec![10]), item(2, vec![11])];
    let details = tab_details(&items);
    let history = vec![2, 2];
    let mut delegate = TabSwitcherDelegate::new(&Toggle { select_last: false });
    delegate.update_matches(&items, &details, &history, None);
    let row_ids: Vec<u64> = delegate.matches.iter().map(|m| m.item_id).collect();
    assert_eq!(row_ids, vec![1, 2]);
}

#[test]
fn empty_pane_gives_no_rows() {
    let items: Vec<ItemState> = vec![];
    let details = tab_details(&items);
    let mut delegate = TabSwitcherDelegate::new(&Toggle { select_last: false });
    delegate.update_matches(&items, &details, &vec![1, 2], None);
    assert_eq!(delegate.match_count(), 0);
    assert_eq!(delegate.selected_index(), 0);
    assert_eq!(delegate.selected_item_id(), None);
    assert_eq!(delegate.confirm(), None);
}
