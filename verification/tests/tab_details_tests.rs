use pane_core::item::ItemState;
use pane_core::tab_details::tab_details;

fn item(id: u64, descriptions: Vec<u64>) -> ItemState {
    ItemState {
        id,
        entry_ids: vec![],
        singleton: true,
        dirty: false,
        conflict: false,
        can_save: false,
        path: None,
        descriptions,
        cursor: 0,
    }
}

#[test]
fn unambiguous_names_need_no_detail() {
    let items = vec![item(1, vec![10]), item(2, vec![11]), item(3, vec![12])];
    assert_eq!(tab_details(&items), vec![0, 0, 0]);
}

#[test]
fn colliding_names_gain_one_level() {
    // Two files called alike in different directories, one distinct file.
    let items = vec![
        item(1, vec![10, 20]),
        item(2, vec![10, 21]),
        item(3, vec![11]),
    ];
    assert_eq!(tab_details(&items), vec![1, 1, 0]);
}

#[test]
fn deep_collision_resolves_at_the_differing_level() {
    // Identical at levels 0 and 1, split at level 2.
    let items = vec![item(1, vec![10, 20, 30]), item(2, vec![10, 20, 31])];
    assert_eq!(tab_details(&items), vec![2, 2]);
}

#[test]
fn identical_items_terminate_at_the_same_level() {
    // The same resource open twice: descriptions agree at every level, yet
    // the resolver terminates, and both end at the same (maximal) level.
    let items = vec![item(1, vec![10, 20]), item(2, vec![10, 20])];
    let details = tab_details(&items);
    assert_eq!(details[0], details[1]);
    assert_eq!(details, vec![2, 2]);
}

#[test]
fn level_zero_collision_never_leaves_both_at_zero() {
    // Differ at level 1: the level-0 collision pushes both to 1.
    let items = vec![item(1, vec![10, 20]), item(2, vec![10, 21])];
    assert_eq!(tab_details(&items), vec![1, 1]);
    // No level-0 collision: both stay at 0.
    let items = vec![item(1, vec![10, 20]), item(2, vec![11, 21])];
    assert_eq!(tab_details(&items), vec![0, 0]);
}

#[test]
fn exhausted_ancestry_stops_growing() {
    // An item whose label stops changing is left alone while others split.
    let items = vec![
        item(1, vec![10]),
        item(2, vec![10, 10, 10]),
    ];
    let details = tab_details(&items);
    // Item 1 has nothing beyond level 0; item 2's further levels repeat, so
    // neither can be told apart any further and the pass settles.
    assert_eq!(details.len(), 2);
    assert_eq!(details, vec![1, 1]);
}

#[test]
fn empty_pane_resolves_to_nothing() {
    let items: Vec<ItemState> = vec![];
    assert_eq!(tab_details(&items), Vec::<usize>::new());
}
