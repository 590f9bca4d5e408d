use game_server::inventory::{InventoryComponent, Pocket};

fn pocket(pocket_idx: u32, item_id: u32, item_count: i32) -> Pocket {
    Pocket { pocket_idx, item_id, item_count }
}

fn inventory(pockets: Vec<Pocket>) -> InventoryComponent {
    InventoryComponent { entity_id: 7, pockets }
}

fn total(inv: &InventoryComponent, item_id: u32) -> i64 {
    inv.pockets.iter().filter(|p| p.item_id == item_id).map(|p| p.item_count as i64).sum()
}

#[test]
fn get_after_set_returns_the_pocket() {
    let mut inv = inventory(vec![pocket(0, 1, 5)]);
    inv.set_pocket(pocket(3, 2, 4));
    assert_eq!(inv.get_pocket(3), Some(pocket(3, 2, 4)));
    assert_eq!(inv.get_pocket(0), Some(pocket(0, 1, 5)));
    inv.set_pocket(pocket(0, 9, 1));
    assert_eq!(inv.get_pocket(0), Some(pocket(0, 9, 1)));
    assert_eq!(inv.pockets, vec![pocket(0, 9, 1), pocket(3, 2, 4)]);
}

#[test]
fn delete_then_get_is_empty() {
    let mut inv = inventory(vec![pocket(0, 1, 5), pocket(1, 2, 6), pocket(2, 3, 7)]);
    assert_eq!(inv.delete_pocket(1), Some(pocket(1, 2, 6)));
    assert_eq!(inv.get_pocket(1), None);
    assert_eq!(inv.pockets, vec![pocket(0, 1, 5), pocket(2, 3, 7)]);
    assert_eq!(inv.delete_pocket(1), None);
    assert!(!inv.has_pocket(1));
    assert!(inv.has_pocket(2));
}

#[test]
fn add_into_empty_slot() {
    let mut inv = inventory(vec![]);
    assert!(inv.add(4, 10, Some(2), 30));
    assert_eq!(inv.pockets, vec![pocket(2, 4, 10)]);
}

#[test]
fn add_stacks_onto_same_item() {
    let mut inv = inventory(vec![pocket(2, 4, 10)]);
    assert!(inv.add(4, 5, Some(2), 30));
    assert_eq!(inv.pockets, vec![pocket(2, 4, 15)]);
}

#[test]
fn add_negative_takes_items_and_removes_empty_stack() {
    let mut inv = inventory(vec![pocket(2, 4, 10), pocket(5, 1, 1)]);
    assert!(inv.add(4, -3, Some(2), 30));
    assert_eq!(inv.get_pocket(2), Some(pocket(2, 4, 7)));
    assert!(inv.add(4, -7, Some(2), 30));
    assert_eq!(inv.pockets, vec![pocket(5, 1, 1)]);
}

#[test]
fn add_refusals_leave_inventory_unchanged() {
    let saved = vec![pocket(2, 4, 10)];
    let mut inv = inventory(saved.clone());
    // slot out of range
    assert!(!inv.add(4, 1, Some(30), 30));
    // another kind of item in the slot
    assert!(!inv.add(5, 1, Some(2), 30));
    // more taken than held
    assert!(!inv.add(4, -11, Some(2), 30));
    // nothing positive into an empty slot
    assert!(!inv.add(4, -1, Some(3), 30));
    assert!(!inv.add(4, 0, Some(3), 30));
    // above i32::MAX
    assert!(!inv.add(4, i32::MAX, Some(2), 30));
    assert_eq!(inv.pockets, saved);
}

#[test]
fn add_without_slot_prefers_lowest_stack_of_the_item() {
    let mut inv = inventory(vec![pocket(5, 4, 1), pocket(3, 4, 2), pocket(0, 9, 9)]);
    assert!(inv.add(4, 10, None, 30));
    assert_eq!(inv.get_pocket(3), Some(pocket(3, 4, 12)));
    assert_eq!(inv.get_pocket(5), Some(pocket(5, 4, 1)));
}

#[test]
fn add_without_slot_uses_first_free_slot() {
    let mut inv = inventory(vec![pocket(0, 9, 9), pocket(1, 8, 8), pocket(3, 7, 7)]);
    assert!(inv.add(4, 2, None, 30));
    assert_eq!(inv.get_pocket(2), Some(pocket(2, 4, 2)));
}

#[test]
fn add_without_slot_fails_when_full_or_not_positive() {
    let mut inv = inventory(vec![pocket(0, 9, 9), pocket(1, 8, 8)]);
    assert!(!inv.add(4, 2, None, 2));
    assert!(!inv.add(4, -2, None, 30));
    assert_eq!(inv.pockets.len(), 2);
}

#[test]
fn add_changes_only_the_total_of_its_item() {
    let mut inv = inventory(vec![pocket(0, 1, 5), pocket(1, 2, 6)]);
    assert!(inv.add(1, 3, None, 30));
    assert_eq!(total(&inv, 1), 8);
    assert_eq!(total(&inv, 2), 6);
}

#[test]
fn can_hold_checks_without_changing() {
    let inv = inventory(vec![pocket(0, 1, 5)]);
    assert!(inv.can_hold(&vec![(1, 3), (2, 4)], 2));
    assert!(!inv.can_hold(&vec![(2, 4), (3, 1)], 2));
    assert!(inv.can_hold(&vec![], 0));
    assert_eq!(inv.pockets, vec![pocket(0, 1, 5)]);
}

#[test]
fn combine_adds_pockets_and_drops_what_does_not_fit() {
    let mut inv = inventory(vec![pocket(0, 1, 5)]);
    let other = InventoryComponent { entity_id: 8, pockets: vec![pocket(4, 1, 2), pocket(0, 2, 3), pocket(1, 3, 1)] };
    inv.combine(&other, 2);
    assert_eq!(inv.pockets, vec![pocket(0, 1, 7), pocket(1, 2, 3)]);
    assert_eq!(inv.entity_id, 7);
}

#[test]
fn pocket_items_and_duplicate() {
    let inv = inventory(vec![pocket(3, 1, 5), pocket(0, 2, 6)]);
    assert_eq!(inv.pocket_items(), vec![(1, 5), (2, 6)]);
    let copy = inv.duplicate();
    assert_eq!(copy.pockets, inv.pockets);
    assert_eq!(copy.entity_id, 7);
    let empty = InventoryComponent::new(12);
    assert_eq!(empty.entity_id, 12);
    assert!(empty.pockets.is_empty());
}

#[test]
fn taking_back_what_was_added_restores_pockets() {
    let saved = vec![pocket(4, 1, 2), pocket(0, 2, 6)];
    let mut inv = inventory(saved.clone());
    assert!(inv.add(1, 5, Some(4), 30));
    assert!(inv.add(1, -5, Some(4), 30));
    assert_eq!(inv.pockets, saved);
    assert!(inv.add(3, 5, Some(9), 30));
    assert!(inv.add(3, -5, Some(9), 30));
    assert_eq!(inv.pockets, saved);
}
