use serde_json::Value;
use strixcraft::inventory::InventorySystem;

#[test]
fn create_inventory_is_empty_with_the_requested_size() {
    let inv = InventorySystem::create_inventory(36, 9);
    assert_eq!(inv.size, 36);
    assert_eq!(inv.hotbar_size, 9);
    assert_eq!(inv.selected_slot, 0);
    assert_eq!(inv.items.len(), 36);
    assert!(inv.items.iter().all(|s| s.is_none()));
}

#[test]
fn add_item_stacks_up_to_sixty_four_then_spills() {
    let system = InventorySystem::new();
    let mut inv = InventorySystem::create_inventory(36, 9);
    assert_eq!(system.add_item(&mut inv, 1, 70, None), Ok(0));
    let slot0 = inv.items[0].as_ref().unwrap();
    let slot1 = inv.items[1].as_ref().unwrap();
    assert_eq!((slot0.id, slot0.count, slot0.slot), (1, 64, 0));
    assert_eq!((slot1.id, slot1.count, slot1.slot), (1, 6, 1));
    assert_eq!(system.get_item_count(&inv, 1), 70);
    // a later add tops the partial stack up first
    assert_eq!(system.add_item(&mut inv, 1, 10, None), Ok(0));
    assert_eq!(inv.items[1].as_ref().unwrap().count, 16);
    assert_eq!(system.get_item_count(&inv, 1), 80);
}

#[test]
fn add_item_reports_what_found_no_room() {
    let system = InventorySystem::new();
    let mut inv = InventorySystem::create_inventory(1, 1);
    // one slot holds at most 64: 36 of the 100 cannot be placed
    assert_eq!(system.add_item(&mut inv, 7, 100, None), Ok(36));
    assert_eq!(system.get_item_count(&inv, 7), 64);
    // a full inventory takes nothing more
    assert_eq!(system.add_item(&mut inv, 7, 5, None), Ok(5));
}

#[test]
fn add_item_with_zero_count_changes_nothing() {
    let system = InventorySystem::new();
    let mut inv = InventorySystem::create_inventory(4, 4);
    assert_eq!(system.add_item(&mut inv, 3, 0, None), Ok(0));
    assert!(inv.items.iter().all(|s| s.is_none()));
}

#[test]
fn remove_item_drains_stacks_and_reports_the_shortfall() {
    let system = InventorySystem::new();
    let mut inv = InventorySystem::create_inventory(36, 9);
    system.add_item(&mut inv, 1, 70, None).unwrap();
    assert_eq!(system.remove_item(&mut inv, 1, 65), Ok(0));
    assert_eq!(system.get_item_count(&inv, 1), 5);
    // draining a stack to zero clears its slot
    assert!(inv.items[0].is_none());
    // only 5 remain, so 5 of the requested 10 cannot be removed
    assert_eq!(system.remove_item(&mut inv, 1, 10), Ok(5));
    assert_eq!(system.get_item_count(&inv, 1), 0);
}

#[test]
fn has_item_checks_the_total_across_stacks() {
    let system = InventorySystem::new();
    let mut inv = InventorySystem::create_inventory(36, 9);
    system.add_item(&mut inv, 2, 80, None).unwrap();
    assert!(system.has_item(&inv, 2, 80));
    assert!(!system.has_item(&inv, 2, 81));
    assert!(!system.has_item(&inv, 3, 1));
}

#[test]
fn selected_slot_is_bounded_by_the_hotbar() {
    let system = InventorySystem::new();
    let mut inv = InventorySystem::create_inventory(36, 9);
    assert!(system.set_selected_slot(&mut inv, 8).is_ok());
    assert_eq!(inv.selected_slot, 8);
    assert_eq!(system.set_selected_slot(&mut inv, 9).unwrap_err(), "Invalid hotbar slot");
    assert_eq!(inv.selected_slot, 8);
}

#[test]
fn get_selected_item_returns_the_hotbar_stack() {
    let system = InventorySystem::new();
    let mut inv = InventorySystem::create_inventory(36, 9);
    assert!(system.get_selected_item(&inv).is_none());
    system.add_item(&mut inv, 4, 3, None).unwrap();
    let it = system.get_selected_item(&inv).unwrap();
    assert_eq!((it.id, it.count), (4, 3));
}

#[test]
fn move_item_swaps_slots_and_renumbers() {
    let system = InventorySystem::new();
    let mut inv = InventorySystem::create_inventory(36, 9);
    system.add_item(&mut inv, 4, 3, None).unwrap();
    assert!(system.move_item(&mut inv, 0, 20).is_ok());
    assert!(inv.items[0].is_none());
    let moved = inv.items[20].as_ref().unwrap();
    assert_eq!((moved.id, moved.count, moved.slot), (4, 3, 20));
    assert_eq!(system.move_item(&mut inv, 0, 36).unwrap_err(), "Invalid slot");
}

#[test]
fn split_stack_moves_half_to_the_first_empty_slot() {
    let system = InventorySystem::new();
    let mut inv = InventorySystem::create_inventory(4, 4);
    let tag = Some(Value::String("oak".to_string()));
    system.add_item(&mut inv, 4, 5, tag.clone()).unwrap();
    assert!(system.split_stack(&mut inv, 0).is_ok());
    let kept = inv.items[0].as_ref().unwrap();
    let split = inv.items[1].as_ref().unwrap();
    assert_eq!((kept.id, kept.count), (4, 3));
    assert_eq!((split.id, split.count, split.slot), (4, 2, 1));
    // the split half carries a copy of the stack's metadata
    assert_eq!(split.metadata, tag);
    assert_eq!(kept.metadata, tag);
    // splitting a single item does nothing
    let mut single = InventorySystem::create_inventory(4, 4);
    system.add_item(&mut single, 4, 1, None).unwrap();
    assert!(system.split_stack(&mut single, 0).is_ok());
    assert_eq!(single.items[0].as_ref().unwrap().count, 1);
    assert!(single.items[1].is_none());
    // a slot beyond the inventory is rejected
    assert_eq!(system.split_stack(&mut inv, 4).unwrap_err(), "Invalid slot");
}

#[test]
fn item_values_follow_the_valuation_table() {
    let system = InventorySystem::new();
    assert_eq!(system.get_item_value(1), 1);
    assert_eq!(system.get_item_value(17), 2);
    assert_eq!(system.get_item_value(264), 5);
    assert_eq!(system.get_item_value(265), 10);
    assert_eq!(system.get_item_value(267), 50);
    assert_eq!(system.get_item_value(268), 30);
    assert_eq!(system.get_item_value(9999), 1);
}

#[test]
fn inventory_value_sums_value_times_count() {
    let system = InventorySystem::new();
    let mut inv = InventorySystem::create_inventory(36, 9);
    system.add_item(&mut inv, 267, 2, None).unwrap(); // diamonds: 50 each
    system.add_item(&mut inv, 17, 3, None).unwrap(); // wood: 2 each
    assert_eq!(system.get_inventory_value(&inv), 106);
}

#[test]
fn clear_inventory_empties_every_slot() {
    let system = InventorySystem::new();
    let mut inv = InventorySystem::create_inventory(8, 4);
    system.add_item(&mut inv, 1, 100, None).unwrap();
    system.clear_inventory(&mut inv);
    assert!(inv.items.iter().all(|s| s.is_none()));
    assert_eq!(inv.items.len(), 8);
}
