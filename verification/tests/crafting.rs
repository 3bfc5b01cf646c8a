use strixcraft::crafting::{
    CraftingIngredient, CraftingRecipe, CraftingResult, CraftingSystem, InventoryItem,
};

fn empty_grid() -> [[Option<u32>; 3]; 3] {
    [[None; 3]; 3]
}

#[test]
fn default_book_holds_the_four_recipes() {
    let system = CraftingSystem::new();
    assert_eq!(system.get_all_recipes().len(), 4);
    let pickaxe = system
        .get_recipe(&"wooden_pickaxe".to_string())
        .expect("the pickaxe is a keyed shaped recipe");
    assert_eq!(pickaxe.result.item_id, 270);
    assert_eq!(pickaxe.result.count, 1);
    assert!(pickaxe.crafting_table);
    // shapeless recipes are not keyed by id
    assert!(system.get_recipe(&"wooden_planks".to_string()).is_none());
    assert!(system.get_recipe(&"no_such_recipe".to_string()).is_none());
}

#[test]
fn log_anywhere_matches_wooden_planks() {
    let system = CraftingSystem::new();
    let mut grid = empty_grid();
    grid[2][1] = Some(17);
    let recipe = system.find_matching_recipe(&grid, false).expect("a log crafts planks");
    assert_eq!(recipe.result.item_id, 5);
    assert_eq!(recipe.result.count, 4);
}

#[test]
fn two_planks_match_the_stick_recipe() {
    let system = CraftingSystem::new();
    let mut grid = empty_grid();
    grid[0][0] = Some(5);
    grid[1][0] = Some(5);
    let recipe = system.find_matching_recipe(&grid, false).expect("two planks craft sticks");
    assert_eq!(recipe.result.item_id, 280);
    assert_eq!(recipe.result.count, 4);
}

#[test]
fn four_planks_match_the_crafting_table_before_sticks() {
    let system = CraftingSystem::new();
    let mut grid = empty_grid();
    grid[0][0] = Some(5);
    grid[0][1] = Some(5);
    grid[1][0] = Some(5);
    grid[1][1] = Some(5);
    let recipe = system.find_matching_recipe(&grid, false).unwrap();
    assert_eq!(recipe.result.item_id, 58);
}

#[test]
fn pickaxe_needs_the_crafting_table() {
    let system = CraftingSystem::new();
    let mut grid = empty_grid();
    grid[0][0] = Some(5); // planks at the pickaxe's plank cell
    grid[1][1] = Some(280); // a stick at the stick cell
    let with_table = system.find_matching_recipe(&grid, true).unwrap();
    assert_eq!(with_table.result.item_id, 270);
    // without a table the shaped recipe is unavailable, and no
    // shapeless recipe covers this grid
    assert!(system.find_matching_recipe(&grid, false).is_none());
}

#[test]
fn empty_grid_matches_nothing() {
    let system = CraftingSystem::new();
    // an empty grid vacuously satisfies every shaped recipe's grid
    // cells only if those cells are empty, and the pickaxe's are not;
    // no shapeless recipe is covered either... except none with zero
    // demand exists, so nothing matches
    let grid = empty_grid();
    assert!(system.find_matching_recipe(&grid, false).is_none());
}

#[test]
fn add_recipe_replaces_a_shaped_recipe_with_the_same_id() {
    let mut system = CraftingSystem::new();
    system.add_recipe(CraftingRecipe {
        id: "wooden_pickaxe".to_string(),
        name: "Sturdier Pickaxe".to_string(),
        ingredients: vec![CraftingIngredient { item_id: 5, count: 3, position: Some((0, 0)) }],
        result: CraftingResult { item_id: 270, count: 2 },
        crafting_table: true,
        shapeless: false,
    });
    assert_eq!(system.get_all_recipes().len(), 4);
    let replaced = system.get_recipe(&"wooden_pickaxe".to_string()).unwrap();
    assert_eq!(replaced.result.count, 2);
    assert_eq!(replaced.name, "Sturdier Pickaxe");
}

#[test]
fn crafting_consumes_ingredients_and_adds_the_result() {
    let system = CraftingSystem::new();
    let pickaxe = system.get_recipe(&"wooden_pickaxe".to_string()).unwrap();
    let mut inventory = vec![
        InventoryItem { id: 5, count: 4, metadata: None },
        InventoryItem { id: 280, count: 2, metadata: None },
    ];
    let crafted = system.craft_item(&mut inventory, pickaxe).unwrap().unwrap();
    assert_eq!(crafted.id, 270);
    assert_eq!(crafted.count, 1);
    // 3 planks and both sticks were consumed; the emptied stick stack
    // is gone and the pickaxe was added
    let ids: Vec<(u32, u32)> = inventory.iter().map(|it| (it.id, it.count)).collect();
    assert_eq!(ids, vec![(5, 1), (270, 1)]);
}

#[test]
fn crafting_without_ingredients_fails_and_changes_nothing() {
    let system = CraftingSystem::new();
    let pickaxe = system.get_recipe(&"wooden_pickaxe".to_string()).unwrap();
    let mut inventory = vec![InventoryItem { id: 5, count: 2, metadata: None }];
    let err = system.craft_item(&mut inventory, pickaxe).unwrap_err();
    assert_eq!(err, "Not enough ingredients");
    assert_eq!(inventory.len(), 1);
    assert_eq!(inventory[0].count, 2);
}

#[test]
fn shaped_matching_rejects_positions_off_the_grid() {
    let system = CraftingSystem::new();
    let recipe = CraftingRecipe {
        id: "off_grid".to_string(),
        name: "Off Grid".to_string(),
        ingredients: vec![CraftingIngredient { item_id: 1, count: 1, position: Some((3, 0)) }],
        result: CraftingResult { item_id: 1, count: 1 },
        crafting_table: false,
        shapeless: false,
    };
    let mut grid = empty_grid();
    grid[0][0] = Some(1);
    assert!(!system.matches_shaped_recipe(&recipe, &grid));
}

#[test]
fn shapeless_matching_counts_grid_cells() {
    let system = CraftingSystem::new();
    let recipe = CraftingRecipe {
        id: "needs_three".to_string(),
        name: "Needs Three".to_string(),
        ingredients: vec![CraftingIngredient { item_id: 9, count: 3, position: None }],
        result: CraftingResult { item_id: 10, count: 1 },
        crafting_table: false,
        shapeless: true,
    };
    let mut grid = empty_grid();
    grid[0][0] = Some(9);
    grid[1][1] = Some(9);
    assert!(!system.matches_shapeless_recipe(&recipe, &grid));
    grid[2][2] = Some(9);
    assert!(system.matches_shapeless_recipe(&recipe, &grid));
}
