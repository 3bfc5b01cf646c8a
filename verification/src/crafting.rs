//! The crafting subsystem: a recipe book and the matching rules that
//! decide which recipe a 3 x 3 crafting grid produces, plus the
//! inventory arithmetic of actually crafting an item.

use vstd::prelude::*;

verus! {

/// One recipe: its ingredients, its result, whether it needs a crafting
/// table, and whether it is shapeless (matched by ingredient counts) or
/// shaped (matched by grid positions).
#[derive(Debug)]
pub struct CraftingRecipe {
    pub id: String,
    pub name: String,
    pub ingredients: Vec<CraftingIngredient>,
    pub result: CraftingResult,
    pub crafting_table: bool,
    pub shapeless: bool,
}

/// One required ingredient: an item, how many of it, and for shaped
/// recipes the (x, y) grid cell it must sit in.
#[derive(Debug)]
pub struct CraftingIngredient {
    pub item_id: u32,
    pub count: u32,
    pub position: Option<(u8, u8)>,
}

/// What a recipe produces.
#[derive(Debug)]
pub struct CraftingResult {
    pub item_id: u32,
    pub count: u32,
}

/// An inventory stack handled by crafting: an item, a count, and opaque
/// metadata that crafting carries but never inspects.
#[derive(Debug)]
pub struct InventoryItem {
    pub id: u32,
    pub count: u32,
    pub metadata: Option<serde_json::Value>,
}

impl Clone for InventoryItem {
    fn clone(&self) -> (c: InventoryItem)
        ensures
            c.id == self.id,
            c.count == self.count,
            c.metadata == self.metadata,
    {
        InventoryItem {
            id: self.id,
            count: self.count,
            metadata: match &self.metadata {
                Some(v) => Some(v.clone()),
                None => None,
            },
        }
    }
}

/// 1 when grid cell `c` holds exactly item `id`, else 0.
pub open spec fn cell_count(c: Option<u32>, id: u32) -> int {
    if c == Some(id) {
        1int
    } else {
        0int
    }
}

/// How many cells of the 3 x 3 grid hold item `id`.
pub open spec fn grid_count(g: [[Option<u32>; 3]; 3], id: u32) -> int {
    cell_count(g@[0]@[0], id) + cell_count(g@[0]@[1], id) + cell_count(g@[0]@[2], id)
        + cell_count(g@[1]@[0], id) + cell_count(g@[1]@[1], id) + cell_count(g@[1]@[2], id)
        + cell_count(g@[2]@[0], id) + cell_count(g@[2]@[1], id) + cell_count(g@[2]@[2], id)
}

/// A positioned ingredient is satisfied when its cell, which must lie
/// on the grid, holds exactly its item; an unpositioned ingredient
/// constrains a shaped recipe not at all.
pub open spec fn shaped_ingredient_ok(ing: CraftingIngredient, g: [[Option<u32>; 3]; 3]) -> bool {
    match ing.position {
        Some(p) => p.0 < 3 && p.1 < 3 && g@[p.1 as int]@[p.0 as int] == Some(ing.item_id),
        None => true,
    }
}

/// A shaped recipe matches the grid when every ingredient is satisfied
/// at its position.
pub open spec fn shaped_matches(rec: CraftingRecipe, g: [[Option<u32>; 3]; 3]) -> bool {
    forall|k: int|
        0 <= k < rec.ingredients@.len() ==> shaped_ingredient_ok(#[trigger] rec.ingredients@[k], g)
}

/// A shapeless recipe matches the grid when, for every ingredient, the
/// grid holds at least the required number of that item, wherever.
pub open spec fn shapeless_matches(rec: CraftingRecipe, g: [[Option<u32>; 3]; 3]) -> bool {
    forall|k: int|
        0 <= k < rec.ingredients@.len() ==> grid_count(
            g,
            (#[trigger] rec.ingredients@[k]).item_id,
        ) >= rec.ingredients@[k].count
}

/// Whether a recipe may be used in this crafting context: a recipe that
/// needs a crafting table is unavailable without one.
pub open spec fn recipe_allowed(rec: CraftingRecipe, use_crafting_table: bool) -> bool {
    !rec.crafting_table || use_crafting_table
}

/// The matching rule a recipe is judged by: counts for shapeless
/// recipes, positions for shaped ones.
pub open spec fn recipe_matches(rec: CraftingRecipe, g: [[Option<u32>; 3]; 3]) -> bool {
    if rec.shapeless {
        shapeless_matches(rec, g)
    } else {
        shaped_matches(rec, g)
    }
}

/// Whether some recipe of the sequence carries this id.
pub open spec fn has_recipe_id(s: Seq<CraftingRecipe>, id: Seq<char>) -> bool {
    exists|i: int| 0 <= i < s.len() && (#[trigger] s[i]).id@ == id
}

/// The index of the recipe carrying this id; meaningful only when
/// `has_recipe_id` holds.
pub open spec fn recipe_id_index(s: Seq<CraftingRecipe>, id: Seq<char>) -> int {
    choose|i: int| 0 <= i < s.len() && (#[trigger] s[i]).id@ == id
}

/// The recipe book: shaped recipes keyed by unique id, and the
/// shapeless recipes in registration order.
#[derive(Debug)]
pub struct CraftingSystem {
    pub recipes: Vec<CraftingRecipe>,
    pub shapeless_recipes: Vec<CraftingRecipe>,
}

impl CraftingSystem {
    /// Book invariant: the keyed list holds only shaped recipes, at most
    /// one per id; the shapeless list holds only shapeless recipes.
    pub open spec fn wf(self) -> bool {
        &&& forall|i: int|
            0 <= i < self.recipes@.len() ==> !(#[trigger] self.recipes@[i]).shapeless
        &&& forall|i: int, j: int|
            0 <= i < j < self.recipes@.len() ==> self.recipes@[i].id@ != self.recipes@[j].id@
        &&& forall|i: int|
            0 <= i < self.shapeless_recipes@.len() ==> (
            #[trigger] self.shapeless_recipes@[i]).shapeless
    }

    /// Registers a recipe: a shapeless recipe is appended to the
    /// shapeless list; a shaped recipe replaces the recipe already
    /// keyed by its id, or is appended when the id is new.
    pub fn add_recipe(&mut self, recipe: CraftingRecipe)
        requires
            old(self).wf(),
        ensures
            final(self).wf(),
            recipe.shapeless ==> {
                &&& final(self).shapeless_recipes@ == old(self).shapeless_recipes@.push(recipe)
                &&& final(self).recipes@ == old(self).recipes@
            },
            !recipe.shapeless ==> {
                &&& final(self).shapeless_recipes@ == old(self).shapeless_recipes@
                &&& if has_recipe_id(old(self).recipes@, recipe.id@) {
                    final(self).recipes@ == old(self).recipes@.update(
                        recipe_id_index(old(self).recipes@, recipe.id@),
                        recipe,
                    )
                } else {
                    final(self).recipes@ == old(self).recipes@.push(recipe)
                }
            },
    {
        if recipe.shapeless {
            self.shapeless_recipes.push(recipe);
        } else {
            let ghost pre = self.recipes@;
            let n = self.recipes.len();
            let mut i: usize = 0;
            while i < n
                invariant
                    old(self).wf(),
                    pre == old(self).recipes@,
                    *self == *old(self),
                    !recipe.shapeless,
                    n == self.recipes@.len(),
                    i <= n,
                    forall|j: int| 0 <= j < i ==> (#[trigger] pre[j]).id@ != recipe.id@,
                decreases n - i,
            {
                if self.recipes[i].id == recipe.id {
                    proof {
                        assert(pre[i as int].id@ == recipe.id@);
                        assert(has_recipe_id(pre, recipe.id@));
                        let j = recipe_id_index(pre, recipe.id@);
                        if j != i as int {
                            assert(pre[j].id@ == pre[i as int].id@);
                            assert(false);
                        }
                        let upd = pre.update(i as int, recipe);
                        assert forall|a: int, b: int| 0 <= a < b < upd.len() implies (
                        #[trigger] upd[a]).id@ != (#[trigger] upd[b]).id@ by {
                            assert(pre[a].id@ != pre[b].id@);
                            if a != i as int && b != i as int {
                                assert(upd[a] == pre[a] && upd[b] == pre[b]);
                            } else if a == i as int {
                                assert(upd[b] == pre[b] && pre[b].id@ != recipe.id@);
                            } else {
                                assert(upd[a] == pre[a] && pre[a].id@ != recipe.id@);
                            }
                        }
                        assert forall|a: int| 0 <= a < upd.len() implies !(#[trigger] upd[a]).shapeless by {
                            if a == i as int {
                                assert(upd[a] == recipe);
                            } else {
                                assert(upd[a] == pre[a]);
                                assert(!pre[a].shapeless);
                            }
                        }
                    }
                    self.recipes[i] = recipe;
                    return ;
                }
                i += 1;
            }
            proof {
                if has_recipe_id(pre, recipe.id@) {
                    let j = recipe_id_index(pre, recipe.id@);
                    assert(pre[j].id@ == recipe.id@);
                    assert(false);
                }
                let upd = pre.push(recipe);
                assert forall|a: int, b: int| 0 <= a < b < upd.len() implies (
                #[trigger] upd[a]).id@ != (#[trigger] upd[b]).id@ by {
                    if b < pre.len() {
                        assert(upd[a] == pre[a] && upd[b] == pre[b]);
                        assert(pre[a].id@ != pre[b].id@);
                    } else {
                        assert(upd[a] == pre[a] && upd[b] == recipe);
                        assert(pre[a].id@ != recipe.id@);
                    }
                }
                assert forall|a: int| 0 <= a < upd.len() implies !(#[trigger] upd[a]).shapeless by {
                    if a < pre.len() {
                        assert(upd[a] == pre[a]);
                        assert(!pre[a].shapeless);
                    } else {
                        assert(upd[a] == recipe);
                    }
                }
            }
            self.recipes.push(recipe);
        }
    }

    /// Looks a shaped recipe up by id: the unique recipe keyed by that
    /// id, or nothing when the id is unknown.
    pub fn get_recipe(&self, recipe_id: &String) -> (r: Option<&CraftingRecipe>)
        requires
            self.wf(),
        ensures
            match r {
                Some(rec) => has_recipe_id(self.recipes@, recipe_id@) && *rec == self.recipes@[
                    recipe_id_index(self.recipes@, recipe_id@)
                ],
                None => !has_recipe_id(self.recipes@, recipe_id@),
            },
    {
        let n = self.recipes.len();
        let mut i: usize = 0;
        while i < n
            invariant
                self.wf(),
                n == self.recipes@.len(),
                i <= n,
                forall|j: int| 0 <= j < i ==> (#[trigger] self.recipes@[j]).id@ != recipe_id@,
            decreases n - i,
        {
            if self.recipes[i].id == *recipe_id {
                proof {
                    assert(self.recipes@[i as int].id@ == recipe_id@);
                    let j = recipe_id_index(self.recipes@, recipe_id@);
                    if j != i as int {
                        assert(self.recipes@[j].id@ == self.recipes@[i as int].id@);
                    }
                }
                return Some(&self.recipes[i]);
            }
            i += 1;
        }
        None
    }

    /// Every registered recipe: the shaped recipes first, in key order,
    /// then the shapeless ones, in registration order.
    pub fn get_all_recipes(&self) -> (r: Vec<&CraftingRecipe>)
        ensures
            r@.len() == self.recipes@.len() + self.shapeless_recipes@.len(),
            forall|k: int|
                0 <= k < self.recipes@.len() ==> *(#[trigger] r@[k]) == self.recipes@[k],
            forall|k: int|
                self.recipes@.len() <= k < r@.len() ==> *(#[trigger] r@[k])
                    == self.shapeless_recipes@[k - self.recipes@.len()],
    {
        let mut out: Vec<&CraftingRecipe> = Vec::new();
        let n = self.recipes.len();
        let mut i: usize = 0;
        while i < n
            invariant
                n == self.recipes@.len(),
                i <= n,
                out@.len() == i,
                forall|k: int| 0 <= k < i ==> *(#[trigger] out@[k]) == self.recipes@[k],
            decreases n - i,
        {
            out.push(&self.recipes[i]);
            i += 1;
        }
        let m = self.shapeless_recipes.len();
        let mut j: usize = 0;
        while j < m
            invariant
                n == self.recipes@.len(),
                m == self.shapeless_recipes@.len(),
                j <= m,
                out@.len() == n + j,
                forall|k: int| 0 <= k < n ==> *(#[trigger] out@[k]) == self.recipes@[k],
                forall|k: int|
                    n <= k < out@.len() ==> *(#[trigger] out@[k]) == self.shapeless_recipes@[k
                        - n],
            decreases m - j,
        {
            out.push(&self.shapeless_recipes[j]);
            j += 1;
        }
        out
    }

    /// Whether one grid cell holds exactly item `id`.
    fn cell_has(c: &Option<u32>, id: u32) -> (b: bool)
        ensures
            b == (*c == Some(id)),
    {
        match c {
            Some(v) => *v == id,
            None => false,
        }
    }

    /// How many cells of the grid hold item `id`.
    fn count_in_grid(g: &[[Option<u32>; 3]; 3], id: u32) -> (n: u32)
        ensures
            n as int == grid_count(*g, id),
    {
        let mut n: u32 = 0;
        if Self::cell_has(&g[0][0], id) {
            n += 1;
        }
        if Self::cell_has(&g[0][1], id) {
            n += 1;
        }
        if Self::cell_has(&g[0][2], id) {
            n += 1;
        }
        if Self::cell_has(&g[1][0], id) {
            n += 1;
        }
        if Self::cell_has(&g[1][1], id) {
            n += 1;
        }
        if Self::cell_has(&g[1][2], id) {
            n += 1;
        }
        if Self::cell_has(&g[2][0], id) {
            n += 1;
        }
        if Self::cell_has(&g[2][1], id) {
            n += 1;
        }
        if Self::cell_has(&g[2][2], id) {
            n += 1;
        }
        n
    }

    /// Judges a shaped recipe against the grid: every positioned
    /// ingredient must sit at its cell.
    pub fn matches_shaped_recipe(&self, recipe: &CraftingRecipe, ingredients: &[[Option<
        u32,
    >; 3]; 3]) -> (b: bool)
        ensures
            b == shaped_matches(*recipe, *ingredients),
    {
        let n = recipe.ingredients.len();
        let mut k: usize = 0;
        while k < n
            invariant
                n == recipe.ingredients@.len(),
                k <= n,
                forall|j: int|
                    0 <= j < k ==> shaped_ingredient_ok(#[trigger] recipe.ingredients@[j],
                    *ingredients),
            decreases n - k,
        {
            let ing = &recipe.ingredients[k];
            match ing.position {
                Some(p) => {
                    if p.0 >= 3 || p.1 >= 3 {
                        return false;
                    }
                    if !Self::cell_has(&ingredients[p.1 as usize][p.0 as usize], ing.item_id) {
                        return false;
                    }
                },
                None => {},
            }
            k += 1;
        }
        true
    }

    /// Judges a shapeless recipe against the grid: for every
    /// ingredient, the grid must hold at least the required count of
    /// that item.
    pub fn matches_shapeless_recipe(&self, recipe: &CraftingRecipe, ingredients: &[[Option<
        u32,
    >; 3]; 3]) -> (b: bool)
        ensures
            b == shapeless_matches(*recipe, *ingredients),
    {
        let n = recipe.ingredients.len();
        let mut k: usize = 0;
        while k < n
            invariant
                n == recipe.ingredients@.len(),
                k <= n,
                forall|j: int|
                    0 <= j < k ==> grid_count(
                        *ingredients,
                        (#[trigger] recipe.ingredients@[j]).item_id,
                    ) >= recipe.ingredients@[j].count,
            decreases n - k,
        {
            let ing = &recipe.ingredients[k];
            let available = Self::count_in_grid(ingredients, ing.item_id);
            if available < ing.count {
                return false;
            }
            k += 1;
        }
        true
    }

    /// Finds a registered recipe that the grid satisfies in this
    /// context: shaped recipes are tried first in key order, then the
    /// shapeless ones in registration order; recipes requiring a
    /// crafting table are skipped without one. Nothing is returned if
    /// and only if no allowed registered recipe matches.
    pub fn find_matching_recipe(
        &self,
        ingredients: &[[Option<u32>; 3]; 3],
        use_crafting_table: bool,
    ) -> (r: Option<&CraftingRecipe>)
        requires
            self.wf(),
        ensures
            match r {
                Some(rec) => {
                    &&& recipe_allowed(*rec, use_crafting_table)
                    &&& recipe_matches(*rec, *ingredients)
                    &&& (exists|i: int|
                        0 <= i < self.recipes@.len() && *rec == #[trigger] self.recipes@[i])
                        || (exists|i: int|
                        0 <= i < self.shapeless_recipes@.len() && *rec
                            == #[trigger] self.shapeless_recipes@[i])
                },
                None => {
                    &&& forall|i: int|
                        0 <= i < self.recipes@.len() ==> !(recipe_allowed(
                            #[trigger] self.recipes@[i],
                            use_crafting_table,
                        ) && recipe_matches(self.recipes@[i], *ingredients))
                    &&& forall|i: int|
                        0 <= i < self.shapeless_recipes@.len() ==> !(recipe_allowed(
                            #[trigger] self.shapeless_recipes@[i],
                            use_crafting_table,
                        ) && recipe_matches(self.shapeless_recipes@[i], *ingredients))
                },
            },
    {
        let n = self.recipes.len();
        let mut i: usize = 0;
        while i < n
            invariant
                self.wf(),
                n == self.recipes@.len(),
                i <= n,
                forall|j: int|
                    0 <= j < i ==> !(recipe_allowed(
                        #[trigger] self.recipes@[j],
                        use_crafting_table,
                    ) && recipe_matches(self.recipes@[j], *ingredients)),
            decreases n - i,
        {
            let rec = &self.recipes[i];
            if !(rec.crafting_table && !use_crafting_table) {
                if self.matches_shaped_recipe(rec, ingredients) {
                    return Some(&self.recipes[i]);
                }
            }
            i += 1;
        }
        let m = self.shapeless_recipes.len();
        let mut j: usize = 0;
        while j < m
            invariant
                self.wf(),
                m == self.shapeless_recipes@.len(),
                j <= m,
                forall|jj: int|
                    0 <= jj < self.recipes@.len() ==> !(recipe_allowed(
                        #[trigger] self.recipes@[jj],
                        use_crafting_table,
                    ) && recipe_matches(self.recipes@[jj], *ingredients)),
                forall|jj: int|
                    0 <= jj < j ==> !(recipe_allowed(
                        #[trigger] self.shapeless_recipes@[jj],
                        use_crafting_table,
                    ) && recipe_matches(self.shapeless_recipes@[jj], *ingredients)),
            decreases m - j,
        {
            let rec = &self.shapeless_recipes[j];
            if !(rec.crafting_table && !use_crafting_table) {
                if self.matches_shapeless_recipe(rec, ingredients) {
                    return Some(&self.shapeless_recipes[j]);
                }
            }
            j += 1;
        }
        None
    }
}


/// The total number of item `id` held across all stacks.
pub open spec fn total_count(inv: Seq<InventoryItem>, id: u32) -> int
    decreases inv.len(),
{
    if inv.len() == 0 {
        0
    } else {
        total_count(inv.drop_last(), id) + if inv.last().id == id {
            inv.last().count as int
        } else {
            0int
        }
    }
}

/// The total number of item `id` that a recipe's ingredient list
/// demands, duplicate ingredient entries summed.
pub open spec fn needed_count(ings: Seq<CraftingIngredient>, id: u32) -> int
    decreases ings.len(),
{
    if ings.len() == 0 {
        0
    } else {
        needed_count(ings.drop_last(), id) + if ings.last().item_id == id {
            ings.last().count as int
        } else {
            0int
        }
    }
}

/// Each ingredient alone is covered by the inventory, duplicates not
/// summed: the check the crafting UI asks for.
pub open spec fn has_enough(inv: Seq<InventoryItem>, ings: Seq<CraftingIngredient>) -> bool {
    forall|k: int|
        0 <= k < ings.len() ==> total_count(inv, (#[trigger] ings[k]).item_id) >= ings[k].count
}

/// The inventory covers the full summed demand of the ingredient list:
/// exactly when sequential consumption goes through.
pub open spec fn enough_for(inv: Seq<InventoryItem>, ings: Seq<CraftingIngredient>) -> bool {
    forall|k: int|
        0 <= k < ings.len() ==> total_count(inv, (#[trigger] ings[k]).item_id) >= needed_count(
            ings,
            ings[k].item_id,
        )
}

/// Item totals are never negative.
proof fn lemma_total_count_nonneg(inv: Seq<InventoryItem>, id: u32)
    ensures
        total_count(inv, id) >= 0,
    decreases inv.len(),
{
    if inv.len() > 0 {
        lemma_total_count_nonneg(inv.drop_last(), id);
    }
}

/// Demand totals are never negative.
proof fn lemma_needed_count_nonneg(ings: Seq<CraftingIngredient>, id: u32)
    ensures
        needed_count(ings, id) >= 0,
    decreases ings.len(),
{
    if ings.len() > 0 {
        lemma_needed_count_nonneg(ings.drop_last(), id);
    }
}

/// Replacing one stack changes a total by exactly the difference that
/// stack contributes.
proof fn lemma_total_count_update(inv: Seq<InventoryItem>, i: int, it: InventoryItem, id: u32)
    requires
        0 <= i < inv.len(),
    ensures
        total_count(inv.update(i, it), id) == total_count(inv, id) - (if inv[i].id == id {
            inv[i].count as int
        } else {
            0int
        }) + (if it.id == id {
            it.count as int
        } else {
            0int
        }),
    decreases inv.len(),
{
    if i == inv.len() - 1 {
        assert(inv.update(i, it).drop_last() =~= inv.drop_last());
        assert(inv.update(i, it).last() == it);
    } else {
        assert(inv.update(i, it).drop_last() =~= inv.drop_last().update(i, it));
        assert(inv.update(i, it).last() == inv.last());
        lemma_total_count_update(inv.drop_last(), i, it, id);
    }
}

/// Removing one stack lowers a total by exactly what it contributed.
proof fn lemma_total_count_remove(inv: Seq<InventoryItem>, i: int, id: u32)
    requires
        0 <= i < inv.len(),
    ensures
        total_count(inv.remove(i), id) == total_count(inv, id) - (if inv[i].id == id {
            inv[i].count as int
        } else {
            0int
        }),
    decreases inv.len(),
{
    if i == inv.len() - 1 {
        assert(inv.remove(i) =~= inv.drop_last());
    } else {
        assert(inv.remove(i).drop_last() =~= inv.drop_last().remove(i));
        assert(inv.remove(i).last() == inv.last());
        lemma_total_count_remove(inv.drop_last(), i, id);
    }
}

/// Appending one stack raises a total by exactly what it contributes.
proof fn lemma_total_count_push(inv: Seq<InventoryItem>, it: InventoryItem, id: u32)
    ensures
        total_count(inv.push(it), id) == total_count(inv, id) + (if it.id == id {
            it.count as int
        } else {
            0int
        }),
{
    assert(inv.push(it).drop_last() =~= inv);
    assert(inv.push(it).last() == it);
}

/// One stack never holds more of an item than the whole inventory.
proof fn lemma_item_le_total(inv: Seq<InventoryItem>, i: int)
    requires
        0 <= i < inv.len(),
    ensures
        inv[i].count as int <= total_count(inv, inv[i].id),
    decreases inv.len(),
{
    if i == inv.len() - 1 {
        lemma_total_count_nonneg(inv.drop_last(), inv[i].id);
    } else {
        assert(inv.drop_last()[i] == inv[i]);
        lemma_item_le_total(inv.drop_last(), i);
    }
}

/// If every stack of item `id` is empty, the total is zero.
proof fn lemma_total_count_zero(inv: Seq<InventoryItem>, id: u32)
    requires
        forall|j: int| 0 <= j < inv.len() && (#[trigger] inv[j]).id == id ==> inv[j].count == 0,
    ensures
        total_count(inv, id) == 0,
    decreases inv.len(),
{
    if inv.len() > 0 {
        assert forall|j: int|
            0 <= j < inv.drop_last().len() && (#[trigger] inv.drop_last()[j]).id
                == id implies inv.drop_last()[j].count == 0 by {
            assert(inv.drop_last()[j] == inv[j]);
        }
        lemma_total_count_zero(inv.drop_last(), id);
        assert(inv.last() == inv[inv.len() - 1]);
    }
}

/// Extending an ingredient prefix by one entry adds that entry's
/// demand.
proof fn lemma_needed_count_step(ings: Seq<CraftingIngredient>, k: int, id: u32)
    requires
        0 <= k < ings.len(),
    ensures
        needed_count(ings.subrange(0, k + 1), id) == needed_count(ings.subrange(0, k), id) + (
        if ings[k].item_id == id {
            ings[k].count as int
        } else {
            0int
        }),
{
    assert(ings.subrange(0, k + 1).drop_last() =~= ings.subrange(0, k));
    assert(ings.subrange(0, k + 1).last() == ings[k]);
}

/// A prefix never demands more than the whole ingredient list.
proof fn lemma_needed_prefix_le(ings: Seq<CraftingIngredient>, j: int, id: u32)
    requires
        0 <= j <= ings.len(),
    ensures
        needed_count(ings.subrange(0, j), id) <= needed_count(ings, id),
    decreases ings.len() - j,
{
    if j == ings.len() {
        assert(ings.subrange(0, j) =~= ings);
    } else {
        lemma_needed_count_step(ings, j, id);
        lemma_needed_prefix_le(ings, j + 1, id);
    }
}

impl CraftingSystem {
    /// The total number of item `id` held across all inventory stacks.
    fn count_total(inventory: &Vec<InventoryItem>, id: u32) -> (n: u128)
        ensures
            n as int == total_count(inventory@, id),
    {
        let ghost inv = inventory@;
        let len = inventory.len();
        let mut n: u128 = 0;
        let mut i: usize = 0;
        while i < len
            invariant
                len == inv.len(),
                inventory@ == inv,
                i <= len,
                n as int == total_count(inv.subrange(0, i as int), id),
                n <= i * 0x1_0000_0000,
            decreases len - i,
        {
            proof {
                assert(inv.subrange(0, i as int + 1).drop_last() =~= inv.subrange(0, i as int));
                assert(inv.subrange(0, i as int + 1).last() == inv[i as int]);
            }
            if inventory[i].id == id {
                n += inventory[i].count as u128;
            }
            proof {
                assert((i + 1) * 0x1_0000_0000 == i * 0x1_0000_0000 + 0x1_0000_0000)
                    by (nonlinear_arith);
            }
            i += 1;
        }
        proof {
            assert(inv.subrange(0, len as int) =~= inv);
        }
        n
    }

    /// The total demand of the ingredient list for item `id`.
    fn count_needed(ingredients: &Vec<CraftingIngredient>, id: u32) -> (n: u128)
        ensures
            n as int == needed_count(ingredients@, id),
    {
        let ghost ings = ingredients@;
        let len = ingredients.len();
        let mut n: u128 = 0;
        let mut i: usize = 0;
        while i < len
            invariant
                len == ings.len(),
                ingredients@ == ings,
                i <= len,
                n as int == needed_count(ings.subrange(0, i as int), id),
                n <= i * 0x1_0000_0000,
            decreases len - i,
        {
            proof {
                lemma_needed_count_step(ings, i as int, id);
            }
            if ingredients[i].item_id == id {
                n += ingredients[i].count as u128;
            }
            proof {
                assert((i + 1) * 0x1_0000_0000 == i * 0x1_0000_0000 + 0x1_0000_0000)
                    by (nonlinear_arith);
            }
            i += 1;
        }
        proof {
            assert(ings.subrange(0, len as int) =~= ings);
        }
        n
    }

    /// Whether the inventory covers each ingredient of the recipe on
    /// its own, duplicate entries not summed.
    fn has_ingredients(&self, inventory: &Vec<InventoryItem>, recipe: &CraftingRecipe) -> (b:
        bool)
        ensures
            b == has_enough(inventory@, recipe.ingredients@),
    {
        let len = recipe.ingredients.len();
        let mut k: usize = 0;
        while k < len
            invariant
                len == recipe.ingredients@.len(),
                k <= len,
                forall|j: int|
                    0 <= j < k ==> total_count(
                        inventory@,
                        (#[trigger] recipe.ingredients@[j]).item_id,
                    ) >= recipe.ingredients@[j].count,
            decreases len - k,
        {
            let ing = &recipe.ingredients[k];
            let available = Self::count_total(inventory, ing.item_id);
            if available < ing.count as u128 {
                return false;
            }
            k += 1;
        }
        true
    }

    /// Whether the inventory covers the full summed demand of the
    /// recipe's ingredient list.
    fn covers_demand(&self, inventory: &Vec<InventoryItem>, recipe: &CraftingRecipe) -> (b: bool)
        ensures
            b == enough_for(inventory@, recipe.ingredients@),
    {
        let len = recipe.ingredients.len();
        let mut k: usize = 0;
        while k < len
            invariant
                len == recipe.ingredients@.len(),
                k <= len,
                forall|j: int|
                    0 <= j < k ==> total_count(
                        inventory@,
                        (#[trigger] recipe.ingredients@[j]).item_id,
                    ) >= needed_count(recipe.ingredients@, recipe.ingredients@[j].item_id),
            decreases len - k,
        {
            let ing = &recipe.ingredients[k];
            let available = Self::count_total(inventory, ing.item_id);
            let needed = Self::count_needed(&recipe.ingredients, ing.item_id);
            if available < needed {
                return false;
            }
            k += 1;
        }
        true
    }

    /// Takes `amount` of item `id` out of the inventory, draining
    /// stacks front to back; stack structure is otherwise untouched and
    /// no entry is removed here.
    fn consume_one(inventory: &mut Vec<InventoryItem>, id: u32, amount: u32)
        requires
            total_count(old(inventory)@, id) >= amount,
        ensures
            final(inventory)@.len() == old(inventory)@.len(),
            total_count(final(inventory)@, id) == total_count(old(inventory)@, id) - amount,
            forall|other: u32|
                other != id ==> total_count(final(inventory)@, other) == total_count(
                    old(inventory)@,
                    other,
                ),
    {
        let len = inventory.len();
        let mut remaining: u32 = amount;
        let mut i: usize = 0;
        while i < len
            invariant
                len == inventory@.len(),
                i <= len,
                remaining <= amount,
                total_count(old(inventory)@, id) >= amount,
                total_count(inventory@, id) == total_count(old(inventory)@, id) - (amount
                    - remaining),
                forall|other: u32|
                    other != id ==> total_count(inventory@, other) == total_count(
                        old(inventory)@,
                        other,
                    ),
                remaining > 0 ==> forall|j: int|
                    0 <= j < i && (#[trigger] inventory@[j]).id == id ==> inventory@[j].count
                        == 0,
            decreases len - i,
        {
            let ghost before = inventory@;
            if remaining > 0 && inventory[i].id == id {
                let take: u32 = if remaining < inventory[i].count {
                    remaining
                } else {
                    inventory[i].count
                };
                let newc: u32 = inventory[i].count - take;
                inventory[i].count = newc;
                remaining = remaining - take;
                proof {
                    let it = inventory@[i as int];
                    assert(inventory@ == before.update(i as int, it));
                    assert forall|other: u32| true implies total_count(
                        before.update(i as int, it),
                        other,
                    ) == total_count(before, other) - (if before[i as int].id == other {
                        before[i as int].count as int
                    } else {
                        0int
                    }) + (if it.id == other {
                        it.count as int
                    } else {
                        0int
                    }) by {
                        lemma_total_count_update(before, i as int, it, other);
                    }
                }
            }
            i += 1;
        }
        proof {
            if remaining > 0 {
                lemma_total_count_zero(inventory@, id);
            }
        }
    }

    /// Consumes the recipe's full ingredient demand from the inventory,
    /// then drops every emptied stack. Never fails when the inventory
    /// covers the summed demand, which the caller has checked.
    fn consume_ingredients(&self, inventory: &mut Vec<InventoryItem>, recipe: &CraftingRecipe)
        -> (r: Result<(), String>)
        requires
            enough_for(old(inventory)@, recipe.ingredients@),
        ensures
            r is Ok,
            forall|id: u32|
                #[trigger] total_count(final(inventory)@, id) == total_count(old(inventory)@, id)
                    - needed_count(recipe.ingredients@, id),
            forall|j: int|
                0 <= j < final(inventory)@.len() ==> (#[trigger] final(inventory)@[j]).count > 0,
    {
        let ghost inv0 = old(inventory)@;
        let ghost ings = recipe.ingredients@;
        let len = recipe.ingredients.len();
        let mut k: usize = 0;
        while k < len
            invariant
                len == ings.len(),
                recipe.ingredients@ == ings,
                k <= len,
                enough_for(inv0, ings),
                inventory@.len() == inv0.len(),
                forall|id: u32|
                    #[trigger] total_count(inventory@, id) == total_count(inv0, id)
                        - needed_count(ings.subrange(0, k as int), id),
            decreases len - k,
        {
            let ing_id = recipe.ingredients[k].item_id;
            let ing_count = recipe.ingredients[k].count;
            proof {
                lemma_needed_count_step(ings, k as int, ing_id);
                lemma_needed_prefix_le(ings, k as int + 1, ing_id);
                lemma_needed_count_nonneg(ings.subrange(0, k as int), ing_id);
                assert(total_count(inventory@, ing_id) >= ing_count);
            }
            let ghost before = inventory@;
            Self::consume_one(inventory, ing_id, ing_count);
            proof {
                assert forall|id: u32| #[trigger] total_count(inventory@, id) == total_count(
                    inv0,
                    id,
                ) - needed_count(ings.subrange(0, k as int + 1), id) by {
                    lemma_needed_count_step(ings, k as int, id);
                    if id != ing_id {
                        assert(total_count(inventory@, id) == total_count(before, id));
                    }
                }
            }
            k += 1;
        }
        proof {
            assert(ings.subrange(0, len as int) =~= ings);
        }
        let mut i: usize = inventory.len();
        while i > 0
            invariant
                i <= inventory@.len(),
                forall|id: u32|
                    #[trigger] total_count(inventory@, id) == total_count(inv0, id)
                        - needed_count(ings, id),
                forall|j: int|
                    i <= j < inventory@.len() ==> (#[trigger] inventory@[j]).count > 0,
            decreases i,
        {
            i -= 1;
            if inventory[i].count == 0 {
                let ghost before = inventory@;
                inventory.remove(i);
                proof {
                    before.remove_ensures(i as int);
                    assert forall|id: u32| #[trigger] total_count(inventory@, id) == total_count(
                        inv0,
                        id,
                    ) - needed_count(ings, id) by {
                        lemma_total_count_remove(before, i as int, id);
                    }
                    assert forall|j: int|
                        i <= j < inventory@.len() implies (#[trigger] inventory@[j]).count
                        > 0 by {
                        assert(inventory@[j] == before[j + 1]);
                    }
                }
            }
        }
        Ok(())
    }

    /// Adds the freshly crafted stack to the inventory: merged into the
    /// first stack of the same item, or appended as a new stack.
    fn add_item_to_inventory(&self, inventory: &mut Vec<InventoryItem>, new_item: InventoryItem)
        -> (r: Result<(), String>)
        requires
            total_count(old(inventory)@, new_item.id) + new_item.count <= u32::MAX,
        ensures
            r is Ok,
            total_count(final(inventory)@, new_item.id) == total_count(old(inventory)@, new_item.id)
                + new_item.count,
            forall|other: u32|
                other != new_item.id ==> total_count(final(inventory)@, other) == total_count(
                    old(inventory)@,
                    other,
                ),
    {
        let len = inventory.len();
        let mut i: usize = 0;
        while i < len
            invariant
                len == inventory@.len(),
                i <= len,
                *inventory == *old(inventory),
                total_count(old(inventory)@, new_item.id) + new_item.count <= u32::MAX,
            decreases len - i,
        {
            if inventory[i].id == new_item.id {
                proof {
                    lemma_item_le_total(inventory@, i as int);
                }
                let merged: u32 = inventory[i].count + new_item.count;
                let ghost before = inventory@;
                inventory[i].count = merged;
                proof {
                    let it = inventory@[i as int];
                    assert(inventory@ == before.update(i as int, it));
                    assert forall|id: u32| true implies total_count(inventory@, id)
                        == total_count(before, id) - (if before[i as int].id == id {
                        before[i as int].count as int
                    } else {
                        0int
                    }) + (if it.id == id {
                        it.count as int
                    } else {
                        0int
                    }) by {
                        lemma_total_count_update(before, i as int, it, id);
                    }
                }
                return Ok(());
            }
            i += 1;
        }
        let ghost before = inventory@;
        let ghost pushed_id = new_item.id;
        inventory.push(new_item);
        proof {
            assert forall|id: u32| true implies total_count(inventory@, id) == total_count(
                before,
                id,
            ) + (if id == pushed_id {
                inventory@.last().count as int
            } else {
                0int
            }) by {
                lemma_total_count_push(before, inventory@.last(), id);
            }
        }
        Ok(())
    }

    /// Crafts one recipe out of the inventory: checks that the summed
    /// ingredient demand is covered, consumes it, drops emptied stacks
    /// and adds the result stack. On failure the inventory is untouched.
    /// The bound on the result total only rules out a counter overflow.
    pub fn craft_item(&self, inventory: &mut Vec<InventoryItem>, recipe: &CraftingRecipe) -> (r:
        Result<Option<InventoryItem>, String>)
        requires
            total_count(old(inventory)@, recipe.result.item_id) + recipe.result.count
                <= u32::MAX,
        ensures
            match r {
                Ok(opt) => match opt {
                    Some(item) => {
                        &&& item.id == recipe.result.item_id
                        &&& item.count == recipe.result.count
                        &&& item.metadata is None
                        &&& enough_for(old(inventory)@, recipe.ingredients@)
                        &&& forall|id: u32|
                            #[trigger] total_count(final(inventory)@, id) == total_count(
                                old(inventory)@,
                                id,
                            ) - needed_count(recipe.ingredients@, id) + (if id
                                == recipe.result.item_id {
                                recipe.result.count as int
                            } else {
                                0int
                            })
                    },
                    None => false,
                },
                Err(_) => {
                    &&& !enough_for(old(inventory)@, recipe.ingredients@)
                    &&& final(inventory)@ == old(inventory)@
                },
            },
    {
        if !self.covers_demand(inventory, recipe) {
            return Err("Not enough ingredients".to_string());
        }
        let ghost inv0 = inventory@;
        match self.consume_ingredients(inventory, recipe) {
            Ok(()) => {},
            Err(e) => {
                return Err(e);
            },
        }
        proof {
            lemma_needed_count_nonneg(recipe.ingredients@, recipe.result.item_id);
        }
        let result_item = InventoryItem {
            id: recipe.result.item_id,
            count: recipe.result.count,
            metadata: None,
        };
        match self.add_item_to_inventory(inventory, result_item.clone()) {
            Ok(()) => {},
            Err(e) => {
                return Err(e);
            },
        }
        Ok(Some(result_item))
    }
}


/// The book of default recipes: wooden planks, a crafting table and
/// sticks as shapeless recipes, in that order, and the wooden pickaxe
/// as the one shaped recipe.
pub open spec fn default_book(s: CraftingSystem) -> bool {
    &&& s.shapeless_recipes@.len() == 3
    &&& s.recipes@.len() == 1
    &&& s.shapeless_recipes@[0].id@ == "wooden_planks"@
    &&& s.shapeless_recipes@[0].ingredients@.len() == 1
    &&& s.shapeless_recipes@[0].ingredients@[0].item_id == 17
    &&& s.shapeless_recipes@[0].ingredients@[0].count == 1
    &&& s.shapeless_recipes@[0].result.item_id == 5
    &&& s.shapeless_recipes@[0].result.count == 4
    &&& !s.shapeless_recipes@[0].crafting_table
    &&& s.shapeless_recipes@[1].id@ == "crafting_table"@
    &&& s.shapeless_recipes@[1].ingredients@.len() == 1
    &&& s.shapeless_recipes@[1].ingredients@[0].item_id == 5
    &&& s.shapeless_recipes@[1].ingredients@[0].count == 4
    &&& s.shapeless_recipes@[1].result.item_id == 58
    &&& s.shapeless_recipes@[1].result.count == 1
    &&& !s.shapeless_recipes@[1].crafting_table
    &&& s.shapeless_recipes@[2].id@ == "stick"@
    &&& s.shapeless_recipes@[2].ingredients@.len() == 1
    &&& s.shapeless_recipes@[2].ingredients@[0].item_id == 5
    &&& s.shapeless_recipes@[2].ingredients@[0].count == 2
    &&& s.shapeless_recipes@[2].result.item_id == 280
    &&& s.shapeless_recipes@[2].result.count == 4
    &&& !s.shapeless_recipes@[2].crafting_table
    &&& s.recipes@[0].id@ == "wooden_pickaxe"@
    &&& s.recipes@[0].ingredients@.len() == 2
    &&& s.recipes@[0].ingredients@[0].item_id == 5
    &&& s.recipes@[0].ingredients@[0].count == 3
    &&& s.recipes@[0].ingredients@[0].position == Some((0u8, 0u8))
    &&& s.recipes@[0].ingredients@[1].item_id == 280
    &&& s.recipes@[0].ingredients@[1].count == 2
    &&& s.recipes@[0].ingredients@[1].position == Some((1u8, 1u8))
    &&& s.recipes@[0].result.item_id == 270
    &&& s.recipes@[0].result.count == 1
    &&& s.recipes@[0].crafting_table
}

impl CraftingSystem {
    /// Registers the default recipes into an empty book.
    pub fn initialize_default_recipes(&mut self)
        requires
            old(self).wf(),
            old(self).recipes@.len() == 0,
            old(self).shapeless_recipes@.len() == 0,
        ensures
            final(self).wf(),
            default_book(*final(self)),
    {
        let mut planks_ings: Vec<CraftingIngredient> = Vec::new();
        planks_ings.push(CraftingIngredient { item_id: 17, count: 1, position: None });
        self.add_recipe(
            CraftingRecipe {
                id: "wooden_planks".to_string(),
                name: "Wooden Planks".to_string(),
                ingredients: planks_ings,
                result: CraftingResult { item_id: 5, count: 4 },
                crafting_table: false,
                shapeless: true,
            },
        );
        let mut table_ings: Vec<CraftingIngredient> = Vec::new();
        table_ings.push(CraftingIngredient { item_id: 5, count: 4, position: None });
        self.add_recipe(
            CraftingRecipe {
                id: "crafting_table".to_string(),
                name: "Crafting Table".to_string(),
                ingredients: table_ings,
                result: CraftingResult { item_id: 58, count: 1 },
                crafting_table: false,
                shapeless: true,
            },
        );
        let mut pickaxe_ings: Vec<CraftingIngredient> = Vec::new();
        pickaxe_ings.push(CraftingIngredient { item_id: 5, count: 3, position: Some((0, 0)) });
        pickaxe_ings.push(CraftingIngredient { item_id: 280, count: 2, position: Some((1, 1)) });
        self.add_recipe(
            CraftingRecipe {
                id: "wooden_pickaxe".to_string(),
                name: "Wooden Pickaxe".to_string(),
                ingredients: pickaxe_ings,
                result: CraftingResult { item_id: 270, count: 1 },
                crafting_table: true,
                shapeless: false,
            },
        );
        let mut stick_ings: Vec<CraftingIngredient> = Vec::new();
        stick_ings.push(CraftingIngredient { item_id: 5, count: 2, position: None });
        self.add_recipe(
            CraftingRecipe {
                id: "stick".to_string(),
                name: "Stick".to_string(),
                ingredients: stick_ings,
                result: CraftingResult { item_id: 280, count: 4 },
                crafting_table: false,
                shapeless: true,
            },
        );
    }

    /// An empty book filled with the default recipes.
    pub fn new() -> (r: CraftingSystem)
        ensures
            r.wf(),
            default_book(r),
    {
        let mut system = CraftingSystem { recipes: Vec::new(), shapeless_recipes: Vec::new() };
        system.initialize_default_recipes();
        system
    }
}

} // verus!
