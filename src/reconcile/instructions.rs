use vstd::prelude::*;
use crate::models::{strs, Instruction, InstructionInsert};
use crate::composer::{display_sorted, instruction_texts, is_composed};
use crate::models::{Bookmark, Ingredient, Recipe, RecipeIngredient, RecipeResultDTO, RecipeTag, RecipeUser, Tag};

verus! {

/// A new text for an existing instruction row.
pub struct TextUpdate {
    pub id: i32,
    pub instruction: String,
}

/// The writes that bring a recipe's instructions to a requested list.
pub struct InstructionPlan {
    /// Rows to delete, by id, highest display order first.
    pub deletes: Vec<i32>,
    /// Rows whose text changes.
    pub updates: Vec<TextUpdate>,
    /// Rows to append after the existing ones.
    pub inserts: Vec<InstructionInsert>,
}

pub open spec fn update_view(u: TextUpdate) -> (i32, Seq<char>) {
    (u.id, u.instruction@)
}

/// Ids of the rows past the first `keep`, from the last one back.
pub open spec fn trailing_ids(existing: Seq<Instruction>, keep: int) -> Seq<i32> {
    if existing.len() <= keep {
        Seq::empty()
    } else {
        Seq::new((existing.len() - keep) as nat, |k: int| existing[existing.len() - 1 - k].id)
    }
}

/// Text updates for the first `n` positions: one for each position whose
/// text differs from the requested one.
pub open spec fn changed_texts(existing: Seq<Instruction>, requested: Seq<String>, n: nat) -> Seq<(i32, Seq<char>)>
    decreases n,
{
    if n == 0 {
        Seq::empty()
    } else if existing[n - 1].instruction@ != requested[n - 1]@ {
        changed_texts(existing, requested, (n - 1) as nat).push((existing[n - 1].id, requested[n - 1]@))
    } else {
        changed_texts(existing, requested, (n - 1) as nat)
    }
}

pub open spec fn min(a: int, b: int) -> int {
    if a < b { a } else { b }
}

/// Whether `plan` is the plan for the request: trailing rows beyond the
/// request are deleted, the common prefix is updated where the text
/// differs, and the rest of the request is appended with display orders
/// continuing from the existing rows.
pub open spec fn is_instruction_plan(
    plan: InstructionPlan,
    existing: Seq<Instruction>,
    requested: Seq<String>,
    recipe_id: i32,
) -> bool {
    &&& plan.deletes@ == trailing_ids(existing, requested.len() as int)
    &&& plan.updates@.map_values(|u: TextUpdate| update_view(u)) == changed_texts(
        existing,
        requested,
        min(existing.len() as int, requested.len() as int) as nat,
    )
    &&& plan.inserts.len() == if requested.len() > existing.len() { requested.len() - existing.len() } else { 0 }
    &&& forall|k: int|
        0 <= k < plan.inserts.len() ==> {
            &&& (#[trigger] plan.inserts@[k]).instruction@ == requested[existing.len() + k]@
            &&& plan.inserts@[k].display_order == existing.len() + k
            &&& plan.inserts@[k].recipe_id == recipe_id
        }
}

/// Plans the writes that turn a recipe's instructions `existing`, listed by
/// display order, into the `requested` texts.
pub fn plan_instruction_update(existing: &Vec<Instruction>, requested: &Vec<String>, recipe_id: i32) -> (r: InstructionPlan)
    requires
        requested.len() <= i32::MAX,
    ensures
        is_instruction_plan(r, existing@, requested@, recipe_id),
{
    let old_len = existing.len();
    let new_len = requested.len();
    let common = if old_len < new_len { old_len } else { new_len };
    let mut deletes: Vec<i32> = Vec::new();
    if old_len > new_len {
        let mut k: usize = 0;
        while k < old_len - new_len
            invariant
                old_len == existing.len(),
                new_len == requested.len(),
                old_len > new_len,
                k <= old_len - new_len,
                deletes@ == Seq::new(k as nat, |x: int| existing@[old_len - 1 - x].id),
            decreases old_len - new_len - k,
        {
            deletes.push(existing[old_len - 1 - k].id);
            k = k + 1;
            assert(deletes@ =~= Seq::new(k as nat, |x: int| existing@[old_len - 1 - x].id));
        }
    }
    assert(deletes@ =~= trailing_ids(existing@, new_len as int));
    let mut updates: Vec<TextUpdate> = Vec::new();
    let mut i: usize = 0;
    while i < common
        invariant
            common <= existing.len(),
            common <= requested.len(),
            common as int == min(existing.len() as int, requested.len() as int),
            i <= common,
            updates@.map_values(|u: TextUpdate| update_view(u)) == changed_texts(existing@, requested@, i as nat),
        decreases common - i,
    {
        let ghost before = updates@.map_values(|u: TextUpdate| update_view(u));
        if !existing[i].instruction.eq(&requested[i]) {
            updates.push(TextUpdate { id: existing[i].id, instruction: requested[i].clone() });
            assert(updates@.map_values(|u: TextUpdate| update_view(u)) =~= before.push(
                (existing@[i as int].id, requested@[i as int]@),
            ));
        }
        i = i + 1;
    }
    let mut inserts: Vec<InstructionInsert> = Vec::new();
    let mut p: usize = old_len;
    while p < new_len
        invariant
            old_len == existing.len(),
            new_len == requested.len(),
            new_len <= i32::MAX,
            old_len <= p <= new_len || (old_len > new_len && p == old_len),
            inserts.len() == if p >= old_len { p - old_len } else { 0 },
            forall|k: int|
                0 <= k < inserts.len() ==> {
                    &&& (#[trigger] inserts@[k]).instruction@ == requested@[old_len + k]@
                    &&& inserts@[k].display_order == old_len + k
                    &&& inserts@[k].recipe_id == recipe_id
                },
        decreases new_len - p,
    {
        inserts.push(InstructionInsert { instruction: requested[p].clone(), display_order: p as i32, recipe_id });
        p = p + 1;
    }
    InstructionPlan { deletes, updates, inserts }
}

/// The rows a new recipe gets for its instructions: one per text, with
/// display orders 0, 1, 2, ...
pub fn new_instruction_rows(requested: &Vec<String>, recipe_id: i32) -> (r: Vec<InstructionInsert>)
    requires
        requested.len() <= i32::MAX,
    ensures
        is_new_instruction_rows(r@, requested@, recipe_id),
{
    let mut rows: Vec<InstructionInsert> = Vec::new();
    let mut k: usize = 0;
    while k < requested.len()
        invariant
            k <= requested.len() <= i32::MAX,
            rows.len() == k,
            forall|x: int|
                0 <= x < k ==> {
                    &&& (#[trigger] rows@[x]).instruction@ == requested@[x]@
                    &&& rows@[x].display_order == x
                    &&& rows@[x].recipe_id == recipe_id
                },
        decreases requested.len() - k,
    {
        rows.push(InstructionInsert { instruction: requested[k].clone(), display_order: k as i32, recipe_id });
        k = k + 1;
    }
    rows
}


/// The rows of a new recipe's instructions: one per text, in order, with
/// display orders 0, 1, 2, ...
pub open spec fn is_new_instruction_rows(rows: Seq<InstructionInsert>, requested: Seq<String>, recipe_id: i32) -> bool {
    &&& rows.len() == requested.len()
    &&& forall|k: int|
        0 <= k < rows.len() ==> {
            &&& (#[trigger] rows[k]).instruction@ == requested[k]@
            &&& rows[k].display_order == k
            &&& rows[k].recipe_id == recipe_id
        }
}

/// Whether `rows` is what the store holds after inserting `inserts`: the
/// same fields in the same order, with ids of its choosing.
pub open spec fn stored_as(rows: Seq<Instruction>, inserts: Seq<InstructionInsert>) -> bool {
    &&& rows.len() == inserts.len()
    &&& forall|k: int|
        0 <= k < rows.len() ==> {
            &&& (#[trigger] rows[k]).instruction@ == inserts[k].instruction@
            &&& rows[k].display_order == inserts[k].display_order
            &&& rows[k].recipe_id == inserts[k].recipe_id
        }
}

/// Display orders strictly increase along `rows`.
pub open spec fn in_display_order(rows: Seq<Instruction>) -> bool {
    forall|a: int, b: int| 0 <= a < b < rows.len() ==> rows[a].display_order < rows[b].display_order
}

proof fn lemma_texts_all_of_recipe(rows: Seq<Instruction>, rid: i32)
    requires
        forall|k: int| 0 <= k < rows.len() ==> (#[trigger] rows[k]).recipe_id == rid,
    ensures
        instruction_texts(rows, rid) == rows.map_values(|r: Instruction| r.instruction@),
    decreases rows.len(),
{
    if rows.len() > 0 {
        let prev = rows.drop_last();
        assert forall|k: int| 0 <= k < prev.len() implies (#[trigger] prev[k]).recipe_id == rid by {
            assert(prev[k] == rows[k]);
        }
        lemma_texts_all_of_recipe(prev, rid);
        assert(rows.map_values(|r: Instruction| r.instruction@) =~= prev.map_values(
            |r: Instruction| r.instruction@,
        ).push(rows.last().instruction@));
    }
}

/// Creating a recipe with a list of instructions and reading it back gives
/// the same texts in the same order: the stored rows are already in display
/// order, and the composer lists exactly their texts.
pub proof fn created_instructions_read_back(
    requested: Seq<String>,
    recipe_id: i32,
    inserts: Seq<InstructionInsert>,
    stored: Seq<Instruction>,
)
    requires
        is_new_instruction_rows(inserts, requested, recipe_id),
        stored_as(stored, inserts),
    ensures
        in_display_order(stored),
        instruction_texts(stored, recipe_id) == strs(requested),
{
    assert forall|k: int| 0 <= k < stored.len() implies (#[trigger] stored[k]).recipe_id == recipe_id by {
        assert(stored[k].recipe_id == inserts[k].recipe_id);
    }
    lemma_texts_all_of_recipe(stored, recipe_id);
    assert forall|a: int, b: int| 0 <= a < b < stored.len() implies stored[a].display_order
        < stored[b].display_order by {
        assert(stored[a].display_order == inserts[a].display_order);
        assert(stored[b].display_order == inserts[b].display_order);
    }
    assert(stored.map_values(|r: Instruction| r.instruction@) =~= strs(requested));
}

/// A recipe created with a list of instructions reads back, through the
/// composer, with the same texts in the same order: the stored rows meet
/// the composer's ordering requirement, and any result it composes for the
/// recipe carries exactly the requested texts.
pub proof fn created_recipe_reads_back(
    requested: Seq<String>,
    recipe_id: i32,
    inserts: Seq<InstructionInsert>,
    stored: Seq<Instruction>,
    recipe: Recipe,
    composed: RecipeResultDTO,
    ingredients: Seq<(RecipeIngredient, Ingredient)>,
    tags: Seq<(RecipeTag, Tag)>,
    bookmarks: Seq<Bookmark>,
    owned: Seq<RecipeUser>,
    user_id: Option<i32>,
)
    requires
        is_new_instruction_rows(inserts, requested, recipe_id),
        stored_as(stored, inserts),
        recipe.id == recipe_id,
        is_composed(composed, recipe, stored, ingredients, tags, bookmarks, owned, user_id),
    ensures
        display_sorted(stored),
        strs(composed.instructions@) == strs(requested),
{
    created_instructions_read_back(requested, recipe_id, inserts, stored);
}

/// The text a row has after the updates (the last one for its id wins).
pub open spec fn updated_text(updates: Seq<(i32, Seq<char>)>, row: Instruction) -> Seq<char>
    decreases updates.len(),
{
    if updates.len() == 0 {
        row.instruction@
    } else if updates.last().0 == row.id {
        updates.last().1
    } else {
        updated_text(updates.drop_last(), row)
    }
}

/// Texts, in order, of the first `n` existing rows that are not deleted,
/// after the updates.
pub open spec fn kept_texts(
    existing: Seq<Instruction>,
    deletes: Seq<i32>,
    updates: Seq<(i32, Seq<char>)>,
    n: nat,
) -> Seq<Seq<char>>
    decreases n,
{
    if n == 0 {
        Seq::empty()
    } else if deletes.contains(existing[n - 1].id) {
        kept_texts(existing, deletes, updates, (n - 1) as nat)
    } else {
        kept_texts(existing, deletes, updates, (n - 1) as nat).push(updated_text(updates, existing[n - 1]))
    }
}

/// The recipe's instruction texts after a plan is carried out: the rows
/// that remain, updated, then the inserted ones.
pub open spec fn texts_after(existing: Seq<Instruction>, plan: InstructionPlan) -> Seq<Seq<char>> {
    kept_texts(
        existing,
        plan.deletes@,
        plan.updates@.map_values(|u: TextUpdate| update_view(u)),
        existing.len(),
    ) + plan.inserts@.map_values(|i: InstructionInsert| i.instruction@)
}

proof fn lemma_changed_ids(existing: Seq<Instruction>, requested: Seq<String>, m: nat, x: int)
    requires
        m <= existing.len(),
        m <= requested.len(),
        0 <= x < changed_texts(existing, requested, m).len(),
    ensures
        exists|i: int| 0 <= i < m && changed_texts(existing, requested, m)[x].0 == existing[i].id,
    decreases m,
{
    if m > 0 {
        let prev = changed_texts(existing, requested, (m - 1) as nat);
        if x < prev.len() {
            lemma_changed_ids(existing, requested, (m - 1) as nat, x);
            let i = choose|i: int| 0 <= i < m - 1 && prev[x].0 == existing[i].id;
            assert(changed_texts(existing, requested, m)[x] == prev[x]);
        } else {
            assert(changed_texts(existing, requested, m)[x].0 == existing[m - 1].id);
        }
    }
}

proof fn lemma_untouched_text(updates: Seq<(i32, Seq<char>)>, row: Instruction)
    requires
        forall|x: int| 0 <= x < updates.len() ==> (#[trigger] updates[x]).0 != row.id,
    ensures
        updated_text(updates, row) == row.instruction@,
    decreases updates.len(),
{
    if updates.len() > 0 {
        let prev = updates.drop_last();
        assert forall|x: int| 0 <= x < prev.len() implies (#[trigger] prev[x]).0 != row.id by {
            assert(prev[x] == updates[x]);
        }
        lemma_untouched_text(prev, row);
    }
}

proof fn lemma_changed_text(existing: Seq<Instruction>, requested: Seq<String>, m: nat, i: int)
    requires
        m <= existing.len(),
        m <= requested.len(),
        0 <= i < m,
        forall|a: int, b: int| 0 <= a < b < existing.len() ==> existing[a].id != existing[b].id,
    ensures
        updated_text(changed_texts(existing, requested, m), existing[i]) == requested[i]@,
    decreases m,
{
    let prev = changed_texts(existing, requested, (m - 1) as nat);
    if i == m - 1 {
        if existing[i].instruction@ == requested[i]@ {
            assert forall|x: int| 0 <= x < prev.len() implies (#[trigger] prev[x]).0 != existing[i].id by {
                lemma_changed_ids(existing, requested, (m - 1) as nat, x);
            }
            lemma_untouched_text(prev, existing[i]);
        }
    } else {
        lemma_changed_text(existing, requested, (m - 1) as nat, i);
        if existing[m - 1].instruction@ != requested[m - 1]@ {
            let cur = changed_texts(existing, requested, m);
            assert(cur.drop_last() =~= prev);
            assert(existing[m - 1].id != existing[i].id);
        }
    }
}

proof fn lemma_kept_prefix(
    existing: Seq<Instruction>,
    requested: Seq<String>,
    plan: InstructionPlan,
    recipe_id: i32,
    n: nat,
)
    requires
        is_instruction_plan(plan, existing, requested, recipe_id),
        forall|a: int, b: int| 0 <= a < b < existing.len() ==> existing[a].id != existing[b].id,
        n <= existing.len(),
    ensures
        kept_texts(existing, plan.deletes@, plan.updates@.map_values(|u: TextUpdate| update_view(u)), n)
            == strs(requested).take(min(n as int, requested.len() as int)),
    decreases n,
{
    let updates = plan.updates@.map_values(|u: TextUpdate| update_view(u));
    let m = min(existing.len() as int, requested.len() as int) as nat;
    if n > 0 {
        lemma_kept_prefix(existing, requested, plan, recipe_id, (n - 1) as nat);
        let i = n - 1;
        if i < requested.len() {
            assert(!plan.deletes@.contains(existing[i].id)) by {
                if plan.deletes@.contains(existing[i].id) {
                    let k = choose|k: int| 0 <= k < plan.deletes@.len() && plan.deletes@[k] == existing[i].id;
                    assert(plan.deletes@[k] == existing[existing.len() - 1 - k].id);
                }
            }
            lemma_changed_text(existing, requested, m, i);
            assert(strs(requested).take(n as int) =~= strs(requested).take(i).push(requested[i]@));
        } else {
            let k = existing.len() - 1 - i;
            assert(plan.deletes@[k] == existing[i].id);
            assert(plan.deletes@.contains(existing[i].id));
        }
    } else {
        assert(strs(requested).take(0) =~= Seq::<Seq<char>>::empty());
    }
}

/// Carrying out the update plan leaves exactly the requested texts, in
/// order, for rows listed by display order `0, 1, 2, ...` with distinct
/// ids; appended rows continue the display orders.
pub proof fn instruction_update_reaches_request(
    existing: Seq<Instruction>,
    requested: Seq<String>,
    recipe_id: i32,
    plan: InstructionPlan,
)
    requires
        is_instruction_plan(plan, existing, requested, recipe_id),
        forall|a: int, b: int| 0 <= a < b < existing.len() ==> existing[a].id != existing[b].id,
    ensures
        texts_after(existing, plan) == strs(requested),
        forall|k: int| 0 <= k < plan.inserts.len() ==> (#[trigger] plan.inserts@[k]).display_order == existing.len() + k,
{
    lemma_kept_prefix(existing, requested, plan, recipe_id, existing.len());
    let ins = plan.inserts@.map_values(|i: InstructionInsert| i.instruction@);
    if requested.len() > existing.len() {
        assert(ins =~= strs(requested).skip(existing.len() as int));
        assert(strs(requested).take(existing.len() as int) + strs(requested).skip(existing.len() as int)
            =~= strs(requested));
    } else {
        assert(ins =~= Seq::<Seq<char>>::empty());
        assert(strs(requested).take(requested.len() as int) =~= strs(requested));
        assert(strs(requested).take(requested.len() as int) + ins =~= strs(requested));
    }
}

} // verus!
