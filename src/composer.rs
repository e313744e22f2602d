use vstd::prelude::*;
use crate::models::{
    copy_opt_str, opt_str, strs, Amount, Bookmark, Ingredient, IngredientDTO, Instruction, Recipe,
    RecipeIngredient, RecipeResultDTO, RecipeTag, RecipeUser, Tag, TagDTO,
};

verus! {

pub open spec fn ingredient_view(d: IngredientDTO) -> (Option<Seq<char>>, Seq<char>, Option<Amount>) {
    (opt_str(d.unit), d.label@, d.amount)
}

pub open spec fn tag_view(t: TagDTO) -> (Seq<char>, Seq<char>) {
    (t.label@, t.slug@)
}

/// Texts of the instruction rows of recipe `rid`, in the order of `rows`.
pub open spec fn instruction_texts(rows: Seq<Instruction>, rid: i32) -> Seq<Seq<char>>
    decreases rows.len(),
{
    if rows.len() == 0 {
        Seq::empty()
    } else if rows.last().recipe_id == rid {
        instruction_texts(rows.drop_last(), rid).push(rows.last().instruction@)
    } else {
        instruction_texts(rows.drop_last(), rid)
    }
}

/// The instruction rows of recipe `rid`, in the order of `rows`.
pub open spec fn rows_of(rows: Seq<Instruction>, rid: i32) -> Seq<Instruction>
    decreases rows.len(),
{
    if rows.len() == 0 {
        Seq::empty()
    } else if rows.last().recipe_id == rid {
        rows_of(rows.drop_last(), rid).push(rows.last())
    } else {
        rows_of(rows.drop_last(), rid)
    }
}

/// Display orders never decrease along `rows`.
pub open spec fn display_sorted(rows: Seq<Instruction>) -> bool {
    forall|a: int, b: int| 0 <= a < b < rows.len() ==> rows[a].display_order <= rows[b].display_order
}

proof fn lemma_rows_of(rows: Seq<Instruction>, rid: i32)
    ensures
        instruction_texts(rows, rid) == rows_of(rows, rid).map_values(|r: Instruction| r.instruction@),
        forall|x: int| 0 <= x < rows_of(rows, rid).len() ==> exists|j: int| 0 <= j < rows.len() && #[trigger] rows_of(rows, rid)[x] == rows[j],
        display_sorted(rows) ==> display_sorted(rows_of(rows, rid)),
    decreases rows.len(),
{
    if rows.len() > 0 {
        let prev = rows.drop_last();
        lemma_rows_of(prev, rid);
        let ps = rows_of(prev, rid);
        let cur = rows_of(rows, rid);
        assert forall|x: int| 0 <= x < ps.len() implies exists|j: int| 0 <= j < rows.len() && #[trigger] ps[x] == rows[j] by {
            let j = choose|j: int| 0 <= j < prev.len() && ps[x] == prev[j];
            assert(rows[j] == prev[j]);
        }
        if rows.last().recipe_id == rid {
            assert(cur.map_values(|r: Instruction| r.instruction@) =~= ps.map_values(|r: Instruction| r.instruction@).push(
                rows.last().instruction@,
            ));
            assert forall|x: int| 0 <= x < cur.len() implies exists|j: int| 0 <= j < rows.len() && #[trigger] cur[x] == rows[j] by {
                if x < ps.len() {
                    assert(cur[x] == ps[x]);
                } else {
                    assert(cur[x] == rows[rows.len() - 1]);
                }
            }
            if display_sorted(rows) {
                assert(display_sorted(prev));
                assert forall|a: int, b: int| 0 <= a < b < cur.len() implies cur[a].display_order <= cur[b].display_order by {
                    assert(cur[a] == ps[a]);
                    let ja = choose|j: int| 0 <= j < rows.len() && ps[a] == rows[j];
                    if b < ps.len() {
                        assert(cur[b] == ps[b]);
                    } else {
                        let jp = choose|j: int| 0 <= j < prev.len() && ps[a] == prev[j];
                        assert(rows[jp] == prev[jp]);
                        assert(cur[b] == rows[rows.len() - 1]);
                    }
                }
            }
        } else {
            if display_sorted(rows) {
                assert(display_sorted(prev));
            }
        }
    }
}

/// Checks that display orders never decrease along the rows.
pub fn instructions_in_display_order(rows: &Vec<Instruction>) -> (r: bool)
    ensures
        r == display_sorted(rows@),
{
    if rows.len() == 0 {
        return true;
    }
    let mut i: usize = 0;
    while i + 1 < rows.len()
        invariant
            rows.len() > 0,
            i < rows.len(),
            forall|a: int, b: int| 0 <= a < b <= i ==> rows@[a].display_order <= rows@[b].display_order,
        decreases rows.len() - i,
    {
        if rows[i].display_order > rows[i + 1].display_order {
            assert(!(rows@[i as int].display_order <= rows@[i + 1].display_order));
            return false;
        }
        i = i + 1;
    }
    true
}

/// Unit, label and amount of the ingredient rows of recipe `rid`, in order.
pub open spec fn ingredient_views(rows: Seq<(RecipeIngredient, Ingredient)>, rid: i32) -> Seq<
    (Option<Seq<char>>, Seq<char>, Option<Amount>),
>
    decreases rows.len(),
{
    if rows.len() == 0 {
        Seq::empty()
    } else if rows.last().0.recipe_id == rid {
        ingredient_views(rows.drop_last(), rid).push(
            (opt_str(rows.last().1.unit), rows.last().1.label@, rows.last().0.amount),
        )
    } else {
        ingredient_views(rows.drop_last(), rid)
    }
}

/// Label and slug of the tags of recipe `rid`, in order.
pub open spec fn tag_views(rows: Seq<(RecipeTag, Tag)>, rid: i32) -> Seq<(Seq<char>, Seq<char>)>
    decreases rows.len(),
{
    if rows.len() == 0 {
        Seq::empty()
    } else if rows.last().0.recipe_id == rid {
        tag_views(rows.drop_last(), rid).push((rows.last().1.label@, rows.last().1.slug@))
    } else {
        tag_views(rows.drop_last(), rid)
    }
}

pub open spec fn has_bookmark(rows: Seq<Bookmark>, rid: i32, uid: i32) -> bool {
    exists|k: int| 0 <= k < rows.len() && rows[k].recipe_id == rid && rows[k].user_id == uid
}

pub open spec fn has_owner(rows: Seq<RecipeUser>, rid: i32, uid: i32) -> bool {
    exists|k: int| 0 <= k < rows.len() && rows[k].recipe_id == rid && rows[k].user_id == uid
}

/// The result carries the recipe's own fields, with empty lists and no
/// reader-specific flags.
pub open spec fn carries_recipe(d: RecipeResultDTO, r: Recipe) -> bool {
    &&& d.id == r.id
    &&& d.title@ == r.title@
    &&& d.servings@ == r.servings@
    &&& d.timer == r.timer
    &&& d.kcal == r.kcal
    &&& d.carbs == r.carbs
    &&& d.proteins == r.proteins
    &&& d.fats == r.fats
    &&& opt_str(d.image) == opt_str(r.image)
    &&& d.created_at == r.created_at
    &&& d.updated_at == r.updated_at
}

/// A recipe composed from its related rows, as seen by `user_id`.
pub open spec fn is_composed(
    d: RecipeResultDTO,
    r: Recipe,
    instructions: Seq<Instruction>,
    ingredients: Seq<(RecipeIngredient, Ingredient)>,
    tags: Seq<(RecipeTag, Tag)>,
    bookmarks: Seq<Bookmark>,
    owned: Seq<RecipeUser>,
    user_id: Option<i32>,
) -> bool {
    &&& carries_recipe(d, r)
    &&& strs(d.instructions@) == instruction_texts(instructions, r.id)
    &&& d.ingredients@.map_values(|i: IngredientDTO| ingredient_view(i)) == ingredient_views(ingredients, r.id)
    &&& d.tags@.map_values(|t: TagDTO| tag_view(t)) == tag_views(tags, r.id)
    &&& d.bookmarked == match user_id {
        Some(uid) => Some(has_bookmark(bookmarks, r.id, uid)),
        None => None,
    }
    &&& d.owned == match user_id {
        Some(uid) => Some(has_owner(owned, r.id, uid)),
        None => None,
    }
}

impl RecipeResultDTO {
    /// A result with the recipe's fields, empty lists and no flags.
    pub fn from_recipe(r: &Recipe) -> (d: RecipeResultDTO)
        ensures
            carries_recipe(d, *r),
            d.instructions.len() == 0,
            d.ingredients.len() == 0,
            d.tags.len() == 0,
            d.bookmarked is None,
            d.owned is None,
    {
        RecipeResultDTO {
            id: r.id,
            title: r.title.clone(),
            servings: r.servings.clone(),
            timer: r.timer,
            kcal: r.kcal,
            carbs: r.carbs,
            proteins: r.proteins,
            fats: r.fats,
            image: copy_opt_str(&r.image),
            instructions: Vec::new(),
            ingredients: Vec::new(),
            created_at: r.created_at,
            updated_at: r.updated_at,
            tags: Vec::new(),
            bookmarked: None,
            owned: None,
        }
    }
}

impl IngredientDTO {
    /// The client view of a join row and its master row.
    pub fn from_row(row: &(RecipeIngredient, Ingredient)) -> (d: IngredientDTO)
        ensures
            ingredient_view(d) == (opt_str(row.1.unit), row.1.label@, row.0.amount),
    {
        IngredientDTO { unit: copy_opt_str(&row.1.unit), label: row.1.label.clone(), amount: row.0.amount }
    }
}

fn texts_of(rows: &Vec<Instruction>, rid: i32) -> (r: Vec<String>)
    ensures
        strs(r@) == instruction_texts(rows@, rid),
{
    let mut out: Vec<String> = Vec::new();
    let mut j: usize = 0;
    while j < rows.len()
        invariant
            j <= rows.len(),
            strs(out@) == instruction_texts(rows@.subrange(0, j as int), rid),
        decreases rows.len() - j,
    {
        let ghost before = out@;
        if rows[j].recipe_id == rid {
            out.push(rows[j].instruction.clone());
            assert(strs(out@) =~= strs(before).push(rows@[j as int].instruction@));
        }
        assert(rows@.subrange(0, j + 1).drop_last() =~= rows@.subrange(0, j as int));
        j = j + 1;
    }
    assert(rows@.subrange(0, rows.len() as int) =~= rows@);
    out
}

fn ingredients_of(rows: &Vec<(RecipeIngredient, Ingredient)>, rid: i32) -> (r: Vec<IngredientDTO>)
    ensures
        r@.map_values(|i: IngredientDTO| ingredient_view(i)) == ingredient_views(rows@, rid),
{
    let mut out: Vec<IngredientDTO> = Vec::new();
    let mut j: usize = 0;
    while j < rows.len()
        invariant
            j <= rows.len(),
            out@.map_values(|i: IngredientDTO| ingredient_view(i)) == ingredient_views(rows@.subrange(0, j as int), rid),
        decreases rows.len() - j,
    {
        let ghost before = out@.map_values(|i: IngredientDTO| ingredient_view(i));
        if rows[j].0.recipe_id == rid {
            out.push(IngredientDTO::from_row(&rows[j]));
            assert(out@.map_values(|i: IngredientDTO| ingredient_view(i)) =~= before.push(
                (opt_str(rows@[j as int].1.unit), rows@[j as int].1.label@, rows@[j as int].0.amount),
            ));
        }
        assert(rows@.subrange(0, j + 1).drop_last() =~= rows@.subrange(0, j as int));
        j = j + 1;
    }
    assert(rows@.subrange(0, rows.len() as int) =~= rows@);
    out
}

fn tags_of(rows: &Vec<(RecipeTag, Tag)>, rid: i32) -> (r: Vec<TagDTO>)
    ensures
        r@.map_values(|t: TagDTO| tag_view(t)) == tag_views(rows@, rid),
{
    let mut out: Vec<TagDTO> = Vec::new();
    let mut j: usize = 0;
    while j < rows.len()
        invariant
            j <= rows.len(),
            out@.map_values(|t: TagDTO| tag_view(t)) == tag_views(rows@.subrange(0, j as int), rid),
        decreases rows.len() - j,
    {
        let ghost before = out@.map_values(|t: TagDTO| tag_view(t));
        if rows[j].0.recipe_id == rid {
            out.push(TagDTO { label: rows[j].1.label.clone(), slug: rows[j].1.slug.clone() });
            assert(out@.map_values(|t: TagDTO| tag_view(t)) =~= before.push(
                (rows@[j as int].1.label@, rows@[j as int].1.slug@),
            ));
        }
        assert(rows@.subrange(0, j + 1).drop_last() =~= rows@.subrange(0, j as int));
        j = j + 1;
    }
    assert(rows@.subrange(0, rows.len() as int) =~= rows@);
    out
}

fn bookmarked_by(rows: &Vec<Bookmark>, rid: i32, uid: i32) -> (r: bool)
    ensures
        r == has_bookmark(rows@, rid, uid),
{
    let mut j: usize = 0;
    while j < rows.len()
        invariant
            j <= rows.len(),
            forall|k: int| 0 <= k < j ==> !(rows@[k].recipe_id == rid && rows@[k].user_id == uid),
        decreases rows.len() - j,
    {
        if rows[j].recipe_id == rid && rows[j].user_id == uid {
            return true;
        }
        j = j + 1;
    }
    false
}

fn owned_by(rows: &Vec<RecipeUser>, rid: i32, uid: i32) -> (r: bool)
    ensures
        r == has_owner(rows@, rid, uid),
{
    let mut j: usize = 0;
    while j < rows.len()
        invariant
            j <= rows.len(),
            forall|k: int| 0 <= k < j ==> !(rows@[k].recipe_id == rid && rows@[k].user_id == uid),
        decreases rows.len() - j,
    {
        if rows[j].recipe_id == rid && rows[j].user_id == uid {
            return true;
        }
        j = j + 1;
    }
    false
}

/// Composes each recipe of `recipes`, in order, with its instructions (in
/// ascending display order: `instructions` is listed that way), its
/// ingredients and its tags. For a reader `user_id`, each result also says
/// whether that reader bookmarked and owns the recipe; for an anonymous
/// reader both flags stay unset.
pub fn get_recipe_elements(
    recipes: &Vec<Recipe>,
    instructions: &Vec<Instruction>,
    ingredients: &Vec<(RecipeIngredient, Ingredient)>,
    tags: &Vec<(RecipeTag, Tag)>,
    bookmarks: &Vec<Bookmark>,
    owned: &Vec<RecipeUser>,
    user_id: Option<i32>,
) -> (r: Vec<RecipeResultDTO>)
    requires
        display_sorted(instructions@),
    ensures
        r.len() == recipes.len(),
        forall|i: int|
            0 <= i < r.len() ==> {
                &&& strs((#[trigger] r@[i]).instructions@) == rows_of(instructions@, recipes@[i].id).map_values(
                    |x: Instruction| x.instruction@,
                )
                &&& display_sorted(rows_of(instructions@, recipes@[i].id))
            },
        forall|i: int|
            0 <= i < r.len() ==> is_composed(
                #[trigger] r@[i],
                recipes@[i],
                instructions@,
                ingredients@,
                tags@,
                bookmarks@,
                owned@,
                user_id,
            ),
{
    let mut out: Vec<RecipeResultDTO> = Vec::new();
    let mut i: usize = 0;
    while i < recipes.len()
        invariant
            i <= recipes.len(),
            out.len() == i,
            display_sorted(instructions@),
            forall|x: int|
                0 <= x < i ==> {
                    &&& strs((#[trigger] out@[x]).instructions@) == rows_of(instructions@, recipes@[x].id).map_values(
                        |y: Instruction| y.instruction@,
                    )
                    &&& display_sorted(rows_of(instructions@, recipes@[x].id))
                },
            forall|x: int|
                0 <= x < i ==> is_composed(
                    #[trigger] out@[x],
                    recipes@[x],
                    instructions@,
                    ingredients@,
                    tags@,
                    bookmarks@,
                    owned@,
                    user_id,
                ),
        decreases recipes.len() - i,
    {
        let recipe = &recipes[i];
        proof {
            lemma_rows_of(instructions@, recipe.id);
        }
        let mut d = RecipeResultDTO::from_recipe(recipe);
        d.instructions = texts_of(instructions, recipe.id);
        d.ingredients = ingredients_of(ingredients, recipe.id);
        d.tags = tags_of(tags, recipe.id);
        match user_id {
            Some(uid) => {
                d.bookmarked = Some(bookmarked_by(bookmarks, recipe.id, uid));
                d.owned = Some(owned_by(owned, recipe.id, uid));
            },
            None => {},
        }
        out.push(d);
        i = i + 1;
    }
    out
}

} // verus!
