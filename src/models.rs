use vstd::prelude::*;

verus! {

/// A recipe row. The image is kept as its JSON text and the timestamps as
/// microseconds since the Unix epoch; the service never looks inside either.
pub struct Recipe {
    pub id: i32,
    pub title: String,
    pub servings: String,
    pub timer: Option<i16>,
    pub kcal: Option<i16>,
    pub carbs: Option<i16>,
    pub proteins: Option<i16>,
    pub fats: Option<i16>,
    pub image: Option<String>,
    pub created_at: Option<i64>,
    pub updated_at: Option<i64>,
}

/// One step of a recipe; steps are listed by ascending `display_order`.
pub struct Instruction {
    pub id: i32,
    pub instruction: String,
    pub display_order: i32,
    pub recipe_id: i32,
}

/// An ingredient amount, held as the bit pattern of the IEEE-754 single
/// precision number that the store keeps.
#[derive(PartialEq, Eq, Structural, Clone, Copy, Debug)]
pub struct Amount {
    pub bits: u32,
}

/// Join row between a recipe and a master ingredient.
#[derive(PartialEq, Eq, Structural, Clone, Copy, Debug)]
pub struct RecipeIngredient {
    pub id: i32,
    pub amount: Option<Amount>,
    pub recipe_id: i32,
    pub ingredient_id: i32,
}

/// Master ingredient row; `(unit, label)` identifies it.
pub struct Ingredient {
    pub id: i32,
    pub unit: Option<String>,
    pub label: String,
}

/// Master tag row; the slug is derived from the label.
pub struct Tag {
    pub id: i32,
    pub label: String,
    pub slug: String,
}

/// Join row between a recipe and a tag.
#[derive(PartialEq, Eq, Structural, Clone, Copy, Debug)]
pub struct RecipeTag {
    pub recipe_id: i32,
    pub tag_id: i32,
}

/// Ownership row: the user who created the recipe.
#[derive(PartialEq, Eq, Structural, Clone, Copy, Debug)]
pub struct RecipeUser {
    pub recipe_id: i32,
    pub user_id: i32,
}

/// Bookmark row: present while the user has the recipe bookmarked.
#[derive(PartialEq, Eq, Structural, Clone, Copy, Debug)]
pub struct Bookmark {
    pub recipe_id: i32,
    pub user_id: i32,
}

/// A new instruction row.
pub struct InstructionInsert {
    pub instruction: String,
    pub display_order: i32,
    pub recipe_id: i32,
}

/// A new master ingredient row.
pub struct IngredientInsert {
    pub unit: Option<String>,
    pub label: String,
}

/// A new recipe/ingredient join row.
#[derive(PartialEq, Eq, Structural, Clone, Copy, Debug)]
pub struct RecipeIngredientInsert {
    pub amount: Option<Amount>,
    pub recipe_id: i32,
    pub ingredient_id: i32,
}

/// An ingredient as clients send and receive it.
pub struct IngredientDTO {
    pub unit: Option<String>,
    pub label: String,
    pub amount: Option<Amount>,
}

/// A tag as clients send it on creation.
pub struct TagPostDTO {
    pub label: String,
}

/// A tag as clients receive it, and as a new tag row.
pub struct TagDTO {
    pub label: String,
    pub slug: String,
}

/// A fully composed recipe as the service returns it. `bookmarked` and
/// `owned` are `None` for an anonymous reader.
pub struct RecipeResultDTO {
    pub id: i32,
    pub title: String,
    pub servings: String,
    pub timer: Option<i16>,
    pub kcal: Option<i16>,
    pub carbs: Option<i16>,
    pub proteins: Option<i16>,
    pub fats: Option<i16>,
    pub image: Option<String>,
    pub instructions: Vec<String>,
    pub ingredients: Vec<IngredientDTO>,
    pub created_at: Option<i64>,
    pub updated_at: Option<i64>,
    pub tags: Vec<TagDTO>,
    pub bookmarked: Option<bool>,
    pub owned: Option<bool>,
}

/// One page of records with the numbers that produced it.
pub struct PaginatedResult<T> {
    pub records: Vec<T>,
    pub total: i64,
    pub current_page: i64,
    pub per_page: i64,
}

/// The view of an optional string.
pub open spec fn opt_str(o: Option<String>) -> Option<Seq<char>> {
    match o {
        Some(s) => Some(s@),
        None => None,
    }
}

/// The view of a list of strings.
pub open spec fn strs(v: Seq<String>) -> Seq<Seq<char>> {
    v.map_values(|s: String| s@)
}

/// Compares two optional strings by content.
pub fn same_opt_str(a: &Option<String>, b: &Option<String>) -> (r: bool)
    ensures
        r == (opt_str(*a) == opt_str(*b)),
{
    match (a, b) {
        (Some(x), Some(y)) => x.eq(y),
        (None, None) => true,
        _ => false,
    }
}

/// Compares two optional amounts.
pub fn same_amount(a: Option<Amount>, b: Option<Amount>) -> (r: bool)
    ensures
        r == (a == b),
{
    match (a, b) {
        (Some(x), Some(y)) => x.bits == y.bits,
        (None, None) => true,
        _ => false,
    }
}

/// Copies an optional string.
pub fn copy_opt_str(a: &Option<String>) -> (r: Option<String>)
    ensures
        opt_str(r) == opt_str(*a),
{
    match a {
        Some(s) => Some(s.clone()),
        None => None,
    }
}

} // verus!
