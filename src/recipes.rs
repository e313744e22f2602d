use vstd::prelude::*;
use vstd::string::*;
use crate::models::{copy_opt_str, opt_str, Amount, Ingredient, IngredientDTO, InstructionInsert, Recipe, RecipeResultDTO, Tag};
use crate::reconcile::ingredients::{is_ingredient_plan, plan_ingredient_update, IngredientPlan};
use crate::reconcile::instructions::{is_new_instruction_rows, new_instruction_rows};
use crate::reconcile::tags::{is_tag_plan, plan_tag_update, TagPlan};
use crate::responses::{text, RecipeResponse, Status};

verus! {

/// Longest title, servings text, unit or label, in characters.
pub const MAX_TEXT_LEN: usize = 120;

/// Largest timer or nutrition value.
pub const MAX_QUANTITY: i16 = 30000;

/// Bit pattern of the largest accepted amount, 100000.0.
pub const MAX_AMOUNT_BITS: u32 = 0x47C3_5000;

/// A new recipe as clients send it.
pub struct RecipePostDTO {
    pub title: String,
    pub servings: String,
    pub timer: Option<i16>,
    pub kcal: Option<i16>,
    pub carbs: Option<i16>,
    pub proteins: Option<i16>,
    pub fats: Option<i16>,
    pub image: Option<String>,
    pub instructions: Option<Vec<String>>,
    pub ingredients: Option<Vec<IngredientDTO>>,
    pub tags: Option<Vec<String>>,
}

/// A recipe update as clients send it; an omitted field is left as it is.
pub struct RecipePutDTO {
    pub title: Option<String>,
    pub servings: Option<String>,
    pub timer: Option<i16>,
    pub kcal: Option<i16>,
    pub carbs: Option<i16>,
    pub proteins: Option<i16>,
    pub fats: Option<i16>,
    pub image: Option<String>,
    pub instructions: Option<Vec<String>>,
    pub ingredients: Option<Vec<IngredientDTO>>,
    pub tags: Option<Vec<String>>,
}

/// The recipe row to insert for a new recipe.
pub struct RecipesInput {
    pub title: String,
    pub servings: String,
    pub timer: Option<i16>,
    pub kcal: Option<i16>,
    pub carbs: Option<i16>,
    pub proteins: Option<i16>,
    pub fats: Option<i16>,
    pub image: Option<String>,
}

pub open spec fn text_ok(s: Seq<char>) -> bool {
    s.len() <= MAX_TEXT_LEN
}

pub open spec fn quantity_ok(q: Option<i16>) -> bool {
    match q {
        Some(v) => 0 <= v <= MAX_QUANTITY,
        None => true,
    }
}

/// Whether the bits are those of a NaN.
pub open spec fn nan_bits(b: u32) -> bool {
    (0x7F80_0000 < b && b < 0x8000_0000) || 0xFF80_0000 < b
}

/// An amount passes when it is not below 0.0 and not above 100000.0, as
/// floating-point comparisons decide: `-0.0` and NaN pass.
pub open spec fn amount_ok(a: Option<Amount>) -> bool {
    match a {
        Some(x) => nan_bits(x.bits) || x.bits == 0x8000_0000 || x.bits <= MAX_AMOUNT_BITS,
        None => true,
    }
}

pub open spec fn ingredient_ok(d: IngredientDTO) -> bool {
    &&& match opt_str(d.unit) {
        Some(u) => text_ok(u),
        None => true,
    }
    &&& text_ok(d.label@)
    &&& amount_ok(d.amount)
}

/// Field rules of a new recipe.
pub open spec fn post_ok(p: RecipePostDTO) -> bool {
    &&& text_ok(p.title@)
    &&& text_ok(p.servings@)
    &&& quantity_ok(p.timer)
    &&& quantity_ok(p.kcal)
    &&& quantity_ok(p.carbs)
    &&& quantity_ok(p.proteins)
    &&& quantity_ok(p.fats)
    &&& ingredients_ok(p.ingredients)
}

pub open spec fn ingredients_ok(list: Option<Vec<IngredientDTO>>) -> bool {
    match list {
        Some(v) => forall|k: int| 0 <= k < v@.len() ==> ingredient_ok(#[trigger] v@[k]),
        None => true,
    }
}

fn text_valid(s: &String) -> (r: bool)
    ensures
        r == text_ok(s@),
{
    s.as_str().unicode_len() <= MAX_TEXT_LEN
}

fn quantity_valid(q: Option<i16>) -> (r: bool)
    ensures
        r == quantity_ok(q),
{
    match q {
        Some(v) => 0 <= v && v <= MAX_QUANTITY,
        None => true,
    }
}

fn amount_valid(a: Option<Amount>) -> (r: bool)
    ensures
        r == amount_ok(a),
{
    match a {
        Some(x) => (0x7F80_0000 < x.bits && x.bits < 0x8000_0000) || 0xFF80_0000 < x.bits || x.bits == 0x8000_0000
            || x.bits <= MAX_AMOUNT_BITS,
        None => true,
    }
}

impl IngredientDTO {
    /// Checks an ingredient's field rules.
    pub fn validate(&self) -> (r: bool)
        ensures
            r == ingredient_ok(*self),
    {
        let unit_ok = match &self.unit {
            Some(u) => text_valid(u),
            None => true,
        };
        unit_ok && text_valid(&self.label) && amount_valid(self.amount)
    }
}

impl RecipePostDTO {
    /// Checks a new recipe's field rules.
    pub fn validate(&self) -> (r: bool)
        ensures
            r == post_ok(*self),
    {
        if !(text_valid(&self.title) && text_valid(&self.servings) && quantity_valid(self.timer) && quantity_valid(
            self.kcal,
        ) && quantity_valid(self.carbs) && quantity_valid(self.proteins) && quantity_valid(self.fats)) {
            return false;
        }
        match &self.ingredients {
            None => true,
            Some(v) => all_ingredients_valid(v),
        }
    }
}

fn all_ingredients_valid(v: &Vec<IngredientDTO>) -> (r: bool)
    ensures
        r == forall|k: int| 0 <= k < v@.len() ==> ingredient_ok(#[trigger] v@[k]),
{
    let mut k: usize = 0;
    while k < v.len()
        invariant
            k <= v.len(),
            forall|x: int| 0 <= x < k ==> ingredient_ok(#[trigger] v@[x]),
        decreases v.len() - k,
    {
        if !v[k].validate() {
            assert(!ingredient_ok(v@[k as int]));
            return false;
        }
        k = k + 1;
    }
    true
}

impl RecipesInput {
    /// The recipe row for a new recipe.
    pub fn from_post(p: &RecipePostDTO) -> (r: RecipesInput)
        ensures
            r.title@ == p.title@,
            r.servings@ == p.servings@,
            r.timer == p.timer,
            r.kcal == p.kcal,
            r.carbs == p.carbs,
            r.proteins == p.proteins,
            r.fats == p.fats,
            opt_str(r.image) == opt_str(p.image),
    {
        RecipesInput {
            title: p.title.clone(),
            servings: p.servings.clone(),
            timer: p.timer,
            kcal: p.kcal,
            carbs: p.carbs,
            proteins: p.proteins,
            fats: p.fats,
            image: copy_opt_str(&p.image),
        }
    }
}

/// Admission of a new recipe: only a logged-in user may create one (else
/// 401), and its fields must pass their rules (else 400). Yields the user,
/// who becomes the owner.
pub fn create_recipe(user_id: Option<i32>, post: &RecipePostDTO) -> (r: Result<i32, RecipeResponse<RecipeResultDTO>>)
    ensures
        user_id is None ==> r matches Err(RecipeResponse::Unauthorized(_)),
        user_id is Some && !post_ok(*post) ==> r matches Err(RecipeResponse::BadRequest(_)),
        user_id is Some && post_ok(*post) ==> r == Ok::<i32, RecipeResponse<RecipeResultDTO>>(user_id->0),
{
    let uid = match user_id {
        None => {
            return Err(RecipeResponse::Unauthorized(text("Please log in to be able to create recipes.")));
        },
        Some(u) => u,
    };
    if !post.validate() {
        return Err(RecipeResponse::BadRequest(text("Invalid recipe input")));
    }
    Ok(uid)
}

/// The child rows of a newly stored recipe.
pub struct CreationPlan {
    pub instructions: Vec<InstructionInsert>,
    pub ingredients: IngredientPlan,
    pub tags: TagPlan,
}

/// Plans the child rows of a new recipe `recipe_id`: its instructions in
/// order, and its ingredients and tags planned as an update of a recipe
/// that has none, reusing the master rows in `available_ingredients` and
/// `available_tags`. An omitted list plans nothing.
pub fn plan_recipe_creation(
    recipe_id: i32,
    post: &RecipePostDTO,
    available_ingredients: &Vec<Ingredient>,
    available_tags: &Vec<Tag>,
) -> (r: CreationPlan)
    requires
        match post.instructions {
            Some(v) => v.len() <= i32::MAX,
            None => true,
        },
    ensures
        is_new_instruction_rows(
            r.instructions@,
            match post.instructions {
                Some(v) => v@,
                None => Seq::empty(),
            },
            recipe_id,
        ),
        is_ingredient_plan(
            r.ingredients,
            Seq::empty(),
            available_ingredients@,
            match post.ingredients {
                Some(v) => v@,
                None => Seq::empty(),
            },
        ),
        is_tag_plan(
            r.tags,
            Seq::empty(),
            available_tags@,
            match post.tags {
                Some(v) => v@,
                None => Seq::empty(),
            },
        ),
{
    let no_texts: Vec<String> = Vec::new();
    let no_ingredients: Vec<IngredientDTO> = Vec::new();
    let no_rows: Vec<(crate::models::RecipeIngredient, Ingredient)> = Vec::new();
    let no_tags: Vec<Tag> = Vec::new();
    let instructions = match &post.instructions {
        Some(v) => new_instruction_rows(v, recipe_id),
        None => new_instruction_rows(&no_texts, recipe_id),
    };
    let ingredients = match &post.ingredients {
        Some(v) => plan_ingredient_update(&no_rows, available_ingredients, v),
        None => plan_ingredient_update(&no_rows, available_ingredients, &no_ingredients),
    };
    let tags = match &post.tags {
        Some(v) => plan_tag_update(&no_tags, available_tags, v),
        None => plan_tag_update(&no_tags, available_tags, &no_texts),
    };
    proof {
        assert(no_rows@ =~= Seq::empty());
        assert(no_tags@ =~= Seq::empty());
        assert(no_texts@ =~= Seq::empty());
        assert(no_ingredients@ =~= Seq::empty());
    }
    CreationPlan { instructions, ingredients, tags }
}

/// The value a text field takes in an update: the requested one when
/// given and not empty, else the current one.
pub open spec fn merged(current: Seq<char>, requested: Option<String>) -> Seq<char> {
    match requested {
        Some(t) => if t@.len() > 0 { t@ } else { current },
        None => current,
    }
}

fn merge_text(current: &String, requested: &Option<String>) -> (r: String)
    ensures
        r@ == merged(current@, *requested),
{
    match requested {
        Some(t) => if t.as_str().unicode_len() > 0 { t.clone() } else { current.clone() },
        None => current.clone(),
    }
}

/// The title and servings a recipe has after an update; the other fields
/// of the row stay, and its `updated_at` is refreshed by the store.
pub fn update_recipe(recipe: &Recipe, put: &RecipePutDTO) -> (r: (String, String))
    ensures
        r.0@ == merged(recipe.title@, put.title),
        r.1@ == merged(recipe.servings@, put.servings),
{
    (merge_text(&recipe.title, &put.title), merge_text(&recipe.servings, &put.servings))
}

/// The answer to a delete: only a logged-in user may delete (else 401); a
/// failed delete is 500, no row deleted 404, otherwise 204.
pub fn delete(user_id: Option<i32>, deleted: Result<usize, String>) -> (r: Result<Status, RecipeResponse<()>>)
    ensures
        user_id is None ==> r matches Err(RecipeResponse::Unauthorized(_)),
        user_id is Some ==> match deleted {
            Ok(n) => if n == 0 {
                r matches Err(RecipeResponse::NotFound(_))
            } else {
                r == Ok::<Status, RecipeResponse<()>>(Status::NoContent)
            },
            Err(_) => r matches Err(RecipeResponse::InternalServerError(_)),
        },
{
    if user_id.is_none() {
        return Err(RecipeResponse::Unauthorized(text("Please log in to be able to delete recipes.")));
    }
    match deleted {
        Ok(n) => if n == 0 {
            Err(RecipeResponse::NotFound(text("Recipe not found.")))
        } else {
            Ok(Status::NoContent)
        },
        Err(reason) => Err(
            RecipeResponse::InternalServerError(text("Database error while deleting the recipe: ").concat(reason.as_str())),
        ),
    }
}

} // verus!
