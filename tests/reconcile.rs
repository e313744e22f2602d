use recipe_api::composer::{get_recipe_elements, instructions_in_display_order};
use recipe_api::models::{
    Amount, Bookmark, Ingredient, IngredientDTO, Instruction, Recipe, RecipeIngredient, RecipeTag, RecipeUser, Tag,
    TagDTO, TagPostDTO,
};
use recipe_api::reconcile::ingredients::{plan_ingredient_update, resolve_links, AmountUpdate, IngredientRef};
use recipe_api::reconcile::instructions::{new_instruction_rows, plan_instruction_update};
use recipe_api::reconcile::tags::{plan_tag_update, resolve_tag_links, TagRef};

fn s(x: &str) -> String {
    x.to_string()
}

fn amount(v: f32) -> Option<Amount> {
    Some(Amount { bits: v.to_bits() })
}

fn instruction(id: i32, text: &str, order: i32, recipe_id: i32) -> Instruction {
    Instruction { id, instruction: s(text), display_order: order, recipe_id }
}

fn recipe(id: i32, title: &str) -> Recipe {
    Recipe {
        id,
        title: s(title),
        servings: s("4"),
        timer: Some(30),
        kcal: None,
        carbs: None,
        proteins: None,
        fats: None,
        image: None,
        created_at: Some(1),
        updated_at: Some(2),
    }
}

fn dto(unit: Option<&str>, label: &str, a: Option<f32>) -> IngredientDTO {
    IngredientDTO { unit: unit.map(s), label: s(label), amount: a.and_then(amount) }
}

fn master(id: i32, unit: Option<&str>, label: &str) -> Ingredient {
    Ingredient { id, unit: unit.map(s), label: s(label) }
}

fn tag(id: i32, label: &str, slug: &str) -> Tag {
    Tag { id, label: s(label), slug: s(slug) }
}

#[test]
fn instruction_update_scenario() {
    let existing = vec![instruction(1, "a", 0, 9), instruction(2, "b", 1, 9), instruction(3, "c", 2, 9)];
    let requested = vec![s("a"), s("X"), s("c"), s("d")];
    let plan = plan_instruction_update(&existing, &requested, 9);
    assert_eq!(plan.deletes.len(), 0);
    assert_eq!(plan.updates.len(), 1);
    assert_eq!(plan.updates[0].id, 2);
    assert_eq!(plan.updates[0].instruction, "X");
    assert_eq!(plan.inserts.len(), 1);
    assert_eq!(plan.inserts[0].instruction, "d");
    assert_eq!(plan.inserts[0].display_order, 3);
    assert_eq!(plan.inserts[0].recipe_id, 9);
}

#[test]
fn instruction_update_drops_trailing_rows_last_first() {
    let existing = vec![
        instruction(1, "a", 0, 9),
        instruction(2, "b", 1, 9),
        instruction(3, "c", 2, 9),
        instruction(4, "d", 3, 9),
    ];
    let requested = vec![s("a"), s("B")];
    let plan = plan_instruction_update(&existing, &requested, 9);
    assert_eq!(plan.deletes, vec![4, 3]);
    assert_eq!(plan.updates.len(), 1);
    assert_eq!(plan.updates[0].id, 2);
    assert_eq!(plan.inserts.len(), 0);
}

#[test]
fn instruction_update_unchanged_list_writes_nothing() {
    let existing = vec![instruction(1, "a", 0, 9), instruction(2, "b", 1, 9)];
    let requested = vec![s("a"), s("b")];
    let plan = plan_instruction_update(&existing, &requested, 9);
    assert!(plan.deletes.is_empty() && plan.updates.is_empty() && plan.inserts.is_empty());
}

#[test]
fn created_instructions_read_back_in_order() {
    let requested = vec![s("preheat"), s("mix"), s("bake")];
    let inserts = new_instruction_rows(&requested, 5);
    let orders: Vec<i32> = inserts.iter().map(|i| i.display_order).collect();
    assert_eq!(orders, vec![0, 1, 2]);
    let stored: Vec<Instruction> = inserts
        .iter()
        .enumerate()
        .map(|(k, i)| instruction(100 + k as i32, &i.instruction, i.display_order, i.recipe_id))
        .collect();
    let composed = get_recipe_elements(&vec![recipe(5, "Bread")], &stored, &vec![], &vec![], &vec![], &vec![], None);
    assert_eq!(composed[0].instructions, requested);
}

#[test]
fn ingredient_exact_match_is_untouched_and_amount_change_updates() {
    let existing = vec![
        (RecipeIngredient { id: 11, amount: amount(0.5), recipe_id: 1, ingredient_id: 100 }, master(100, Some("kg"), "flour")),
        (RecipeIngredient { id: 12, amount: amount(3.0), recipe_id: 1, ingredient_id: 101 }, master(101, Some("dl"), "water")),
        (RecipeIngredient { id: 13, amount: None, recipe_id: 1, ingredient_id: 102 }, master(102, None, "salt")),
    ];
    let available = vec![master(100, Some("kg"), "flour"), master(101, Some("dl"), "water"), master(102, None, "salt")];
    let requested = vec![dto(Some("kg"), "flour", Some(0.5)), dto(Some("dl"), "water", Some(3.5))];
    let plan = plan_ingredient_update(&existing, &available, &requested);
    assert_eq!(plan.deletes, vec![13]);
    assert_eq!(plan.amount_updates, vec![AmountUpdate { id: 12, amount: amount(3.5) }]);
    assert!(plan.new_ingredients.is_empty());
    assert!(plan.links.is_empty());
}

#[test]
fn ingredient_new_pairs_share_one_master_row() {
    let available = vec![master(100, Some("kg"), "flour")];
    let requested = vec![
        dto(Some("g"), "sugar", Some(10.0)),
        dto(Some("kg"), "flour", Some(1.0)),
        dto(Some("g"), "sugar", Some(20.0)),
    ];
    let plan = plan_ingredient_update(&vec![], &available, &requested);
    assert!(plan.deletes.is_empty());
    assert_eq!(plan.new_ingredients.len(), 1);
    assert_eq!(plan.new_ingredients[0].label, "sugar");
    assert_eq!(plan.links.len(), 3);
    assert_eq!(plan.links[0].ingredient, IngredientRef::Created(0));
    assert_eq!(plan.links[1].ingredient, IngredientRef::Existing(100));
    assert_eq!(plan.links[2].ingredient, IngredientRef::Created(0));
    let created = vec![master(200, Some("g"), "sugar")];
    let rows = resolve_links(&plan, &created, 7).unwrap();
    let ids: Vec<i32> = rows.iter().map(|r| r.ingredient_id).collect();
    assert_eq!(ids, vec![200, 100, 200]);
    assert_eq!(rows[2].amount, amount(20.0));
    assert!(rows.iter().all(|r| r.recipe_id == 7));
    assert!(resolve_links(&plan, &vec![], 7).is_none());
}

#[test]
fn same_pair_in_two_recipes_makes_one_master_and_two_joins() {
    let requested = vec![dto(Some("tbsp"), "olive oil", Some(2.0))];
    let plan_a = plan_ingredient_update(&vec![], &vec![], &requested);
    assert_eq!(plan_a.new_ingredients.len(), 1);
    let created = vec![master(300, Some("tbsp"), "olive oil")];
    let joins_a = resolve_links(&plan_a, &created, 1).unwrap();
    let plan_b = plan_ingredient_update(&vec![], &created, &requested);
    assert_eq!(plan_b.new_ingredients.len(), 0);
    let joins_b = resolve_links(&plan_b, &vec![], 2).unwrap();
    assert_eq!(joins_a.len() + joins_b.len(), 2);
    assert_eq!(joins_a[0].ingredient_id, 300);
    assert_eq!(joins_b[0].ingredient_id, 300);
    assert_eq!((joins_a[0].recipe_id, joins_b[0].recipe_id), (1, 2));
}

#[test]
fn tag_update_keeps_links_creates_and_detaches() {
    let existing = vec![tag(1, "vegan", "vegan"), tag(2, "spicy", "spicy")];
    let available = vec![tag(1, "vegan", "vegan"), tag(2, "spicy", "spicy"), tag(3, "quick", "quick")];
    let requested = vec![s("vegan"), s("quick"), s("Gluten Free"), s("Gluten Free")];
    let plan = plan_tag_update(&existing, &available, &requested);
    assert_eq!(plan.deletes, vec![2]);
    assert_eq!(plan.links, vec![TagRef::Existing(3), TagRef::Created(0)]);
    assert_eq!(plan.new_tags.len(), 1);
    assert_eq!(plan.new_tags[0].label, "Gluten Free");
    assert_eq!(plan.new_tags[0].slug, "gluten-free");
    let rows = resolve_tag_links(&plan, &vec![tag(9, "Gluten Free", "gluten-free")], 4).unwrap();
    let ids: Vec<i32> = rows.iter().map(|r| r.tag_id).collect();
    assert_eq!(ids, vec![3, 9]);
    assert!(resolve_tag_links(&plan, &vec![], 4).is_none());
}

#[test]
fn tag_slug_is_derived_from_label() {
    let t = TagDTO::from_post(TagPostDTO { label: s("Quick & Easy Meals") });
    assert_eq!(t.label, "Quick & Easy Meals");
    assert_eq!(t.slug, "quick-easy-meals");
}

#[test]
fn composer_groups_rows_by_recipe_in_input_order() {
    let recipes = vec![recipe(2, "Soup"), recipe(1, "Salad")];
    let instructions = vec![
        instruction(1, "chop", 0, 1),
        instruction(2, "boil", 0, 2),
        instruction(3, "serve", 1, 2),
        instruction(4, "toss", 1, 1),
    ];
    let ingredients = vec![
        (RecipeIngredient { id: 1, amount: amount(1.0), recipe_id: 2, ingredient_id: 5 }, master(5, Some("l"), "water")),
        (RecipeIngredient { id: 2, amount: None, recipe_id: 1, ingredient_id: 6 }, master(6, None, "lettuce")),
    ];
    let tags = vec![(RecipeTag { recipe_id: 1, tag_id: 8 }, tag(8, "vegan", "vegan"))];
    let bookmarks = vec![Bookmark { recipe_id: 1, user_id: 42 }];
    let owned = vec![RecipeUser { recipe_id: 2, user_id: 42 }];
    let r = get_recipe_elements(&recipes, &instructions, &ingredients, &tags, &bookmarks, &owned, Some(42));
    assert_eq!(r.len(), 2);
    assert_eq!(r[0].id, 2);
    assert_eq!(r[0].title, "Soup");
    assert_eq!(r[0].instructions, vec![s("boil"), s("serve")]);
    assert_eq!(r[0].ingredients.len(), 1);
    assert_eq!(r[0].ingredients[0].label, "water");
    assert!(r[0].tags.is_empty());
    assert_eq!(r[0].bookmarked, Some(false));
    assert_eq!(r[0].owned, Some(true));
    assert_eq!(r[1].instructions, vec![s("chop"), s("toss")]);
    assert_eq!(r[1].ingredients[0].unit, None);
    assert_eq!(r[1].tags[0].slug, "vegan");
    assert_eq!(r[1].bookmarked, Some(true));
    assert_eq!(r[1].owned, Some(false));
}

#[test]
fn anonymous_reader_gets_no_flags() {
    let bookmarks = vec![Bookmark { recipe_id: 3, user_id: 1 }];
    let owned = vec![RecipeUser { recipe_id: 3, user_id: 1 }];
    let r = get_recipe_elements(&vec![recipe(3, "Pie")], &vec![], &vec![], &vec![], &bookmarks, &owned, None);
    assert_eq!(r[0].bookmarked, None);
    assert_eq!(r[0].owned, None);
    assert_eq!(r[0].timer, Some(30));
    assert_eq!(r[0].updated_at, Some(2));
}

fn apply_plan(store: &mut Vec<Instruction>, existing: &Vec<Instruction>, requested: &Vec<String>, recipe_id: i32) {
    let plan = plan_instruction_update(existing, requested, recipe_id);
    store.retain(|r| !plan.deletes.contains(&r.id));
    for u in &plan.updates {
        for r in store.iter_mut() {
            if r.id == u.id {
                r.instruction = u.instruction.clone();
            }
        }
    }
    let mut next_id = store.iter().map(|r| r.id).max().unwrap_or(0) + 1;
    for i in &plan.inserts {
        store.push(instruction(next_id, &i.instruction, i.display_order, i.recipe_id));
        next_id += 1;
    }
    store.sort_by_key(|r| r.display_order);
}

#[test]
fn instruction_updates_read_back_as_requested() {
    let cases: Vec<Vec<&str>> = vec![
        vec!["a", "X", "c", "d"],
        vec!["a"],
        vec![],
        vec!["z", "y", "x", "w", "v"],
        vec!["a", "b", "c"],
    ];
    for case in cases {
        let existing = vec![instruction(1, "a", 0, 9), instruction(2, "b", 1, 9), instruction(3, "c", 2, 9)];
        let requested: Vec<String> = case.iter().map(|t| s(t)).collect();
        let mut store = existing.iter().map(|r| instruction(r.id, &r.instruction, r.display_order, r.recipe_id)).collect();
        apply_plan(&mut store, &existing, &requested, 9);
        let orders: Vec<i32> = store.iter().map(|r| r.display_order).collect();
        let expected: Vec<i32> = (0..requested.len() as i32).collect();
        assert_eq!(orders, expected);
        let composed = get_recipe_elements(&vec![recipe(9, "Stew")], &store, &vec![], &vec![], &vec![], &vec![], None);
        assert_eq!(composed[0].instructions, requested);
    }
}

#[test]
fn display_order_check() {
    assert!(instructions_in_display_order(&vec![]));
    assert!(instructions_in_display_order(&vec![instruction(1, "a", 0, 1), instruction(2, "b", 0, 2), instruction(3, "c", 4, 1)]));
    assert!(!instructions_in_display_order(&vec![instruction(1, "a", 2, 1), instruction(2, "b", 1, 1)]));
}
