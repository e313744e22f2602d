use recipe_api::apidoc::{api_doc_response, serve_api_doc};
use recipe_api::auth::{
    authorize, bearer_credential, change_password, fetch_user_profile, login_outcome, login_user, register,
    validate_password, validate_username, ChangePasswordRequest, Claims, LoginUser, NewUser, TokenFailure, User,
};
use recipe_api::models::{Amount, IngredientDTO, Recipe, Tag};
use recipe_api::pagination::pagination;
use recipe_api::recipes::{create_recipe, delete, plan_recipe_creation, update_recipe, RecipePostDTO, RecipePutDTO};
use recipe_api::reconcile::ingredients::IngredientRef;
use recipe_api::reconcile::tags::TagRef;
use recipe_api::responses::{NetworkResponse, RecipeResponse, Status};
use recipe_api::toggles::{bookmark_toggled, bookmarked_list, toggle_bookmark, toggle_tag, Lookup, ToggleAction};

fn s(x: &str) -> String {
    x.to_string()
}

fn post(title: &str) -> RecipePostDTO {
    RecipePostDTO {
        title: s(title),
        servings: s("2"),
        timer: Some(20),
        kcal: Some(300),
        carbs: None,
        proteins: None,
        fats: None,
        image: None,
        instructions: Some(vec![s("a"), s("b")]),
        ingredients: Some(vec![IngredientDTO { unit: Some(s("g")), label: s("rice"), amount: Some(Amount { bits: 200.0f32.to_bits() }) }]),
        tags: Some(vec![s("dinner")]),
    }
}

#[test]
fn pagination_defaults_and_clamps() {
    assert_eq!(pagination(None, None, 0), (1, 10, 0));
    assert_eq!(pagination(Some(3), Some(10), 25), (3, 10, 20));
    assert_eq!(pagination(Some(10), Some(10), 25), (3, 10, 20));
    assert_eq!(pagination(Some(0), Some(5), 25), (1, 5, 0));
    assert_eq!(pagination(Some(-4), Some(0), 25), (1, 10, 0));
    assert_eq!(pagination(Some(2), Some(-5), 25), (2, 10, 10));
    assert_eq!(pagination(Some(7), None, 0), (1, 10, 0));
    assert_eq!(pagination(Some(2), Some(10), 20), (2, 10, 10));
    assert_eq!(pagination(Some(i64::MAX), Some(i64::MAX), i64::MAX), (1, i64::MAX, 0));
}

#[test]
fn pagination_page_stays_within_ceiling() {
    for total in 1..40i64 {
        for per in [None, Some(-1), Some(0), Some(1), Some(3), Some(7), Some(50)] {
            for page in [None, Some(-2), Some(0), Some(1), Some(2), Some(5), Some(100)] {
                let (cur, pp, off) = pagination(page, per, total);
                let expected_pp = match per {
                    Some(p) if p >= 1 => p,
                    _ => 10,
                };
                assert_eq!(pp, expected_pp);
                assert!(cur >= 1 && cur <= (total + pp - 1) / pp);
                assert_eq!(off, pp * (cur - 1));
            }
        }
    }
}

#[test]
fn bookmark_toggled_twice_returns_to_start() {
    let first = toggle_bookmark(Some(1), Lookup::Missing).ok().unwrap();
    assert_eq!(first, ToggleAction::Add);
    assert!(matches!(bookmark_toggled(first, true), RecipeResponse::Success(true)));
    let second = toggle_bookmark(Some(1), Lookup::Found).ok().unwrap();
    assert_eq!(second, ToggleAction::Remove);
    assert!(matches!(bookmark_toggled(second, true), RecipeResponse::Success(false)));
}

#[test]
fn bookmark_toggle_errors() {
    assert!(matches!(toggle_bookmark(None, Lookup::Missing), Err(RecipeResponse::Unauthorized(_))));
    assert!(matches!(toggle_bookmark(Some(1), Lookup::Failed), Err(RecipeResponse::InternalServerError(_))));
    assert!(matches!(bookmark_toggled(ToggleAction::Add, false), RecipeResponse::InternalServerError(_)));
    assert!(matches!(bookmarked_list(None), Err(RecipeResponse::Unauthorized(_))));
    assert!(matches!(bookmarked_list(Some(4)), Ok(4)));
}

#[test]
fn tag_toggle_decisions() {
    let t = Tag { id: 6, label: s("vegan"), slug: s("vegan") };
    assert_eq!(toggle_tag(None, Lookup::Found), Err(Status::NotFound));
    assert_eq!(toggle_tag(Some(&t), Lookup::Found), Ok((6, ToggleAction::Remove)));
    assert_eq!(toggle_tag(Some(&t), Lookup::Missing), Ok((6, ToggleAction::Add)));
    assert_eq!(toggle_tag(Some(&t), Lookup::Failed), Err(Status::InternalServerError));
}

#[test]
fn password_rules() {
    assert!(validate_password(&s("abc123")).is_ok());
    assert!(validate_password(&s("abc12!")).is_ok());
    assert!(validate_password(&s("abcdef")).is_err());
    assert!(validate_password(&s("123456")).is_err());
    assert!(validate_password(&s("abc 123")).is_err());
    assert!(validate_password(&s("abc-123")).is_err());
    assert!(validate_username(&s("bob")));
    assert!(!validate_username(&s("bo")));
    assert!(!validate_username(&s("bob_1")));
    assert!(!NewUser { username: s("alice"), password: s("ab1") }.validate());
    assert!(NewUser { username: s("alice"), password: s("abcde1") }.validate());
    assert!(!LoginUser { username: s("al"), password: s("abcdef") }.validate());
}

#[test]
fn registering_weak_password_is_bad_request() {
    let r = register(&NewUser { username: s("alice"), password: s("abcdefgh") });
    assert!(matches!(r, Err(NetworkResponse::BadRequest(_))));
    assert_eq!(r.err().unwrap().status().code(), 400);
    let r = register(&NewUser { username: s("a!"), password: s("abc123") });
    assert!(matches!(r, Err(NetworkResponse::BadRequest(_))));
}

#[test]
fn login_outcomes() {
    let stored = register(&NewUser { username: s("carol"), password: s("secret1") }).ok().unwrap();
    assert_eq!(stored.username, "carol");
    assert_ne!(stored.password, "secret1");
    let user = User { id: 17, username: stored.username.clone(), password: stored.password.clone() };
    let good = LoginUser { username: s("carol"), password: s("secret1") };
    let bad = LoginUser { username: s("carol"), password: s("wrong12") };
    assert!(matches!(login_user(&good, Some(&user)), Ok(17)));
    let wrong = login_user(&bad, Some(&user));
    assert!(matches!(wrong, Err(NetworkResponse::Unauthorized(_))));
    assert_eq!(wrong.err().unwrap().status().code(), 401);
    let unknown = login_user(&good, None);
    assert!(matches!(unknown, Err(NetworkResponse::NotFound(_))));
    assert_eq!(unknown.err().unwrap().status().code(), 404);
    match login_user(&LoginUser { username: s("c"), password: s("x") }, Some(&user)) {
        Err(NetworkResponse::BadRequest(m)) => assert_eq!(m, "Invalid user input"),
        _ => panic!("expected 400"),
    }
    let claims = Claims::issue(17, 1_700_000_000).unwrap();
    assert_eq!(claims.subject_id, 17);
    assert_eq!(claims.exp, 1_700_021_600);
}

#[test]
fn login_outcome_decision() {
    let user = User { id: 3, username: s("dave"), password: s("hash") };
    assert!(matches!(login_outcome(None, Ok(true)), Err(NetworkResponse::NotFound(_))));
    assert!(matches!(login_outcome(Some(&user), Ok(true)), Ok(3)));
    assert!(matches!(login_outcome(Some(&user), Ok(false)), Err(NetworkResponse::Unauthorized(_))));
    assert!(matches!(login_outcome(Some(&user), Err(s("bad hash"))), Err(NetworkResponse::InternalServerError(_))));
}

#[test]
fn malformed_hash_fails_verification() {
    let user = User { id: 3, username: s("dave"), password: s("not-a-hash") };
    let login = LoginUser { username: s("dave"), password: s("secret1") };
    assert!(matches!(login_user(&login, Some(&user)), Err(NetworkResponse::InternalServerError(_))));
}

#[test]
fn password_change_outcomes() {
    let stored = register(&NewUser { username: s("erin"), password: s("first12") }).ok().unwrap();
    let user = User { id: 8, username: s("erin"), password: stored.password };
    let wrong = ChangePasswordRequest { old_password: s("nope123"), new_password: s("second2") };
    assert!(matches!(change_password(Some(&user), &wrong), Err(NetworkResponse::BadRequest(_))));
    let right = ChangePasswordRequest { old_password: s("first12"), new_password: s("second2") };
    assert!(matches!(change_password(None, &right), Err(NetworkResponse::NotFound(_))));
    let new_hash = change_password(Some(&user), &right).ok().unwrap();
    let updated = User { id: 8, username: s("erin"), password: new_hash };
    assert!(matches!(login_user(&LoginUser { username: s("erin"), password: s("second2") }, Some(&updated)), Ok(8)));
    let p = fetch_user_profile(Some(&updated)).ok().unwrap();
    assert_eq!(p.username, "erin");
    assert!(matches!(fetch_user_profile(None), Err(NetworkResponse::NotFound(_))));
}

#[test]
fn bearer_header_parsing_and_token_failures() {
    assert_eq!(bearer_credential("Bearer abc.def.ghi"), "abc.def.ghi");
    assert_eq!(bearer_credential("  abc "), "abc");
    assert_eq!(bearer_credential("BearerBearer x"), "x");
    let c = Claims { subject_id: 2, exp: 10 };
    assert_eq!(authorize(Ok(c)).ok().unwrap().claims, c);
    match authorize(Err(TokenFailure::Expired)) {
        Err(NetworkResponse::Unauthorized(m)) => assert_eq!(m, "Error validating Jwt token - Expired Token"),
        _ => panic!("expected 401"),
    }
    match authorize(Err(TokenFailure::Other(s("bad key")))) {
        Err(NetworkResponse::Unauthorized(m)) => assert_eq!(m, "Error validating Jwt token - bad key"),
        _ => panic!("expected 401"),
    }
    match authorize(Err(TokenFailure::Missing)) {
        Err(NetworkResponse::Unauthorized(m)) => assert_eq!(m, "Error validating Jwt token - No token provided"),
        _ => panic!("expected 401"),
    }
    match authorize(Err(TokenFailure::Invalid)) {
        Err(NetworkResponse::Unauthorized(m)) => assert_eq!(m, "Error validating Jwt token - Invalid Token"),
        _ => panic!("expected 401"),
    }
}

#[test]
fn recipe_post_rules() {
    assert!(post("Pilaf").validate());
    assert!(!post(&"x".repeat(121)).validate());
    assert!(post(&"é".repeat(120)).validate());
    let mut p = post("Pilaf");
    p.timer = Some(30001);
    assert!(!p.validate());
    p.timer = Some(-1);
    assert!(!p.validate());
    let mut p = post("Pilaf");
    p.ingredients = Some(vec![IngredientDTO { unit: None, label: s("salt"), amount: Some(Amount { bits: 100001.0f32.to_bits() }) }]);
    assert!(!p.validate());
    p.ingredients = Some(vec![IngredientDTO { unit: None, label: s("salt"), amount: Some(Amount { bits: (-1.0f32).to_bits() }) }]);
    assert!(!p.validate());
    p.ingredients = Some(vec![IngredientDTO { unit: None, label: s("salt"), amount: Some(Amount { bits: 100000.0f32.to_bits() }) }]);
    assert!(p.validate());
    p.ingredients = Some(vec![IngredientDTO { unit: None, label: s("salt"), amount: Some(Amount { bits: (-0.0f32).to_bits() }) }]);
    assert!(p.validate());
}

#[test]
fn create_recipe_admission_and_plan() {
    assert!(matches!(create_recipe(None, &post("Pilaf")), Err(RecipeResponse::Unauthorized(_))));
    assert!(matches!(create_recipe(Some(3), &post(&"x".repeat(200))), Err(RecipeResponse::BadRequest(_))));
    assert!(matches!(create_recipe(Some(3), &post("Pilaf")), Ok(3)));
    let plan = plan_recipe_creation(12, &post("Pilaf"), &vec![], &vec![Tag { id: 4, label: s("dinner"), slug: s("dinner") }]);
    assert_eq!(plan.instructions.len(), 2);
    assert_eq!(plan.instructions[1].display_order, 1);
    assert_eq!(plan.instructions[1].recipe_id, 12);
    assert_eq!(plan.ingredients.new_ingredients.len(), 1);
    assert_eq!(plan.ingredients.links[0].ingredient, IngredientRef::Created(0));
    assert!(plan.ingredients.deletes.is_empty());
    assert_eq!(plan.tags.links, vec![TagRef::Existing(4)]);
}

#[test]
fn update_recipe_keeps_empty_or_omitted_fields() {
    let recipe = Recipe {
        id: 1,
        title: s("Old"),
        servings: s("2"),
        timer: None,
        kcal: None,
        carbs: None,
        proteins: None,
        fats: None,
        image: None,
        created_at: None,
        updated_at: None,
    };
    let put = RecipePutDTO {
        title: Some(s("New")),
        servings: Some(s("")),
        timer: None,
        kcal: None,
        carbs: None,
        proteins: None,
        fats: None,
        image: None,
        instructions: None,
        ingredients: None,
        tags: None,
    };
    assert_eq!(update_recipe(&recipe, &put), (s("New"), s("2")));
}

#[test]
fn delete_outcomes() {
    assert!(matches!(delete(None, Ok(1)), Err(RecipeResponse::Unauthorized(_))));
    assert!(matches!(delete(Some(1), Ok(0)), Err(RecipeResponse::NotFound(_))));
    assert!(matches!(delete(Some(1), Ok(1)), Ok(Status::NoContent)));
    assert!(matches!(delete(Some(1), Err(s("fk"))), Err(RecipeResponse::InternalServerError(_))));
}

#[test]
fn api_doc_rendering() {
    assert_eq!(api_doc_response(None), Err(Status::InternalServerError));
    assert_eq!(api_doc_response(Some(s("{}"))), Ok(s("{}")));
    let doc = utoipa::openapi::OpenApiBuilder::new()
        .info(utoipa::openapi::InfoBuilder::new().title("Recipes").version("1").build())
        .build();
    let json = serve_api_doc(&doc).unwrap();
    assert!(json.contains("\"title\": \"Recipes\""));
}

#[test]
fn status_codes() {
    assert_eq!(Status::Success.code(), 200);
    assert_eq!(Status::NoContent.code(), 204);
    assert_eq!(Status::Conflict.code(), 409);
    assert_eq!(NetworkResponse::Created(s("x")).status(), Status::Created);
    assert_eq!(RecipeResponse::<bool>::InternalServerError(s("x")).status().code(), 500);
}
