use vstd::prelude::*;
use vstd::multiset::Multiset;
use crate::models::{RecipeIngredientInsert, opt_str, same_amount, same_opt_str, copy_opt_str, Amount, Ingredient, IngredientDTO, IngredientInsert, RecipeIngredient};

verus! {

/// The identity of an ingredient: its unit and label.
pub open spec fn dto_key(d: IngredientDTO) -> (Option<Seq<char>>, Seq<char>) {
    (opt_str(d.unit), d.label@)
}

pub open spec fn master_key(i: Ingredient) -> (Option<Seq<char>>, Seq<char>) {
    (opt_str(i.unit), i.label@)
}

pub open spec fn insert_key(i: IngredientInsert) -> (Option<Seq<char>>, Seq<char>) {
    (opt_str(i.unit), i.label@)
}

/// Where a planned join row points: a master row that exists already, or the
/// master row at this index of the plan's `new_ingredients`.
#[derive(PartialEq, Eq, Structural, Clone, Copy, Debug)]
pub enum IngredientRef {
    Existing(i32),
    Created(usize),
}

/// A join row to insert once the master rows it needs exist.
#[derive(PartialEq, Eq, Structural, Clone, Copy, Debug)]
pub struct PlannedLink {
    pub ingredient: IngredientRef,
    pub amount: Option<Amount>,
}

/// A new amount for an existing join row.
#[derive(PartialEq, Eq, Structural, Clone, Copy, Debug)]
pub struct AmountUpdate {
    pub id: i32,
    pub amount: Option<Amount>,
}

/// The writes that bring a recipe's ingredients to a requested list.
pub struct IngredientPlan {
    /// Join rows to delete, by id.
    pub deletes: Vec<i32>,
    /// Join rows that keep their ingredient but change amount.
    pub amount_updates: Vec<AmountUpdate>,
    /// Master rows to create, one per unknown `(unit, label)`.
    pub new_ingredients: Vec<IngredientInsert>,
    /// Join rows to insert, in request order.
    pub links: Vec<PlannedLink>,
}

/// Matching state after some requested entries: which existing join rows are
/// taken, the amount updates, the keys of master rows to create, the links.
pub type IngredientState = (Seq<bool>, Seq<AmountUpdate>, Seq<(Option<Seq<char>>, Seq<char>)>, Seq<PlannedLink>);

/// First free existing join row from `j` on whose ingredient has the entry's
/// key, and, when `exact`, also its amount.
pub open spec fn first_free_row(
    existing: Seq<(RecipeIngredient, Ingredient)>,
    used: Seq<bool>,
    d: IngredientDTO,
    exact: bool,
    j: int,
) -> Option<int>
    decreases existing.len() - j,
{
    if j < 0 || j >= existing.len() {
        None
    } else if !used[j] && master_key(existing[j].1) == dto_key(d) && (!exact
        || existing[j].0.amount == d.amount) {
        Some(j)
    } else {
        first_free_row(existing, used, d, exact, j + 1)
    }
}

/// First master row from `j` on with the given key.
pub open spec fn first_master(
    masters: Seq<Ingredient>,
    k: (Option<Seq<char>>, Seq<char>),
    j: int,
) -> Option<int>
    decreases masters.len() - j,
{
    if j < 0 || j >= masters.len() {
        None
    } else if master_key(masters[j]) == k {
        Some(j)
    } else {
        first_master(masters, k, j + 1)
    }
}

/// First position from `j` on that holds the given key.
pub open spec fn key_pos(
    keys: Seq<(Option<Seq<char>>, Seq<char>)>,
    k: (Option<Seq<char>>, Seq<char>),
    j: int,
) -> Option<int>
    decreases keys.len() - j,
{
    if j < 0 || j >= keys.len() {
        None
    } else if keys[j] == k {
        Some(j)
    } else {
        key_pos(keys, k, j + 1)
    }
}

/// One requested entry: it takes a free row with the same key and amount
/// untouched; else a free row with the same key gets its amount updated;
/// else it becomes a new join row, to an existing master row with its key
/// when there is one, or to a master row created for its key (once per key).
pub open spec fn ingredient_step(
    existing: Seq<(RecipeIngredient, Ingredient)>,
    available: Seq<Ingredient>,
    st: IngredientState,
    d: IngredientDTO,
) -> IngredientState {
    let (used, updates, new_keys, links) = st;
    match first_free_row(existing, used, d, true, 0) {
        Some(j) => (used.update(j, true), updates, new_keys, links),
        None => match first_free_row(existing, used, d, false, 0) {
            Some(j) => (
                used.update(j, true),
                updates.push(AmountUpdate { id: existing[j].0.id, amount: d.amount }),
                new_keys,
                links,
            ),
            None => match first_master(available, dto_key(d), 0) {
                Some(m) => (
                    used,
                    updates,
                    new_keys,
                    links.push(PlannedLink { ingredient: IngredientRef::Existing(available[m].id), amount: d.amount }),
                ),
                None => match key_pos(new_keys, dto_key(d), 0) {
                    Some(k) => (
                        used,
                        updates,
                        new_keys,
                        links.push(PlannedLink { ingredient: IngredientRef::Created(k as usize), amount: d.amount }),
                    ),
                    None => (
                        used,
                        updates,
                        new_keys.push(dto_key(d)),
                        links.push(PlannedLink { ingredient: IngredientRef::Created(new_keys.len() as usize), amount: d.amount }),
                    ),
                },
            },
        },
    }
}

/// The matching state after the first `n` requested entries.
pub open spec fn ingredient_state(
    existing: Seq<(RecipeIngredient, Ingredient)>,
    available: Seq<Ingredient>,
    requested: Seq<IngredientDTO>,
    n: nat,
) -> IngredientState
    decreases n,
{
    if n == 0 || n > requested.len() {
        (Seq::new(existing.len(), |i: int| false), Seq::empty(), Seq::empty(), Seq::empty())
    } else {
        ingredient_step(
            existing,
            available,
            ingredient_state(existing, available, requested, (n - 1) as nat),
            requested[n - 1],
        )
    }
}

/// Ids of the first `n` existing join rows that nothing took.
pub open spec fn untaken_ids(existing: Seq<(RecipeIngredient, Ingredient)>, used: Seq<bool>, n: nat) -> Seq<i32>
    decreases n,
{
    if n == 0 {
        Seq::empty()
    } else if !used[n - 1] {
        untaken_ids(existing, used, (n - 1) as nat).push(existing[n - 1].0.id)
    } else {
        untaken_ids(existing, used, (n - 1) as nat)
    }
}

/// The final matching state for a whole request.
pub open spec fn ingredient_outcome(
    existing: Seq<(RecipeIngredient, Ingredient)>,
    available: Seq<Ingredient>,
    requested: Seq<IngredientDTO>,
) -> IngredientState {
    ingredient_state(existing, available, requested, requested.len())
}

/// Whether `plan` is the plan for the request: rows that nothing took are
/// deleted, and the rest is the final matching state.
pub open spec fn is_ingredient_plan(
    plan: IngredientPlan,
    existing: Seq<(RecipeIngredient, Ingredient)>,
    available: Seq<Ingredient>,
    requested: Seq<IngredientDTO>,
) -> bool {
    let (used, updates, new_keys, links) = ingredient_outcome(existing, available, requested);
    &&& plan.deletes@ == untaken_ids(existing, used, existing.len())
    &&& plan.amount_updates@ == updates
    &&& plan.new_ingredients@.map_values(|i: IngredientInsert| insert_key(i)) == new_keys
    &&& plan.links@ == links
}

fn find_free_row(
    existing: &Vec<(RecipeIngredient, Ingredient)>,
    used: &Vec<bool>,
    d: &IngredientDTO,
    exact: bool,
) -> (r: Option<usize>)
    requires
        used.len() == existing.len(),
    ensures
        match r {
            Some(j) => j < existing.len() && first_free_row(existing@, used@, *d, exact, 0) == Some(j as int),
            None => first_free_row(existing@, used@, *d, exact, 0) is None,
        },
{
    let mut j: usize = 0;
    while j < existing.len()
        invariant
            j <= existing.len(),
            used.len() == existing.len(),
            first_free_row(existing@, used@, *d, exact, 0) == first_free_row(existing@, used@, *d, exact, j as int),
        decreases existing.len() - j,
    {
        let row = &existing[j];
        if !used[j] && same_opt_str(&row.1.unit, &d.unit) && row.1.label.eq(&d.label) && (!exact
            || same_amount(row.0.amount, d.amount)) {
            return Some(j);
        }
        j = j + 1;
    }
    None
}

fn find_master(masters: &Vec<Ingredient>, unit: &Option<String>, label: &String) -> (r: Option<usize>)
    ensures
        match r {
            Some(m) => m < masters.len() && first_master(masters@, (opt_str(*unit), label@), 0) == Some(m as int),
            None => first_master(masters@, (opt_str(*unit), label@), 0) is None,
        },
{
    let mut j: usize = 0;
    while j < masters.len()
        invariant
            j <= masters.len(),
            first_master(masters@, (opt_str(*unit), label@), 0) == first_master(masters@, (opt_str(*unit), label@), j as int),
        decreases masters.len() - j,
    {
        if same_opt_str(&masters[j].unit, unit) && masters[j].label.eq(label) {
            return Some(j);
        }
        j = j + 1;
    }
    None
}

fn find_new_key(keys: &Vec<IngredientInsert>, d: &IngredientDTO) -> (r: Option<usize>)
    ensures
        match r {
            Some(k) => key_pos(keys@.map_values(|i: IngredientInsert| insert_key(i)), dto_key(*d), 0) == Some(k as int),
            None => key_pos(keys@.map_values(|i: IngredientInsert| insert_key(i)), dto_key(*d), 0) is None,
        },
{
    let ghost ks = keys@.map_values(|i: IngredientInsert| insert_key(i));
    let mut j: usize = 0;
    while j < keys.len()
        invariant
            j <= keys.len(),
            ks == keys@.map_values(|i: IngredientInsert| insert_key(i)),
            key_pos(ks, dto_key(*d), 0) == key_pos(ks, dto_key(*d), j as int),
        decreases keys.len() - j,
    {
        if same_opt_str(&keys[j].unit, &d.unit) && keys[j].label.eq(&d.label) {
            return Some(j);
        }
        j = j + 1;
    }
    None
}

/// Plans the writes that turn a recipe's ingredient rows `existing` into the
/// `requested` list, reusing the master rows in `available`. Existing join
/// rows are matched one to one, first by key and amount, then by key alone;
/// join rows left over are deleted.
pub fn plan_ingredient_update(
    existing: &Vec<(RecipeIngredient, Ingredient)>,
    available: &Vec<Ingredient>,
    requested: &Vec<IngredientDTO>,
) -> (r: IngredientPlan)
    ensures
        is_ingredient_plan(r, existing@, available@, requested@),
{
    let mut used: Vec<bool> = Vec::new();
    let mut j: usize = 0;
    while j < existing.len()
        invariant
            j <= existing.len(),
            used@ == Seq::new(j as nat, |i: int| false),
        decreases existing.len() - j,
    {
        used.push(false);
        j = j + 1;
        assert(used@ =~= Seq::new(j as nat, |i: int| false));
    }
    let mut amount_updates: Vec<AmountUpdate> = Vec::new();
    let mut new_ingredients: Vec<IngredientInsert> = Vec::new();
    let mut links: Vec<PlannedLink> = Vec::new();
    let mut i: usize = 0;
    assert((used@, amount_updates@, new_ingredients@.map_values(|x: IngredientInsert| insert_key(x)), links@)
        =~= ingredient_state(existing@, available@, requested@, 0));
    while i < requested.len()
        invariant
            i <= requested.len(),
            used.len() == existing.len(),
            (used@, amount_updates@, new_ingredients@.map_values(|x: IngredientInsert| insert_key(x)), links@)
                == ingredient_state(existing@, available@, requested@, i as nat),
        decreases requested.len() - i,
    {
        let d = &requested[i];
        let ghost st = ingredient_state(existing@, available@, requested@, i as nat);
        let ghost keys_before = new_ingredients@.map_values(|x: IngredientInsert| insert_key(x));
        match find_free_row(existing, &used, d, true) {
            Some(j) => {
                used.set(j, true);
            },
            None => match find_free_row(existing, &used, d, false) {
                Some(j) => {
                    used.set(j, true);
                    amount_updates.push(AmountUpdate { id: existing[j].0.id, amount: d.amount });
                },
                None => match find_master(available, &d.unit, &d.label) {
                    Some(m) => {
                        links.push(PlannedLink { ingredient: IngredientRef::Existing(available[m].id), amount: d.amount });
                    },
                    None => match find_new_key(&new_ingredients, d) {
                        Some(k) => {
                            links.push(PlannedLink { ingredient: IngredientRef::Created(k), amount: d.amount });
                        },
                        None => {
                            let k = new_ingredients.len();
                            new_ingredients.push(IngredientInsert { unit: copy_opt_str(&d.unit), label: d.label.clone() });
                            links.push(PlannedLink { ingredient: IngredientRef::Created(k), amount: d.amount });
                            assert(new_ingredients@.map_values(|x: IngredientInsert| insert_key(x))
                                =~= keys_before.push(dto_key(*d)));
                        },
                    },
                },
            },
        }
        i = i + 1;
    }
    let ghost used_final = used@;
    let mut deletes: Vec<i32> = Vec::new();
    let mut j: usize = 0;
    while j < existing.len()
        invariant
            j <= existing.len(),
            used@ == used_final,
            used.len() == existing.len(),
            deletes@ == untaken_ids(existing@, used_final, j as nat),
        decreases existing.len() - j,
    {
        if !used[j] {
            deletes.push(existing[j].0.id);
        }
        j = j + 1;
    }
    IngredientPlan { deletes, amount_updates, new_ingredients, links }
}


/// The master row id a planned link resolves to, once the master rows of
/// the plan (`new_keys`) have been created as `created`.
pub open spec fn link_target(
    link: PlannedLink,
    new_keys: Seq<(Option<Seq<char>>, Seq<char>)>,
    created: Seq<Ingredient>,
) -> Option<i32> {
    match link.ingredient {
        IngredientRef::Existing(id) => Some(id),
        IngredientRef::Created(c) => if c < new_keys.len() {
            match first_master(created, new_keys[c as int], 0) {
                Some(m) => Some(created[m].id),
                None => None,
            }
        } else {
            None
        },
    }
}

/// Turns the plan's links into join rows for `recipe_id`, given the master
/// rows that were created for `new_ingredients`. A created row is found by
/// its key. `None` when a link's master row is missing from `created`.
pub fn resolve_links(plan: &IngredientPlan, created: &Vec<Ingredient>, recipe_id: i32) -> (r: Option<
    Vec<RecipeIngredientInsert>,
>)
    ensures
        ({
            let keys = plan.new_ingredients@.map_values(|i: IngredientInsert| insert_key(i));
            match r {
                Some(rows) => {
                    &&& rows.len() == plan.links.len()
                    &&& forall|k: int|
                        0 <= k < rows.len() ==> {
                            &&& link_target(#[trigger] plan.links@[k], keys, created@) == Some(rows@[k].ingredient_id)
                            &&& rows@[k].amount == plan.links@[k].amount
                            &&& rows@[k].recipe_id == recipe_id
                        }
                },
                None => exists|k: int|
                    0 <= k < plan.links.len() && link_target(#[trigger] plan.links@[k], keys, created@) is None,
            }
        }),
{
    let ghost keys = plan.new_ingredients@.map_values(|i: IngredientInsert| insert_key(i));
    let mut rows: Vec<RecipeIngredientInsert> = Vec::new();
    let mut k: usize = 0;
    while k < plan.links.len()
        invariant
            k <= plan.links.len(),
            keys == plan.new_ingredients@.map_values(|i: IngredientInsert| insert_key(i)),
            rows.len() == k,
            forall|x: int|
                0 <= x < k ==> {
                    &&& link_target(#[trigger] plan.links@[x], keys, created@) == Some(rows@[x].ingredient_id)
                    &&& rows@[x].amount == plan.links@[x].amount
                    &&& rows@[x].recipe_id == recipe_id
                },
        decreases plan.links.len() - k,
    {
        let link = plan.links[k];
        let target: i32 = match link.ingredient {
            IngredientRef::Existing(id) => id,
            IngredientRef::Created(c) => {
                if c >= plan.new_ingredients.len() {
                    return None;
                }
                let key = &plan.new_ingredients[c];
                match find_master(created, &key.unit, &key.label) {
                    Some(m) => created[m].id,
                    None => {
                        return None;
                    },
                }
            },
        };
        rows.push(RecipeIngredientInsert { amount: link.amount, recipe_id, ingredient_id: target });
        k = k + 1;
    }
    Some(rows)
}

proof fn lemma_key_pos_found(keys: Seq<(Option<Seq<char>>, Seq<char>)>, k: (Option<Seq<char>>, Seq<char>), j: int)
    requires
        0 <= j,
    ensures
        match key_pos(keys, k, j) {
            Some(p) => j <= p < keys.len() && keys[p] == k,
            None => forall|i: int| j <= i < keys.len() ==> keys[i] != k,
        },
    decreases keys.len() - j,
{
    if j < keys.len() && keys[j] != k {
        lemma_key_pos_found(keys, k, j + 1);
    }
}

proof fn lemma_first_master_found(masters: Seq<Ingredient>, k: (Option<Seq<char>>, Seq<char>), j: int)
    requires
        0 <= j,
    ensures
        match first_master(masters, k, j) {
            Some(p) => j <= p < masters.len() && master_key(masters[p]) == k,
            None => forall|i: int| j <= i < masters.len() ==> master_key(masters[i]) != k,
        },
    decreases masters.len() - j,
{
    if j < masters.len() && master_key(masters[j]) != k {
        lemma_first_master_found(masters, k, j + 1);
    }
}

proof fn lemma_free_row_in_bounds(
    existing: Seq<(RecipeIngredient, Ingredient)>,
    used: Seq<bool>,
    d: IngredientDTO,
    exact: bool,
    j: int,
)
    requires
        0 <= j,
    ensures
        first_free_row(existing, used, d, exact, j) matches Some(p) ==> j <= p < existing.len(),
    decreases existing.len() - j,
{
    if j < existing.len() {
        lemma_free_row_in_bounds(existing, used, d, exact, j + 1);
    }
}

/// The master rows a plan creates have distinct keys, none of which an
/// available master row already has; every link to a created row points
/// inside the plan's list.
pub proof fn lemma_ingredient_state_fresh(
    existing: Seq<(RecipeIngredient, Ingredient)>,
    available: Seq<Ingredient>,
    requested: Seq<IngredientDTO>,
    n: nat,
)
    ensures
        ({
            let (used, updates, keys, links) = ingredient_state(existing, available, requested, n);
            &&& used.len() == existing.len()
            &&& forall|a: int, b: int| 0 <= a < b < keys.len() ==> keys[a] != keys[b]
            &&& forall|a: int, m: int|
                0 <= a < keys.len() && 0 <= m < available.len() ==> master_key(available[m]) != keys[a]
            &&& forall|x: int|
                0 <= x < links.len() ==> (#[trigger] links[x].ingredient matches IngredientRef::Created(c)
                    ==> c < keys.len())
        }),
    decreases n,
{
    if n == 0 || n > requested.len() {
    } else {
        let prev = ingredient_state(existing, available, requested, (n - 1) as nat);
        lemma_ingredient_state_fresh(existing, available, requested, (n - 1) as nat);
        let d = requested[n - 1];
        let (used, updates, keys, links) = prev;
        lemma_free_row_in_bounds(existing, used, d, true, 0);
        lemma_free_row_in_bounds(existing, used, d, false, 0);
        lemma_first_master_found(available, dto_key(d), 0);
        lemma_key_pos_found(keys, dto_key(d), 0);
        let next = ingredient_state(existing, available, requested, n);
        assert(next == ingredient_step(existing, available, prev, d));
        let (used2, updates2, keys2, links2) = next;
        assert forall|x: int| 0 <= x < links2.len() implies (#[trigger] links2[x].ingredient matches IngredientRef::Created(c)
            ==> c < keys2.len()) by {
            if x < links.len() {
                assert(links2[x] == links[x]);
            }
        }
    }
}

/// Master rows are created once per `(unit, label)`: over two requests,
/// where the second sees the master rows that the first created, the keys
/// of all created rows are distinct, and none of them existed before.
pub proof fn ingredient_masters_created_once(
    existing_a: Seq<(RecipeIngredient, Ingredient)>,
    existing_b: Seq<(RecipeIngredient, Ingredient)>,
    available: Seq<Ingredient>,
    requested_a: Seq<IngredientDTO>,
    requested_b: Seq<IngredientDTO>,
    created: Seq<Ingredient>,
)
    requires
        created.map_values(|i: Ingredient| master_key(i)) == ingredient_outcome(existing_a, available, requested_a).2,
    ensures
        ({
            let ka = ingredient_outcome(existing_a, available, requested_a).2;
            let kb = ingredient_outcome(existing_b, available + created, requested_b).2;
            let all = ka + kb;
            &&& forall|a: int, b: int| 0 <= a < b < all.len() ==> all[a] != all[b]
            &&& forall|a: int, m: int|
                0 <= a < all.len() && 0 <= m < available.len() ==> master_key(available[m]) != all[a]
        }),
{
    let ka = ingredient_outcome(existing_a, available, requested_a).2;
    let av2 = available + created;
    let kb = ingredient_outcome(existing_b, av2, requested_b).2;
    let all = ka + kb;
    lemma_ingredient_state_fresh(existing_a, available, requested_a, requested_a.len());
    lemma_ingredient_state_fresh(existing_b, av2, requested_b, requested_b.len());
    assert(created.len() == ka.len());
    assert forall|a: int, b: int| 0 <= a < b < all.len() implies all[a] != all[b] by {
        if b >= ka.len() && a < ka.len() {
            let m = available.len() + a;
            assert(av2[m] == created[a]);
            assert(master_key(created[a]) == ka[a]);
            assert(master_key(av2[m]) != kb[b - ka.len()]);
        } else if a >= ka.len() {
            assert(all[a] == kb[a - ka.len()]);
            assert(all[b] == kb[b - ka.len()]);
        }
    }
    assert forall|a: int, m: int|
        0 <= a < all.len() && 0 <= m < available.len() implies master_key(available[m]) != all[a] by {
        if a >= ka.len() {
            assert(av2[m] == available[m]);
        }
    }
}


/// Whether a planned link points at a master row with key `k`: an available
/// one, or one of the plan's new rows.
pub open spec fn link_has_key(
    link: PlannedLink,
    available: Seq<Ingredient>,
    new_keys: Seq<(Option<Seq<char>>, Seq<char>)>,
    k: (Option<Seq<char>>, Seq<char>),
) -> bool {
    match link.ingredient {
        IngredientRef::Existing(id) => exists|m: int|
            0 <= m < available.len() && #[trigger] available[m].id == id && master_key(available[m]) == k,
        IngredientRef::Created(c) => c < new_keys.len() && new_keys[c as int] == k,
    }
}

proof fn lemma_no_free_row(
    existing: Seq<(RecipeIngredient, Ingredient)>,
    used: Seq<bool>,
    d: IngredientDTO,
    exact: bool,
    j: int,
)
    requires
        0 <= j,
        forall|x: int| 0 <= x < existing.len() ==> master_key(#[trigger] existing[x].1) != dto_key(d),
    ensures
        first_free_row(existing, used, d, exact, j) is None,
    decreases existing.len() - j,
{
    if j < existing.len() {
        lemma_no_free_row(existing, used, d, exact, j + 1);
    }
}

proof fn lemma_fresh_recipe_links(
    existing: Seq<(RecipeIngredient, Ingredient)>,
    available: Seq<Ingredient>,
    requested: Seq<IngredientDTO>,
    n: nat,
)
    requires
        n <= requested.len() <= usize::MAX,
        forall|x: int, j: int|
            0 <= x < requested.len() && 0 <= j < existing.len() ==> master_key(#[trigger] existing[j].1) != dto_key(
                #[trigger] requested[x],
            ),
    ensures
        ({
            let (used, updates, keys, links) = ingredient_state(existing, available, requested, n);
            &&& links.len() == n
            &&& keys.len() <= n
            &&& updates.len() == 0
            &&& forall|x: int|
                0 <= x < n ==> link_has_key(#[trigger] links[x], available, keys, dto_key(requested[x]))
                    && links[x].amount == requested[x].amount
        }),
    decreases n,
{
    if n > 0 {
        lemma_fresh_recipe_links(existing, available, requested, (n - 1) as nat);
        let prev = ingredient_state(existing, available, requested, (n - 1) as nat);
        let (used, updates, keys, links) = prev;
        let d = requested[n - 1];
        let k = dto_key(d);
        assert forall|x: int| 0 <= x < existing.len() implies master_key(#[trigger] existing[x].1) != dto_key(d) by {
            assert(master_key(existing[x].1) != dto_key(requested[n - 1]));
        }
        lemma_no_free_row(existing, used, d, true, 0);
        lemma_no_free_row(existing, used, d, false, 0);
        lemma_first_master_found(available, k, 0);
        lemma_key_pos_found(keys, k, 0);
        let next = ingredient_state(existing, available, requested, n);
        assert(next == ingredient_step(existing, available, prev, d));
        let (used2, updates2, keys2, links2) = next;
        assert(links2.len() == n);
        assert(forall|c: int| 0 <= c < keys.len() ==> keys2[c] == keys[c]);
        assert forall|x: int| 0 <= x < n implies link_has_key(#[trigger] links2[x], available, keys2, dto_key(requested[x]))
            && links2[x].amount == requested[x].amount by {
            if x < n - 1 {
                assert(links2[x] == links[x]);
                assert(link_has_key(links[x], available, keys, dto_key(requested[x])));
            } else {
                match first_master(available, k, 0) {
                    Some(m) => {
                        assert(links2[x] == PlannedLink { ingredient: IngredientRef::Existing(available[m].id), amount: d.amount });
                        assert(available[m].id == available[m].id && master_key(available[m]) == k);
                    },
                    None => match key_pos(keys, k, 0) {
                        Some(p) => {
                            assert(links2[x] == PlannedLink { ingredient: IngredientRef::Created(p as usize), amount: d.amount });
                            assert(keys2 == keys);
                        },
                        None => {
                            assert(links2[x] == PlannedLink { ingredient: IngredientRef::Created(keys.len() as usize), amount: d.amount });
                            assert(keys2 == keys.push(k));
                        },
                    },
                }
            }
        }
    }
}

/// Two recipes, neither of which has a row for a `(unit, label)` pair, are
/// each given that pair (with amounts of their own); the second request
/// comes after the first one's new master rows were stored as `created`.
/// Then exactly one master row has the pair, no master row is created for
/// it twice, nothing of either recipe is updated, and each recipe gets one
/// join row, with its own amount, to a master row with that pair.
pub proof fn same_pair_in_two_recipes(
    existing_a: Seq<(RecipeIngredient, Ingredient)>,
    existing_b: Seq<(RecipeIngredient, Ingredient)>,
    available: Seq<Ingredient>,
    d_a: IngredientDTO,
    d_b: IngredientDTO,
    created: Seq<Ingredient>,
)
    requires
        dto_key(d_a) == dto_key(d_b),
        forall|j: int| 0 <= j < existing_a.len() ==> master_key(#[trigger] existing_a[j].1) != dto_key(d_a),
        forall|j: int| 0 <= j < existing_b.len() ==> master_key(#[trigger] existing_b[j].1) != dto_key(d_b),
        forall|i: int, j: int|
            0 <= i < j < available.len() ==> master_key(available[i]) != master_key(available[j]),
        created.map_values(|i: Ingredient| master_key(i)) == ingredient_outcome(existing_a, available, seq![d_a]).2,
    ensures
        ({
            let k = dto_key(d_a);
            let first = ingredient_outcome(existing_a, available, seq![d_a]);
            let stored = available + created;
            let second = ingredient_outcome(existing_b, stored, seq![d_b]);
            &&& first.1.len() == 0 && second.1.len() == 0
            &&& first.3.len() == 1 && link_has_key(first.3[0], available, first.2, k) && first.3[0].amount == d_a.amount
            &&& second.3.len() == 1 && link_has_key(second.3[0], stored, second.2, k) && second.3[0].amount == d_b.amount
            &&& second.2.len() == 0
            &&& exists|i: int| 0 <= i < stored.len() && master_key(#[trigger] stored[i]) == k
            &&& forall|i: int, j: int|
                0 <= i < stored.len() && 0 <= j < stored.len() && master_key(#[trigger] stored[i]) == k
                    && master_key(#[trigger] stored[j]) == k ==> i == j
        }),
{
    let k = dto_key(d_a);
    let req_a = seq![d_a];
    let req_b = seq![d_b];
    let first = ingredient_outcome(existing_a, available, req_a);
    let stored = available + created;
    assert forall|x: int, j: int| 0 <= x < req_a.len() && 0 <= j < existing_a.len() implies master_key(
        #[trigger] existing_a[j].1,
    ) != dto_key(#[trigger] req_a[x]) by {
        assert(req_a[x] == d_a);
    }
    assert forall|x: int, j: int| 0 <= x < req_b.len() && 0 <= j < existing_b.len() implies master_key(
        #[trigger] existing_b[j].1,
    ) != dto_key(#[trigger] req_b[x]) by {
        assert(req_b[x] == d_b);
    }
    lemma_fresh_recipe_links(existing_a, available, req_a, 1);
    lemma_fresh_recipe_links(existing_b, stored, req_b, 1);
    let init = ingredient_state(existing_a, available, req_a, 0);
    assert(first == ingredient_step(existing_a, available, init, d_a));
    lemma_no_free_row(existing_a, init.0, d_a, true, 0);
    lemma_no_free_row(existing_a, init.0, d_a, false, 0);
    lemma_first_master_found(available, k, 0);
    lemma_key_pos_found(init.2, k, 0);
    assert(created.len() == first.2.len());
    match first_master(available, k, 0) {
        Some(m) => {
            assert(first.2.len() == 0);
            assert(created =~= Seq::<Ingredient>::empty());
            assert(stored =~= available);
            assert(master_key(stored[m]) == k);
        },
        None => {
            assert(first.2 == seq![k]);
            assert(created.map_values(|i: Ingredient| master_key(i))[0] == master_key(created[0]));
            assert(master_key(created[0]) == k);
            let n = available.len() as int;
            assert(stored[n] == created[0]);
            assert(master_key(stored[n]) == k);
            assert forall|i: int, j: int|
                0 <= i < stored.len() && 0 <= j < stored.len() && master_key(#[trigger] stored[i]) == k
                    && master_key(#[trigger] stored[j]) == k implies i == j by {
                if i < n {
                    assert(stored[i] == available[i]);
                }
                if j < n {
                    assert(stored[j] == available[j]);
                }
            }
        },
    }
    let init2 = ingredient_state(existing_b, stored, req_b, 0);
    let second = ingredient_outcome(existing_b, stored, req_b);
    assert(second == ingredient_step(existing_b, stored, init2, d_b));
    lemma_no_free_row(existing_b, init2.0, d_b, true, 0);
    lemma_no_free_row(existing_b, init2.0, d_b, false, 0);
    lemma_first_master_found(stored, k, 0);
    assert(first_master(stored, k, 0) is Some);
}


/// An ingredient as unit, label and amount.
pub open spec fn entry_view(d: IngredientDTO) -> (Option<Seq<char>>, Seq<char>, Option<Amount>) {
    (opt_str(d.unit), d.label@, d.amount)
}

/// The amount a join row has after the updates (the last one for its id
/// wins).
pub open spec fn amount_after(row: RecipeIngredient, updates: Seq<AmountUpdate>) -> Option<Amount>
    decreases updates.len(),
{
    if updates.len() == 0 {
        row.amount
    } else if updates.last().id == row.id {
        updates.last().amount
    } else {
        amount_after(row, updates.drop_last())
    }
}

/// The first `n` existing join rows that are kept, as unit, label and
/// amount after the updates.
pub open spec fn kept_rows(
    existing: Seq<(RecipeIngredient, Ingredient)>,
    used: Seq<bool>,
    updates: Seq<AmountUpdate>,
    n: nat,
) -> Multiset<(Option<Seq<char>>, Seq<char>, Option<Amount>)>
    decreases n,
{
    if n == 0 {
        Multiset::empty()
    } else if used[n - 1] {
        kept_rows(existing, used, updates, (n - 1) as nat).insert(
            (opt_str(existing[n - 1].1.unit), existing[n - 1].1.label@, amount_after(existing[n - 1].0, updates)),
        )
    } else {
        kept_rows(existing, used, updates, (n - 1) as nat)
    }
}

/// First master row from `j` on with the given id.
pub open spec fn master_with_id(masters: Seq<Ingredient>, id: i32, j: int) -> Option<int>
    decreases masters.len() - j,
{
    if j < 0 || j >= masters.len() {
        None
    } else if masters[j].id == id {
        Some(j)
    } else {
        master_with_id(masters, id, j + 1)
    }
}

/// The key of the master row a link points at.
pub open spec fn link_key(
    link: PlannedLink,
    available: Seq<Ingredient>,
    new_keys: Seq<(Option<Seq<char>>, Seq<char>)>,
) -> Option<(Option<Seq<char>>, Seq<char>)> {
    match link.ingredient {
        IngredientRef::Existing(id) => match master_with_id(available, id, 0) {
            Some(m) => Some(master_key(available[m])),
            None => None,
        },
        IngredientRef::Created(c) => if c < new_keys.len() { Some(new_keys[c as int]) } else { None },
    }
}

/// The first `n` new join rows, as unit, label and amount.
pub open spec fn linked_rows(
    links: Seq<PlannedLink>,
    available: Seq<Ingredient>,
    new_keys: Seq<(Option<Seq<char>>, Seq<char>)>,
    n: nat,
) -> Multiset<(Option<Seq<char>>, Seq<char>, Option<Amount>)>
    decreases n,
{
    if n == 0 {
        Multiset::empty()
    } else {
        let k = link_key(links[n - 1], available, new_keys)->0;
        linked_rows(links, available, new_keys, (n - 1) as nat).insert((k.0, k.1, links[n - 1].amount))
    }
}

/// The first `n` requested entries.
pub open spec fn requested_rows(requested: Seq<IngredientDTO>, n: nat) -> Multiset<
    (Option<Seq<char>>, Seq<char>, Option<Amount>),
>
    decreases n,
{
    if n == 0 {
        Multiset::empty()
    } else {
        requested_rows(requested, (n - 1) as nat).insert(entry_view(requested[n - 1]))
    }
}

proof fn lemma_amount_untouched(row: RecipeIngredient, updates: Seq<AmountUpdate>)
    requires
        forall|x: int| 0 <= x < updates.len() ==> (#[trigger] updates[x]).id != row.id,
    ensures
        amount_after(row, updates) == row.amount,
    decreases updates.len(),
{
    if updates.len() > 0 {
        let prev = updates.drop_last();
        assert forall|x: int| 0 <= x < prev.len() implies (#[trigger] prev[x]).id != row.id by {
            assert(prev[x] == updates[x]);
        }
        lemma_amount_untouched(row, prev);
    }
}

proof fn lemma_kept_take(
    existing: Seq<(RecipeIngredient, Ingredient)>,
    used: Seq<bool>,
    updates: Seq<AmountUpdate>,
    j: int,
    n: nat,
)
    requires
        0 <= j < used.len(),
        n <= used.len(),
        !used[j],
    ensures
        kept_rows(existing, used.update(j, true), updates, n) == if j < n {
            kept_rows(existing, used, updates, n).insert(
                (opt_str(existing[j].1.unit), existing[j].1.label@, amount_after(existing[j].0, updates)),
            )
        } else {
            kept_rows(existing, used, updates, n)
        },
    decreases n,
{
    if n > 0 {
        lemma_kept_take(existing, used, updates, j, (n - 1) as nat);
        let v = (opt_str(existing[j].1.unit), existing[j].1.label@, amount_after(existing[j].0, updates));
        let i = n - 1;
        let vi = (opt_str(existing[i].1.unit), existing[i].1.label@, amount_after(existing[i].0, updates));
        let a = kept_rows(existing, used, updates, (n - 1) as nat);
        if j < n - 1 {
            if used[i] {
                assert(a.insert(v).insert(vi) =~= a.insert(vi).insert(v));
            }
        }
    }
}

proof fn lemma_kept_push_update(
    existing: Seq<(RecipeIngredient, Ingredient)>,
    used: Seq<bool>,
    updates: Seq<AmountUpdate>,
    u: AmountUpdate,
    n: nat,
)
    requires
        n <= used.len(),
        n <= existing.len(),
        forall|i: int| 0 <= i < n && #[trigger] used[i] ==> existing[i].0.id != u.id,
    ensures
        kept_rows(existing, used, updates.push(u), n) == kept_rows(existing, used, updates, n),
    decreases n,
{
    if n > 0 {
        lemma_kept_push_update(existing, used, updates, u, (n - 1) as nat);
        let i = n - 1;
        if used[i] {
            assert(updates.push(u).drop_last() =~= updates);
        }
    }
}

proof fn lemma_linked_keys_grow(
    links: Seq<PlannedLink>,
    available: Seq<Ingredient>,
    keys: Seq<(Option<Seq<char>>, Seq<char>)>,
    keys2: Seq<(Option<Seq<char>>, Seq<char>)>,
    n: nat,
)
    requires
        n <= links.len(),
        keys.len() <= keys2.len(),
        forall|c: int| 0 <= c < keys.len() ==> keys2[c] == keys[c],
        forall|x: int| 0 <= x < n ==> link_key(#[trigger] links[x], available, keys) is Some,
    ensures
        linked_rows(links, available, keys2, n) == linked_rows(links, available, keys, n),
        forall|x: int| 0 <= x < n ==> link_key(#[trigger] links[x], available, keys2) == link_key(links[x], available, keys),
    decreases n,
{
    if n > 0 {
        lemma_linked_keys_grow(links, available, keys, keys2, (n - 1) as nat);
        assert(link_key(links[n - 1], available, keys2) == link_key(links[n - 1], available, keys));
    }
}

proof fn lemma_linked_prefix(
    links: Seq<PlannedLink>,
    l: PlannedLink,
    available: Seq<Ingredient>,
    keys: Seq<(Option<Seq<char>>, Seq<char>)>,
    n: nat,
)
    requires
        n <= links.len(),
    ensures
        linked_rows(links.push(l), available, keys, n) == linked_rows(links, available, keys, n),
    decreases n,
{
    if n > 0 {
        lemma_linked_prefix(links, l, available, keys, (n - 1) as nat);
        assert(links.push(l)[n - 1] == links[n - 1]);
    }
}

proof fn lemma_master_with_id(masters: Seq<Ingredient>, m: int, j: int)
    requires
        0 <= j <= m < masters.len(),
        forall|a: int, b: int| 0 <= a < b < masters.len() ==> masters[a].id != masters[b].id,
    ensures
        master_with_id(masters, masters[m].id, j) == Some(m),
    decreases m - j,
{
    if j < m {
        lemma_master_with_id(masters, m, j + 1);
    }
}

/// Matching invariant: kept rows and new join rows together are the
/// requested entries so far; every update is for a kept row; every link
/// points at a known master row.
pub open spec fn accounts_for(
    existing: Seq<(RecipeIngredient, Ingredient)>,
    available: Seq<Ingredient>,
    requested: Seq<IngredientDTO>,
    st: IngredientState,
    n: nat,
) -> bool {
    let (used, updates, keys, links) = st;
    &&& used.len() == existing.len()
    &&& keys.len() <= n
    &&& kept_rows(existing, used, updates, existing.len()).add(linked_rows(links, available, keys, links.len()))
        == requested_rows(requested, n)
    &&& forall|x: int|
        0 <= x < updates.len() ==> exists|j: int|
            0 <= j < existing.len() && used[j] && #[trigger] updates[x].id == existing[j].0.id
    &&& forall|x: int| 0 <= x < links.len() ==> link_key(#[trigger] links[x], available, keys) is Some
}

proof fn lemma_accounts_for(
    existing: Seq<(RecipeIngredient, Ingredient)>,
    available: Seq<Ingredient>,
    requested: Seq<IngredientDTO>,
    n: nat,
)
    requires
        n <= requested.len() <= usize::MAX,
        forall|a: int, b: int| 0 <= a < b < existing.len() ==> existing[a].0.id != existing[b].0.id,
        forall|a: int, b: int| 0 <= a < b < available.len() ==> available[a].id != available[b].id,
    ensures
        accounts_for(existing, available, requested, ingredient_state(existing, available, requested, n), n),
    decreases n,
{
    let st = ingredient_state(existing, available, requested, n);
    if n == 0 {
        let (used, updates, keys, links) = st;
        assert(kept_rows(existing, used, updates, existing.len()) =~= Multiset::empty()) by {
            lemma_nothing_kept(existing, used, updates, existing.len());
        }
        assert(kept_rows(existing, used, updates, existing.len()).add(linked_rows(links, available, keys, 0))
            =~= Multiset::empty());
    } else {
        lemma_accounts_for(existing, available, requested, (n - 1) as nat);
        let prev = ingredient_state(existing, available, requested, (n - 1) as nat);
        let (used, updates, keys, links) = prev;
        let d = requested[n - 1];
        let k = dto_key(d);
        let ev = entry_view(d);
        assert(st == ingredient_step(existing, available, prev, d));
        let (used2, updates2, keys2, links2) = st;
        let kept = kept_rows(existing, used, updates, existing.len());
        let linked = linked_rows(links, available, keys, links.len());
        let req = requested_rows(requested, (n - 1) as nat);
        assert(requested_rows(requested, n) == req.insert(ev));
        lemma_free_row_in_bounds(existing, used, d, true, 0);
        lemma_free_row_in_bounds(existing, used, d, false, 0);
        lemma_free_row_found(existing, used, d, true, 0);
        lemma_free_row_found(existing, used, d, false, 0);
        match first_free_row(existing, used, d, true, 0) {
            Some(j) => {
                assert forall|x: int| 0 <= x < updates.len() implies (#[trigger] updates[x]).id != existing[j].0.id by {
                    let i = choose|i: int| 0 <= i < existing.len() && used[i] && updates[x].id == existing[i].0.id;
                    assert(i != j);
                }
                lemma_amount_untouched(existing[j].0, updates);
                lemma_kept_take(existing, used, updates, j, existing.len());
                assert(kept.insert(ev).add(linked) =~= kept.add(linked).insert(ev));
                assert forall|x: int| 0 <= x < updates2.len() implies exists|i: int|
                    0 <= i < existing.len() && used2[i] && #[trigger] updates2[x].id == existing[i].0.id by {
                    let i = choose|i: int| 0 <= i < existing.len() && used[i] && updates[x].id == existing[i].0.id;
                    assert(used2[i]);
                }
            },
            None => match first_free_row(existing, used, d, false, 0) {
                Some(j) => {
                    let u = AmountUpdate { id: existing[j].0.id, amount: d.amount };
                    assert forall|i: int| 0 <= i < existing.len() && #[trigger] used[i] implies existing[i].0.id != u.id by {
                        assert(i != j);
                    }
                    lemma_kept_push_update(existing, used, updates, u, existing.len());
                    lemma_kept_take(existing, used, updates.push(u), j, existing.len());
                    assert(updates.push(u).last() == u);
                    assert(amount_after(existing[j].0, updates.push(u)) == d.amount);
                    assert(kept.insert(ev).add(linked) =~= kept.add(linked).insert(ev));
                    assert forall|x: int| 0 <= x < updates2.len() implies exists|i: int|
                        0 <= i < existing.len() && used2[i] && #[trigger] updates2[x].id == existing[i].0.id by {
                        if x < updates.len() {
                            assert(updates2[x] == updates[x]);
                            let i = choose|i: int| 0 <= i < existing.len() && used[i] && updates[x].id == existing[i].0.id;
                            assert(used2[i]);
                        } else {
                            assert(used2[j]);
                        }
                    }
                },
                None => {
                    lemma_first_master_found(available, k, 0);
                    lemma_key_pos_found(keys, k, 0);
                    let l = links2.last();
                    assert(links2 == links.push(l));
                    lemma_linked_keys_grow(links, available, keys, keys2, links.len());
                    lemma_linked_prefix(links, l, available, keys2, links.len());
                    match first_master(available, k, 0) {
                        Some(m) => {
                            lemma_master_with_id(available, m, 0);
                        },
                        None => {},
                    }
                    assert(link_key(l, available, keys2) == Some(k));
                    assert(linked_rows(links2, available, keys2, links2.len()) == linked.insert(ev));
                    assert(kept.add(linked.insert(ev)) =~= kept.add(linked).insert(ev));
                    assert forall|x: int| 0 <= x < links2.len() implies link_key(#[trigger] links2[x], available, keys2) is Some by {
                        if x < links.len() {
                            assert(links2[x] == links[x]);
                        }
                    }
                },
            },
        }
    }
}

proof fn lemma_nothing_kept(
    existing: Seq<(RecipeIngredient, Ingredient)>,
    used: Seq<bool>,
    updates: Seq<AmountUpdate>,
    n: nat,
)
    requires
        n <= used.len(),
        forall|i: int| 0 <= i < used.len() ==> !used[i],
    ensures
        kept_rows(existing, used, updates, n) =~= Multiset::empty(),
    decreases n,
{
    if n > 0 {
        lemma_nothing_kept(existing, used, updates, (n - 1) as nat);
    }
}

proof fn lemma_free_row_found(
    existing: Seq<(RecipeIngredient, Ingredient)>,
    used: Seq<bool>,
    d: IngredientDTO,
    exact: bool,
    j: int,
)
    requires
        0 <= j,
    ensures
        first_free_row(existing, used, d, exact, j) matches Some(p) ==> !used[p] && master_key(existing[p].1)
            == dto_key(d) && (exact ==> existing[p].0.amount == d.amount),
    decreases existing.len() - j,
{
    if j < existing.len() {
        lemma_free_row_found(existing, used, d, exact, j + 1);
    }
}

/// What a plan keeps, updates and adds is exactly what was requested: the
/// existing join rows it keeps (with their amounts after its updates)
/// together with the join rows it inserts (with the key of the master row
/// each points at) make up the requested entries, as a multiset. Join row
/// ids and master row ids are distinct, as the store keeps them.
pub proof fn ingredient_plan_matches_request(
    existing: Seq<(RecipeIngredient, Ingredient)>,
    available: Seq<Ingredient>,
    requested: Seq<IngredientDTO>,
)
    requires
        requested.len() <= usize::MAX,
        forall|a: int, b: int| 0 <= a < b < existing.len() ==> existing[a].0.id != existing[b].0.id,
        forall|a: int, b: int| 0 <= a < b < available.len() ==> available[a].id != available[b].id,
    ensures
        ({
            let (used, updates, keys, links) = ingredient_outcome(existing, available, requested);
            &&& kept_rows(existing, used, updates, existing.len()).add(linked_rows(links, available, keys, links.len()))
                == requested_rows(requested, requested.len())
            &&& forall|x: int| 0 <= x < links.len() ==> link_key(#[trigger] links[x], available, keys) is Some
        }),
{
    lemma_accounts_for(existing, available, requested, requested.len());
}

} // verus!
