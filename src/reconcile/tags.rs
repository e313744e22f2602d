use vstd::prelude::*;
use crate::models::{RecipeTag, Tag, TagDTO, TagPostDTO};

verus! {

/// The slug that `slug::slugify` derives from a label.
pub uninterp spec fn slug_of(label: Seq<char>) -> Seq<char>;

/// Relies on `slug::slugify`: the slug is a function of the label alone.
#[verifier::external_body]
fn slugify(label: &String) -> (r: String)
    ensures
        r@ == slug_of(label@),
{
    slug::slugify(label)
}

impl TagDTO {
    /// A new tag for a label, with the slug derived from it.
    pub fn from_post(t: TagPostDTO) -> (r: TagDTO)
        ensures
            r.label@ == t.label@,
            r.slug@ == slug_of(t.label@),
    {
        let slug = slugify(&t.label);
        TagDTO { label: t.label, slug }
    }

    /// The client view of a tag row.
    pub fn from_tag(t: Tag) -> (r: TagDTO)
        ensures
            r.label@ == t.label@,
            r.slug@ == t.slug@,
    {
        TagDTO { label: t.label, slug: t.slug }
    }
}

/// Where a planned recipe/tag row points: a tag that exists already, or the
/// tag at this index of the plan's `new_tags`.
#[derive(PartialEq, Eq, Structural, Clone, Copy, Debug)]
pub enum TagRef {
    Existing(i32),
    Created(usize),
}

/// The writes that bring a recipe's tags to a requested list of labels.
pub struct TagPlan {
    /// Tags to detach from the recipe, by tag id.
    pub deletes: Vec<i32>,
    /// Tags to create, one per new label.
    pub new_tags: Vec<TagDTO>,
    /// Tags to attach to the recipe, in request order.
    pub links: Vec<TagRef>,
}

/// Tag matching state: which of the recipe's tags are kept, the labels of
/// tags to create, the tags to attach.
pub type TagState = (Seq<bool>, Seq<Seq<char>>, Seq<TagRef>);

/// First tag from `j` on with the label that nothing has taken.
pub open spec fn first_free_tag(tags: Seq<Tag>, used: Seq<bool>, label: Seq<char>, j: int) -> Option<int>
    decreases tags.len() - j,
{
    if j < 0 || j >= tags.len() {
        None
    } else if !used[j] && tags[j].label@ == label {
        Some(j)
    } else {
        first_free_tag(tags, used, label, j + 1)
    }
}

/// First tag from `j` on with the label.
pub open spec fn first_tag(tags: Seq<Tag>, label: Seq<char>, j: int) -> Option<int>
    decreases tags.len() - j,
{
    if j < 0 || j >= tags.len() {
        None
    } else if tags[j].label@ == label {
        Some(j)
    } else {
        first_tag(tags, label, j + 1)
    }
}

/// Whether the label at position `i` of the request came earlier in it.
pub open spec fn repeated_label(requested: Seq<String>, i: int) -> bool {
    exists|j: int| 0 <= j < i && requested[j]@ == requested[i]@
}

/// One requested label. A label that came earlier in the request is
/// skipped. Else it keeps a tag the recipe has; else the recipe is linked to
/// the existing tag with the label; else a tag is created for it.
pub open spec fn tag_step(
    existing: Seq<Tag>,
    available: Seq<Tag>,
    st: TagState,
    label: Seq<char>,
    repeated: bool,
) -> TagState {
    let (used, new_labels, links) = st;
    if repeated {
        st
    } else {
        match first_free_tag(existing, used, label, 0) {
            Some(j) => (used.update(j, true), new_labels, links),
            None => match first_tag(available, label, 0) {
                Some(m) => (used, new_labels, links.push(TagRef::Existing(available[m].id))),
                None => (used, new_labels.push(label), links.push(TagRef::Created(new_labels.len() as usize))),
            },
        }
    }
}

/// The matching state after the first `n` requested labels.
pub open spec fn tag_state(existing: Seq<Tag>, available: Seq<Tag>, requested: Seq<String>, n: nat) -> TagState
    decreases n,
{
    if n == 0 || n > requested.len() {
        (Seq::new(existing.len(), |i: int| false), Seq::empty(), Seq::empty())
    } else {
        tag_step(
            existing,
            available,
            tag_state(existing, available, requested, (n - 1) as nat),
            requested[n - 1]@,
            repeated_label(requested, n - 1),
        )
    }
}

/// Ids of the first `n` tags of the recipe that no requested label kept.
pub open spec fn untaken_tag_ids(existing: Seq<Tag>, used: Seq<bool>, n: nat) -> Seq<i32>
    decreases n,
{
    if n == 0 {
        Seq::empty()
    } else if !used[n - 1] {
        untaken_tag_ids(existing, used, (n - 1) as nat).push(existing[n - 1].id)
    } else {
        untaken_tag_ids(existing, used, (n - 1) as nat)
    }
}

/// Whether `plan` is the plan for the request: tags that no label kept are
/// detached, new tags carry the slug of their label, and the rest is the
/// final matching state.
pub open spec fn is_tag_plan(plan: TagPlan, existing: Seq<Tag>, available: Seq<Tag>, requested: Seq<String>) -> bool {
    let (used, new_labels, links) = tag_state(existing, available, requested, requested.len());
    &&& plan.deletes@ == untaken_tag_ids(existing, used, existing.len())
    &&& plan.new_tags@.map_values(|t: TagDTO| t.label@) == new_labels
    &&& forall|k: int| 0 <= k < plan.new_tags.len() ==> (#[trigger] plan.new_tags@[k]).slug@ == slug_of(plan.new_tags@[k].label@)
    &&& plan.links@ == links
}

fn find_free_tag(tags: &Vec<Tag>, used: &Vec<bool>, label: &String) -> (r: Option<usize>)
    requires
        used.len() == tags.len(),
    ensures
        match r {
            Some(j) => j < tags.len() && first_free_tag(tags@, used@, label@, 0) == Some(j as int),
            None => first_free_tag(tags@, used@, label@, 0) is None,
        },
{
    let mut j: usize = 0;
    while j < tags.len()
        invariant
            j <= tags.len(),
            used.len() == tags.len(),
            first_free_tag(tags@, used@, label@, 0) == first_free_tag(tags@, used@, label@, j as int),
        decreases tags.len() - j,
    {
        if !used[j] && tags[j].label.eq(label) {
            return Some(j);
        }
        j = j + 1;
    }
    None
}

fn find_tag(tags: &Vec<Tag>, label: &String) -> (r: Option<usize>)
    ensures
        match r {
            Some(j) => j < tags.len() && first_tag(tags@, label@, 0) == Some(j as int),
            None => first_tag(tags@, label@, 0) is None,
        },
{
    let mut j: usize = 0;
    while j < tags.len()
        invariant
            j <= tags.len(),
            first_tag(tags@, label@, 0) == first_tag(tags@, label@, j as int),
        decreases tags.len() - j,
    {
        if tags[j].label.eq(label) {
            return Some(j);
        }
        j = j + 1;
    }
    None
}

fn is_repeated(requested: &Vec<String>, i: usize) -> (r: bool)
    requires
        i < requested.len(),
    ensures
        r == repeated_label(requested@, i as int),
{
    let mut j: usize = 0;
    while j < i
        invariant
            j <= i < requested.len(),
            forall|x: int| 0 <= x < j ==> requested@[x]@ != requested@[i as int]@,
        decreases i - j,
    {
        if requested[j].eq(&requested[i]) {
            return true;
        }
        j = j + 1;
    }
    false
}

/// Plans the writes that turn a recipe's tags `existing` into the
/// `requested` labels, reusing the tags in `available`.
pub fn plan_tag_update(existing: &Vec<Tag>, available: &Vec<Tag>, requested: &Vec<String>) -> (r: TagPlan)
    ensures
        is_tag_plan(r, existing@, available@, requested@),
{
    let mut used: Vec<bool> = Vec::new();
    let mut j: usize = 0;
    while j < existing.len()
        invariant
            j <= existing.len(),
            used@ == Seq::new(j as nat, |i: int| false),
        decreases existing.len() - j,
    {
        used.push(false);
        j = j + 1;
        assert(used@ =~= Seq::new(j as nat, |i: int| false));
    }
    let mut new_tags: Vec<TagDTO> = Vec::new();
    let mut links: Vec<TagRef> = Vec::new();
    let mut i: usize = 0;
    assert((used@, new_tags@.map_values(|t: TagDTO| t.label@), links@) =~= tag_state(existing@, available@, requested@, 0));
    while i < requested.len()
        invariant
            i <= requested.len(),
            used.len() == existing.len(),
            (used@, new_tags@.map_values(|t: TagDTO| t.label@), links@) == tag_state(existing@, available@, requested@, i as nat),
            forall|k: int| 0 <= k < new_tags.len() ==> (#[trigger] new_tags@[k]).slug@ == slug_of(new_tags@[k].label@),
        decreases requested.len() - i,
    {
        let label = &requested[i];
        let ghost labels_before = new_tags@.map_values(|t: TagDTO| t.label@);
        if !is_repeated(requested, i) {
            match find_free_tag(existing, &used, label) {
                Some(j) => {
                    used.set(j, true);
                },
                None => match find_tag(available, label) {
                    Some(m) => {
                        links.push(TagRef::Existing(available[m].id));
                    },
                    None => {
                        let k = new_tags.len();
                        new_tags.push(TagDTO::from_post(TagPostDTO { label: label.clone() }));
                        links.push(TagRef::Created(k));
                        assert(new_tags@.map_values(|t: TagDTO| t.label@) =~= labels_before.push(label@));
                    },
                },
            }
        }
        i = i + 1;
    }
    let ghost used_final = used@;
    let mut deletes: Vec<i32> = Vec::new();
    let mut j: usize = 0;
    while j < existing.len()
        invariant
            j <= existing.len(),
            used@ == used_final,
            used.len() == existing.len(),
            deletes@ == untaken_tag_ids(existing@, used_final, j as nat),
        decreases existing.len() - j,
    {
        if !used[j] {
            deletes.push(existing[j].id);
        }
        j = j + 1;
    }
    TagPlan { deletes, new_tags, links }
}

/// The tag id a planned link resolves to, once the plan's new tags have
/// been created as `created`.
pub open spec fn tag_link_target(link: TagRef, new_labels: Seq<Seq<char>>, created: Seq<Tag>) -> Option<i32> {
    match link {
        TagRef::Existing(id) => Some(id),
        TagRef::Created(c) => if c < new_labels.len() {
            match first_tag(created, new_labels[c as int], 0) {
                Some(m) => Some(created[m].id),
                None => None,
            }
        } else {
            None
        },
    }
}

/// Turns the plan's links into recipe/tag rows for `recipe_id`, given the
/// tags created for `new_tags`, found by label. `None` when a link's tag is
/// missing from `created`.
pub fn resolve_tag_links(plan: &TagPlan, created: &Vec<Tag>, recipe_id: i32) -> (r: Option<Vec<RecipeTag>>)
    ensures
        ({
            let labels = plan.new_tags@.map_values(|t: TagDTO| t.label@);
            match r {
                Some(rows) => {
                    &&& rows.len() == plan.links.len()
                    &&& forall|k: int|
                        0 <= k < rows.len() ==> {
                            &&& tag_link_target(#[trigger] plan.links@[k], labels, created@) == Some(rows@[k].tag_id)
                            &&& rows@[k].recipe_id == recipe_id
                        }
                },
                None => exists|k: int|
                    0 <= k < plan.links.len() && tag_link_target(#[trigger] plan.links@[k], labels, created@) is None,
            }
        }),
{
    let ghost labels = plan.new_tags@.map_values(|t: TagDTO| t.label@);
    let mut rows: Vec<RecipeTag> = Vec::new();
    let mut k: usize = 0;
    while k < plan.links.len()
        invariant
            k <= plan.links.len(),
            labels == plan.new_tags@.map_values(|t: TagDTO| t.label@),
            rows.len() == k,
            forall|x: int|
                0 <= x < k ==> {
                    &&& tag_link_target(#[trigger] plan.links@[x], labels, created@) == Some(rows@[x].tag_id)
                    &&& rows@[x].recipe_id == recipe_id
                },
        decreases plan.links.len() - k,
    {
        let target: i32 = match plan.links[k] {
            TagRef::Existing(id) => id,
            TagRef::Created(c) => {
                if c >= plan.new_tags.len() {
                    return None;
                }
                match find_tag(created, &plan.new_tags[c].label) {
                    Some(m) => created[m].id,
                    None => {
                        return None;
                    },
                }
            },
        };
        rows.push(RecipeTag { recipe_id, tag_id: target });
        k = k + 1;
    }
    Some(rows)
}


/// Labels of the first `n` existing tags that are kept.
pub open spec fn kept_labels(existing: Seq<Tag>, used: Seq<bool>, n: nat) -> Set<Seq<char>>
    decreases n,
{
    if n == 0 {
        Set::empty()
    } else if used[n - 1] {
        kept_labels(existing, used, (n - 1) as nat).insert(existing[n - 1].label@)
    } else {
        kept_labels(existing, used, (n - 1) as nat)
    }
}

/// First tag from `j` on with the given id.
pub open spec fn tag_with_id(tags: Seq<Tag>, id: i32, j: int) -> Option<int>
    decreases tags.len() - j,
{
    if j < 0 || j >= tags.len() {
        None
    } else if tags[j].id == id {
        Some(j)
    } else {
        tag_with_id(tags, id, j + 1)
    }
}

/// The label of the tag a link points at.
pub open spec fn link_label(link: TagRef, available: Seq<Tag>, new_labels: Seq<Seq<char>>) -> Option<Seq<char>> {
    match link {
        TagRef::Existing(id) => match tag_with_id(available, id, 0) {
            Some(m) => Some(available[m].label@),
            None => None,
        },
        TagRef::Created(c) => if c < new_labels.len() { Some(new_labels[c as int]) } else { None },
    }
}

/// Labels of the first `n` tags to attach.
pub open spec fn linked_labels(links: Seq<TagRef>, available: Seq<Tag>, new_labels: Seq<Seq<char>>, n: nat) -> Set<
    Seq<char>,
>
    decreases n,
{
    if n == 0 {
        Set::empty()
    } else {
        linked_labels(links, available, new_labels, (n - 1) as nat).insert(
            link_label(links[n - 1], available, new_labels)->0,
        )
    }
}

/// The first `n` requested labels.
pub open spec fn requested_labels(requested: Seq<String>, n: nat) -> Set<Seq<char>>
    decreases n,
{
    if n == 0 {
        Set::empty()
    } else {
        requested_labels(requested, (n - 1) as nat).insert(requested[n - 1]@)
    }
}

proof fn lemma_requested_label_in(requested: Seq<String>, n: nat, j: int)
    requires
        0 <= j < n <= requested.len(),
    ensures
        requested_labels(requested, n).contains(requested[j]@),
    decreases n,
{
    if j < n - 1 {
        lemma_requested_label_in(requested, (n - 1) as nat, j);
    }
}

proof fn lemma_kept_label_take(existing: Seq<Tag>, used: Seq<bool>, j: int, n: nat)
    requires
        0 <= j < used.len(),
        n <= used.len(),
    ensures
        kept_labels(existing, used.update(j, true), n) == if j < n {
            kept_labels(existing, used, n).insert(existing[j].label@)
        } else {
            kept_labels(existing, used, n)
        },
    decreases n,
{
    if n > 0 {
        lemma_kept_label_take(existing, used, j, (n - 1) as nat);
        let a = kept_labels(existing, used, (n - 1) as nat);
        if j < n - 1 && used[n - 1] {
            assert(a.insert(existing[j].label@).insert(existing[n - 1].label@) =~= a.insert(existing[n - 1].label@).insert(
                existing[j].label@,
            ));
        }
        if j == n - 1 && used[n - 1] {
            assert(a.insert(existing[j].label@).insert(existing[j].label@) =~= a.insert(existing[j].label@));
        }
    }
}

proof fn lemma_linked_labels_grow(
    links: Seq<TagRef>,
    available: Seq<Tag>,
    labels: Seq<Seq<char>>,
    labels2: Seq<Seq<char>>,
    n: nat,
)
    requires
        n <= links.len(),
        labels.len() <= labels2.len(),
        forall|c: int| 0 <= c < labels.len() ==> labels2[c] == labels[c],
        forall|x: int| 0 <= x < n ==> link_label(#[trigger] links[x], available, labels) is Some,
    ensures
        linked_labels(links, available, labels2, n) == linked_labels(links, available, labels, n),
        forall|x: int| 0 <= x < n ==> link_label(#[trigger] links[x], available, labels2) == link_label(links[x], available, labels),
    decreases n,
{
    if n > 0 {
        lemma_linked_labels_grow(links, available, labels, labels2, (n - 1) as nat);
        assert(link_label(links[n - 1], available, labels2) == link_label(links[n - 1], available, labels));
    }
}

proof fn lemma_linked_labels_prefix(links: Seq<TagRef>, l: TagRef, available: Seq<Tag>, labels: Seq<Seq<char>>, n: nat)
    requires
        n <= links.len(),
    ensures
        linked_labels(links.push(l), available, labels, n) == linked_labels(links, available, labels, n),
    decreases n,
{
    if n > 0 {
        lemma_linked_labels_prefix(links, l, available, labels, (n - 1) as nat);
        assert(links.push(l)[n - 1] == links[n - 1]);
    }
}

proof fn lemma_tag_with_id(tags: Seq<Tag>, m: int, j: int)
    requires
        0 <= j <= m < tags.len(),
        forall|a: int, b: int| 0 <= a < b < tags.len() ==> tags[a].id != tags[b].id,
    ensures
        tag_with_id(tags, tags[m].id, j) == Some(m),
    decreases m - j,
{
    if j < m {
        lemma_tag_with_id(tags, m, j + 1);
    }
}

proof fn lemma_tag_found(tags: Seq<Tag>, used: Seq<bool>, label: Seq<char>, j: int)
    requires
        0 <= j,
    ensures
        first_free_tag(tags, used, label, j) matches Some(p) ==> j <= p < tags.len() && tags[p].label@ == label,
        first_tag(tags, label, j) matches Some(p) ==> j <= p < tags.len() && tags[p].label@ == label,
    decreases tags.len() - j,
{
    if j < tags.len() {
        lemma_tag_found(tags, used, label, j + 1);
    }
}

proof fn lemma_nothing_kept(existing: Seq<Tag>, used: Seq<bool>, n: nat)
    requires
        n <= used.len(),
        forall|i: int| 0 <= i < used.len() ==> !used[i],
    ensures
        kept_labels(existing, used, n) =~= Set::empty(),
    decreases n,
{
    if n > 0 {
        lemma_nothing_kept(existing, used, (n - 1) as nat);
    }
}

proof fn lemma_tag_labels(existing: Seq<Tag>, available: Seq<Tag>, requested: Seq<String>, n: nat)
    requires
        n <= requested.len() <= usize::MAX,
        forall|a: int, b: int| 0 <= a < b < available.len() ==> available[a].id != available[b].id,
    ensures
        ({
            let (used, labels, links) = tag_state(existing, available, requested, n);
            &&& used.len() == existing.len()
            &&& labels.len() <= n
            &&& kept_labels(existing, used, existing.len()) + linked_labels(links, available, labels, links.len())
                == requested_labels(requested, n)
            &&& forall|x: int| 0 <= x < links.len() ==> link_label(#[trigger] links[x], available, labels) is Some
        }),
    decreases n,
{
    let st = tag_state(existing, available, requested, n);
    if n == 0 {
        let (used, labels, links) = st;
        lemma_nothing_kept(existing, used, existing.len());
        assert(kept_labels(existing, used, existing.len()) + linked_labels(links, available, labels, 0) =~= Set::empty());
    } else {
        lemma_tag_labels(existing, available, requested, (n - 1) as nat);
        let prev = tag_state(existing, available, requested, (n - 1) as nat);
        let (used, labels, links) = prev;
        let label = requested[n - 1]@;
        let rep = repeated_label(requested, n - 1);
        assert(st == tag_step(existing, available, prev, label, rep));
        let (used2, labels2, links2) = st;
        let kept = kept_labels(existing, used, existing.len());
        let linked = linked_labels(links, available, labels, links.len());
        let req = requested_labels(requested, (n - 1) as nat);
        assert(requested_labels(requested, n) == req.insert(label));
        if rep {
            let j = choose|j: int| 0 <= j < n - 1 && (#[trigger] requested[j])@ == requested[n - 1]@;
            lemma_requested_label_in(requested, (n - 1) as nat, j);
            assert(req.insert(label) =~= req);
        } else {
            lemma_tag_found(existing, used, label, 0);
            lemma_tag_found(available, used, label, 0);
            match first_free_tag(existing, used, label, 0) {
                Some(j) => {
                    lemma_kept_label_take(existing, used, j, existing.len());
                    assert(kept.insert(label) + linked =~= (kept + linked).insert(label));
                },
                None => {
                    let l = links2.last();
                    assert(links2 == links.push(l));
                    lemma_linked_labels_grow(links, available, labels, labels2, links.len());
                    lemma_linked_labels_prefix(links, l, available, labels2, links.len());
                    match first_tag(available, label, 0) {
                        Some(m) => {
                            lemma_tag_with_id(available, m, 0);
                        },
                        None => {},
                    }
                    assert(link_label(l, available, labels2) == Some(label));
                    assert(kept + linked.insert(label) =~= (kept + linked).insert(label));
                    assert forall|x: int| 0 <= x < links2.len() implies link_label(#[trigger] links2[x], available, labels2) is Some by {
                        if x < links.len() {
                            assert(links2[x] == links[x]);
                        }
                    }
                },
            }
        }
    }
}

/// What a tag plan keeps and attaches is exactly what was requested: the
/// labels of the recipe's tags it keeps together with the labels of the
/// tags it attaches are the set of requested labels. Tag ids are distinct,
/// as the store keeps them.
pub proof fn tag_plan_matches_request(existing: Seq<Tag>, available: Seq<Tag>, requested: Seq<String>)
    requires
        requested.len() <= usize::MAX,
        forall|a: int, b: int| 0 <= a < b < available.len() ==> available[a].id != available[b].id,
    ensures
        ({
            let (used, labels, links) = tag_state(existing, available, requested, requested.len());
            &&& kept_labels(existing, used, existing.len()) + linked_labels(links, available, labels, links.len())
                == requested_labels(requested, requested.len())
            &&& forall|x: int| 0 <= x < links.len() ==> link_label(#[trigger] links[x], available, labels) is Some
        }),
{
    lemma_tag_labels(existing, available, requested, requested.len());
}

} // verus!
