use vstd::prelude::*;
use crate::models::Tag;
use crate::responses::{text, RecipeResponse, Status};

verus! {

/// What toggling a join row does.
#[derive(PartialEq, Eq, Structural, Clone, Copy, Debug)]
pub enum ToggleAction {
    Add,
    Remove,
}

/// Result of looking a join row up.
#[derive(PartialEq, Eq, Structural, Clone, Copy, Debug)]
pub enum Lookup {
    Found,
    Missing,
    Failed,
}

/// A present row is removed, an absent one added.
pub open spec fn action_for(present: bool) -> ToggleAction {
    if present { ToggleAction::Remove } else { ToggleAction::Add }
}

/// The join rows after a toggle action on `key`.
pub open spec fn apply_toggle(rows: Set<(i32, i32)>, key: (i32, i32), action: ToggleAction) -> Set<(i32, i32)> {
    match action {
        ToggleAction::Add => rows.insert(key),
        ToggleAction::Remove => rows.remove(key),
    }
}

/// The action for a row that is present or not.
pub fn toggle_action(present: bool) -> (r: ToggleAction)
    ensures
        r == action_for(present),
{
    if present { ToggleAction::Remove } else { ToggleAction::Add }
}

/// The bookmark toggle decision for a reader and the lookup of the
/// (recipe, user) bookmark: an anonymous reader gets 401, a failed lookup
/// 500, otherwise the bookmark is removed if found and added if missing.
pub fn toggle_bookmark(user_id: Option<i32>, lookup: Lookup) -> (r: Result<ToggleAction, RecipeResponse<bool>>)
    ensures
        user_id is None ==> r matches Err(RecipeResponse::Unauthorized(_)),
        user_id is Some ==> match lookup {
            Lookup::Found => r == Ok::<ToggleAction, RecipeResponse<bool>>(ToggleAction::Remove),
            Lookup::Missing => r == Ok::<ToggleAction, RecipeResponse<bool>>(ToggleAction::Add),
            Lookup::Failed => r matches Err(RecipeResponse::InternalServerError(_)),
        },
{
    match user_id {
        None => Err(RecipeResponse::Unauthorized(text("Please log in to edit your bookmarks."))),
        Some(_) => match lookup {
            Lookup::Found => Ok(toggle_action(true)),
            Lookup::Missing => Ok(toggle_action(false)),
            Lookup::Failed => Err(RecipeResponse::InternalServerError(text("Error finding bookmark."))),
        },
    }
}

/// The answer once the toggle was written: the bookmarked state after it,
/// or 500 when the write failed.
pub fn bookmark_toggled(action: ToggleAction, written: bool) -> (r: RecipeResponse<bool>)
    ensures
        written ==> r == RecipeResponse::Success(action == ToggleAction::Add),
        !written ==> r is InternalServerError,
{
    if !written {
        return match action {
            ToggleAction::Add => RecipeResponse::InternalServerError(text("Error adding bookmark.")),
            ToggleAction::Remove => RecipeResponse::InternalServerError(text("Error removing bookmark.")),
        };
    }
    RecipeResponse::Success(action == ToggleAction::Add)
}

/// Toggling a bookmark twice on the same (recipe, user) restores the
/// bookmarks, and the two answers are the flipped and then the starting
/// state.
pub proof fn bookmark_toggle_twice(rows: Set<(i32, i32)>, key: (i32, i32))
    ensures
        ({
            let first = action_for(rows.contains(key));
            let after_first = apply_toggle(rows, key, first);
            let second = action_for(after_first.contains(key));
            let after_second = apply_toggle(after_first, key, second);
            &&& after_second == rows
            &&& (first == ToggleAction::Add) == !rows.contains(key)
            &&& (second == ToggleAction::Add) == rows.contains(key)
            &&& after_first.contains(key) == (first == ToggleAction::Add)
        }),
{
    if rows.contains(key) {
        assert(rows.remove(key).insert(key) =~= rows);
    } else {
        assert(rows.insert(key).remove(key) =~= rows);
    }
}

/// The tag toggle decision: an unknown slug is 404, a failed lookup of the
/// recipe/tag row 500; otherwise the row of the tag is removed if found and
/// added if missing.
pub fn toggle_tag(tag: Option<&Tag>, lookup: Lookup) -> (r: Result<(i32, ToggleAction), Status>)
    ensures
        match tag {
            None => r == Err::<(i32, ToggleAction), Status>(Status::NotFound),
            Some(t) => match lookup {
                Lookup::Found => r == Ok::<(i32, ToggleAction), Status>((t.id, ToggleAction::Remove)),
                Lookup::Missing => r == Ok::<(i32, ToggleAction), Status>((t.id, ToggleAction::Add)),
                Lookup::Failed => r == Err::<(i32, ToggleAction), Status>(Status::InternalServerError),
            },
        },
{
    match tag {
        None => Err(Status::NotFound),
        Some(t) => match lookup {
            Lookup::Found => Ok((t.id, toggle_action(true))),
            Lookup::Missing => Ok((t.id, toggle_action(false))),
            Lookup::Failed => Err(Status::InternalServerError),
        },
    }
}

/// The reader of a bookmark list: only a logged-in user has one.
pub fn bookmarked_list(user_id: Option<i32>) -> (r: Result<i32, RecipeResponse<()>>)
    ensures
        match user_id {
            Some(u) => r == Ok::<i32, RecipeResponse<()>>(u),
            None => r matches Err(RecipeResponse::Unauthorized(_)),
        },
{
    match user_id {
        Some(u) => Ok(u),
        None => Err(RecipeResponse::Unauthorized(text("Please log in to see your bookmarked recipes."))),
    }
}

} // verus!
