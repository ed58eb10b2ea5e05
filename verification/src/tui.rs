//! Decision logic of the interactive show and delete flows.
//!
//! The terminal work — printing, prompting, selecting — is I/O and
//! lives outside the library. These functions are the flows' decisions
//! alone: from the item count, the command-line flags and the user's
//! answers, they say which interaction comes next, so a runner only
//! performs what it is told.

use vstd::prelude::*;

verus! {

/// What a show flow does next.
#[derive(Clone, Copy, Debug, PartialEq, Eq, Structural)]
pub enum ShowStep {
    /// Tell the user there is nothing to show.
    InformEmpty,
    /// Show the one relevant item.
    ShowSingle,
    /// Ask the user to select items to show.
    AskSelection,
    /// Tell the user nothing was selected.
    InformNoneSelected,
    /// Show the selected items.
    ShowMultiple,
}

/// First decision of the show flow: nothing to show when there are no
/// items; one item is shown when the command line names one, when the
/// terminal cannot prompt, or when only one exists; otherwise the user
/// selects.
pub fn show_plan(item_count: usize, has_cmd_arg_item: bool, can_ask: bool) -> (r: ShowStep)
    ensures
        item_count == 0 ==> r == ShowStep::InformEmpty,
        item_count > 0 && (has_cmd_arg_item || !can_ask) ==> r == ShowStep::ShowSingle,
        item_count == 1 && !has_cmd_arg_item && can_ask ==> r == ShowStep::ShowSingle,
        item_count > 1 && !has_cmd_arg_item && can_ask ==> r == ShowStep::AskSelection,
{
    if item_count == 0 {
        ShowStep::InformEmpty
    } else if has_cmd_arg_item || !can_ask {
        ShowStep::ShowSingle
    } else if item_count == 1 {
        ShowStep::ShowSingle
    } else {
        ShowStep::AskSelection
    }
}

/// Second decision of the show flow, once the user has selected.
pub fn show_after_selection(selected_count: usize) -> (r: ShowStep)
    ensures
        selected_count == 0 ==> r == ShowStep::InformNoneSelected,
        selected_count == 1 ==> r == ShowStep::ShowSingle,
        selected_count > 1 ==> r == ShowStep::ShowMultiple,
{
    if selected_count == 0 {
        ShowStep::InformNoneSelected
    } else if selected_count == 1 {
        ShowStep::ShowSingle
    } else {
        ShowStep::ShowMultiple
    }
}

/// What a delete flow does next.
#[derive(Clone, Copy, Debug, PartialEq, Eq, Structural)]
pub enum DeleteStep {
    /// Tell the user there is nothing to delete.
    InformEmpty,
    /// Ask whether really everything should be deleted.
    ConfirmAll,
    /// Delete every item.
    DeleteAll,
    /// Delete the one relevant item, no confirmation owed.
    DeleteSingle,
    /// Ask for confirmation before deleting the one item.
    ConfirmSingle,
    /// Ask the user to select items to delete.
    AskSelection,
    /// Tell the user nothing was selected.
    InformNoneSelected,
    /// Ask for confirmation before deleting the selected items.
    ConfirmMultiple,
    /// Delete the selected items.
    DeleteMultiple,
    /// Nothing further: the user declined.
    Done,
}

/// The delete flow once deleting everything is off the table: one item
/// is deleted outright when the command line names one or the terminal
/// cannot prompt; a single existing item asks for confirmation first;
/// more than one item asks for a selection.
pub fn delete_plan_without_all(item_count: usize, has_cmd_arg_item: bool, can_ask: bool) -> (r:
    DeleteStep)
    ensures
        item_count == 0 ==> r == DeleteStep::InformEmpty,
        item_count > 0 && (has_cmd_arg_item || !can_ask) ==> r == DeleteStep::DeleteSingle,
        item_count == 1 && !has_cmd_arg_item && can_ask ==> r == DeleteStep::ConfirmSingle,
        item_count > 1 && !has_cmd_arg_item && can_ask ==> r == DeleteStep::AskSelection,
{
    if item_count == 0 {
        DeleteStep::InformEmpty
    } else if has_cmd_arg_item || !can_ask {
        DeleteStep::DeleteSingle
    } else if item_count == 1 {
        DeleteStep::ConfirmSingle
    } else {
        DeleteStep::AskSelection
    }
}

/// First decision of the delete flow: nothing to delete when there are
/// no items; the delete-everything flag asks for confirmation first;
/// otherwise the flow continues without it.
pub fn delete_plan(item_count: usize, delete_all: bool, has_cmd_arg_item: bool, can_ask: bool) -> (
    r: DeleteStep)
    ensures
        item_count == 0 ==> r == DeleteStep::InformEmpty,
        item_count > 0 && delete_all ==> r == DeleteStep::ConfirmAll,
        item_count > 0 && !delete_all && (has_cmd_arg_item || !can_ask) ==> r
            == DeleteStep::DeleteSingle,
        item_count == 1 && !delete_all && !has_cmd_arg_item && can_ask ==> r
            == DeleteStep::ConfirmSingle,
        item_count > 1 && !delete_all && !has_cmd_arg_item && can_ask ==> r
            == DeleteStep::AskSelection,
{
    if item_count == 0 {
        DeleteStep::InformEmpty
    } else if delete_all {
        DeleteStep::ConfirmAll
    } else {
        delete_plan_without_all(item_count, has_cmd_arg_item, can_ask)
    }
}

/// After the delete-everything confirmation: yes deletes everything;
/// no falls back to the ordinary flow rather than aborting.
pub fn delete_after_confirm_all(
    confirmed: bool,
    item_count: usize,
    has_cmd_arg_item: bool,
    can_ask: bool,
) -> (r: DeleteStep)
    ensures
        confirmed ==> r == DeleteStep::DeleteAll,
        !confirmed && item_count == 0 ==> r == DeleteStep::InformEmpty,
        !confirmed && item_count > 0 && (has_cmd_arg_item || !can_ask) ==> r
            == DeleteStep::DeleteSingle,
        !confirmed && item_count == 1 && !has_cmd_arg_item && can_ask ==> r
            == DeleteStep::ConfirmSingle,
        !confirmed && item_count > 1 && !has_cmd_arg_item && can_ask ==> r
            == DeleteStep::AskSelection,
{
    if confirmed {
        DeleteStep::DeleteAll
    } else {
        delete_plan_without_all(item_count, has_cmd_arg_item, can_ask)
    }
}

/// After the user selected items to delete.
pub fn delete_after_selection(selected_count: usize) -> (r: DeleteStep)
    ensures
        selected_count == 0 ==> r == DeleteStep::InformNoneSelected,
        selected_count == 1 ==> r == DeleteStep::ConfirmSingle,
        selected_count > 1 ==> r == DeleteStep::ConfirmMultiple,
{
    if selected_count == 0 {
        DeleteStep::InformNoneSelected
    } else if selected_count == 1 {
        DeleteStep::ConfirmSingle
    } else {
        DeleteStep::ConfirmMultiple
    }
}

/// After a single-item or selected-items confirmation: yes performs
/// the deletion, no ends the flow.
pub fn delete_after_confirm(confirmed: bool, single: bool) -> (r: DeleteStep)
    ensures
        confirmed && single ==> r == DeleteStep::DeleteSingle,
        confirmed && !single ==> r == DeleteStep::DeleteMultiple,
        !confirmed ==> r == DeleteStep::Done,
{
    if !confirmed {
        DeleteStep::Done
    } else if single {
        DeleteStep::DeleteSingle
    } else {
        DeleteStep::DeleteMultiple
    }
}

} // verus!
