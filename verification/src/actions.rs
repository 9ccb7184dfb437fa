//! The action keywords of the command line, and which of them mutate
//! the stored list.

use vstd::prelude::*;
use crate::text::str_eq;

verus! {

/// One recognized action keyword.
#[derive(PartialEq, Eq, Structural, Clone, Copy, Debug)]
pub enum Action {
    Add,
    List,
    Remove,
    Clear,
    Check,
    Uncheck,
    Sort,
    SetOption,
    Edit,
    Help,
}

/// The action a keyword names, if any.
pub open spec fn action_of(s: Seq<char>) -> Option<Action> {
    if s == "add"@ {
        Some(Action::Add)
    } else if s == "list"@ {
        Some(Action::List)
    } else if s == "remove"@ {
        Some(Action::Remove)
    } else if s == "clear"@ {
        Some(Action::Clear)
    } else if s == "check"@ {
        Some(Action::Check)
    } else if s == "uncheck"@ {
        Some(Action::Uncheck)
    } else if s == "sort"@ {
        Some(Action::Sort)
    } else if s == "set"@ {
        Some(Action::SetOption)
    } else if s == "edit"@ {
        Some(Action::Edit)
    } else if s == "help"@ {
        Some(Action::Help)
    } else {
        None
    }
}

/// Whether an action rewrites the record file, so that the list is
/// redisplayed after it unless the silent setting is on.
pub open spec fn spec_is_mutating(a: Action) -> bool {
    match a {
        Action::Add | Action::Remove | Action::Clear | Action::Check | Action::Uncheck
        | Action::Sort | Action::Edit => true,
        Action::List | Action::SetOption | Action::Help => false,
    }
}

/// Map an action keyword to its action; any other keyword is invalid.
pub fn parse_action(s: &str) -> (r: Option<Action>)
    ensures
        r == action_of(s@),
{
    if str_eq(s, "add") {
        Some(Action::Add)
    } else if str_eq(s, "list") {
        Some(Action::List)
    } else if str_eq(s, "remove") {
        Some(Action::Remove)
    } else if str_eq(s, "clear") {
        Some(Action::Clear)
    } else if str_eq(s, "check") {
        Some(Action::Check)
    } else if str_eq(s, "uncheck") {
        Some(Action::Uncheck)
    } else if str_eq(s, "sort") {
        Some(Action::Sort)
    } else if str_eq(s, "set") {
        Some(Action::SetOption)
    } else if str_eq(s, "edit") {
        Some(Action::Edit)
    } else if str_eq(s, "help") {
        Some(Action::Help)
    } else {
        None
    }
}

/// Whether an action rewrites the record file.
pub fn is_mutating(a: Action) -> (r: bool)
    ensures
        r == spec_is_mutating(a),
{
    match a {
        Action::Add | Action::Remove | Action::Clear | Action::Check | Action::Uncheck
        | Action::Sort | Action::Edit => true,
        Action::List | Action::SetOption | Action::Help => false,
    }
}

} // verus!
