//! The todo item and the errors of the library.

use vstd::prelude::*;

verus! {

/// One entry of the todo list: a label and a completion flag.
/// Identity is purely positional; the list gives an item its 1-based
/// display position.
pub struct Todo {
    pub label: String,
    pub complete: bool,
}

impl Todo {
    /// The mathematical value of an item: its label as a character
    /// sequence together with its completion flag.
    pub open spec fn model(self) -> (Seq<char>, bool) {
        (self.label@, self.complete)
    }
}

/// The failures of the library. Each is reported to the caller as a
/// typed value and turned into a diagnostic and an exit code at the
/// binary's top-level boundary.
#[derive(Debug)]
pub enum TodoError {
    /// A selector-taking command was invoked with no selectors at all.
    MissingSelectors,
    /// The parameter at `index` is neither a keyword nor a parseable
    /// position number.
    InvalidPosition { index: usize },
    /// The line `line` of the record file is not a valid todo record.
    MalformedRecord { line: String },
    /// The settings file does not hold a valid settings record.
    MalformedSettings,
    /// `set` was given a setting key or value outside the recognized table.
    UnknownSetting,
}

} // verus!
