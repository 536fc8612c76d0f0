//! The rendering state record: the page width together with the position
//! counters a traversal carries, and its field-replacing builders.
use vstd::prelude::*;

verus! {

/// The state a layout traversal carries: the fixed target width, the
/// characters placed on the current line, and the row, column, indentation
/// and token-index counters.
#[derive(Clone, Copy, Debug, PartialEq, Eq)]
pub struct PrettyState {
    pub page_width: i64,
    pub placed: i64,
    pub row: i64,
    pub col: i64,
    pub indent: i64,
    pub index: i64,
}

impl Default for PrettyState {
    /// The state a render starts from: every counter at zero.
    fn default() -> (r: Self)
        ensures
            r == (PrettyState { page_width: 0, placed: 0, row: 0, col: 0, indent: 0, index: 0 }),
    {
        PrettyState { page_width: 0, placed: 0, row: 0, col: 0, indent: 0, index: 0 }
    }
}

impl PrettyState {
    /// The same state with its page width replaced.
    pub fn with_page_width(self, page_width: i64) -> (r: Self)
        ensures
            r == (PrettyState { page_width, ..self }),
    {
        PrettyState { page_width, ..self }
    }

    /// The same state with its placed count replaced.
    pub fn with_placed(self, placed: i64) -> (r: Self)
        ensures
            r == (PrettyState { placed, ..self }),
    {
        PrettyState { placed, ..self }
    }

    /// The same state with its row replaced.
    pub fn with_row(self, row: i64) -> (r: Self)
        ensures
            r == (PrettyState { row, ..self }),
    {
        PrettyState { row, ..self }
    }

    /// The same state with its column replaced.
    pub fn with_col(self, col: i64) -> (r: Self)
        ensures
            r == (PrettyState { col, ..self }),
    {
        PrettyState { col, ..self }
    }

    /// The same state with its indentation replaced.
    pub fn with_indent(self, indent: i64) -> (r: Self)
        ensures
            r == (PrettyState { indent, ..self }),
    {
        PrettyState { indent, ..self }
    }

    /// The same state with its token index replaced.
    pub fn with_index(self, index: i64) -> (r: Self)
        ensures
            r == (PrettyState { index, ..self }),
    {
        PrettyState { index, ..self }
    }
}

} // verus!
