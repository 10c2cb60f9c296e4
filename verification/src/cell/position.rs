//! Cell positions.

use core::cmp::Ordering;
use vstd::prelude::*;
use vstd::std_specs::cmp::PartialOrdSpecImpl;

verus! {

/// A reference to a cell by its page, line and column.
///
/// Positions are ordered by page, then by line, then by column.
#[derive(Debug, Clone, Copy, PartialEq, Eq, Structural, Ord, Hash)]
pub struct Position {
    /// The page number of the cell.
    pub page: u16,
    /// The line number of the cell.
    pub line: u16,
    /// The column number of the cell.
    pub column: u16,
}

impl DeepView for Position {
    type V = Position;

    open spec fn deep_view(&self) -> Position {
        *self
    }
}

impl Position {
    /// True if `self` comes before `other`: on an earlier page, or on the same
    /// page in an earlier line, or in the same line in an earlier column.
    pub open spec fn spec_before(self, other: Position) -> bool {
        ||| self.page < other.page
        ||| self.page == other.page && self.line < other.line
        ||| self.page == other.page && self.line == other.line && self.column < other.column
    }
}

impl PartialOrd for Position {
    fn partial_cmp(&self, other: &Position) -> (r: Option<Ordering>) {
        if self.page < other.page {
            Some(Ordering::Less)
        } else if self.page > other.page {
            Some(Ordering::Greater)
        } else if self.line < other.line {
            Some(Ordering::Less)
        } else if self.line > other.line {
            Some(Ordering::Greater)
        } else if self.column < other.column {
            Some(Ordering::Less)
        } else if self.column > other.column {
            Some(Ordering::Greater)
        } else {
            Some(Ordering::Equal)
        }
    }
}

impl PartialOrdSpecImpl for Position {
    open spec fn obeys_partial_cmp_spec() -> bool {
        true
    }

    open spec fn partial_cmp_spec(&self, other: &Position) -> Option<Ordering> {
        if self.spec_before(*other) {
            Some(Ordering::Less)
        } else if other.spec_before(*self) {
            Some(Ordering::Greater)
        } else {
            Some(Ordering::Equal)
        }
    }
}

} // verus!
