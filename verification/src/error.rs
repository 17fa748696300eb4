use vstd::prelude::*;

use crate::analyzers::Language;
use crate::line_number::LineIndex;

verus! {

/// An error in codesort
#[derive(Debug, Clone, Copy, PartialEq, Eq, Structural)]
pub enum CsError {
    /// The input has unbalanced brackets or ends inside a literal or comment
    InputNotBalanced,
    /// A requested line range is out of bounds or empty
    InvalidRange { start: LineIndex, end: LineIndex },
    /// The line pointed to has no sortable sibling content around it
    NoSortableRangeAround(LineIndex),
    /// Both a line and a range were given to choose the region to sort
    RangeAndAround,
    /// The selected region cannot be resolved into complete blocks
    RangeNotSortable(Language),
    /// A character literal was opened and never closed
    UnclosedCharLiteral(LineIndex),
    /// A closing bracket appeared with no matching opener
    UnexpectedClosingBrace(char),
}

pub type CsResult<T> = Result<T, CsError>;

} // verus!
