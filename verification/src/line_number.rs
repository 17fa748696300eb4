use vstd::prelude::*;

verus! {

/// A 0-based line index
pub type LineIndex = usize;

/// A 1-based line number, as used in most text editors
///
/// This is used for exchanging with the user, and for most APIs.
/// Disambiguation is done by using either `LineNumber` or `LineIndex`.
#[derive(Debug, Clone, Copy, PartialEq, Eq, Structural)]
pub struct LineNumber {
    pub number: usize,
}

impl LineNumber {
    /// A line number is 1-based: 0 is not a valid line number.
    pub open spec fn wf(self) -> bool {
        self.number >= 1
    }

    pub fn new(number: usize) -> (r: Option<Self>)
        ensures
            number >= 1 ==> r == Some(LineNumber { number }),
            number == 0 ==> r is None,
    {
        if number >= 1 {
            Some(LineNumber { number })
        } else {
            None
        }
    }

    pub fn to_index(&self) -> (r: LineIndex)
        requires
            self.wf(),
        ensures
            r == self.number - 1,
    {
        self.number - 1
    }

    pub fn from_index(index: LineIndex) -> (r: Self)
        requires
            index < usize::MAX,
        ensures
            r.number == index + 1,
            r.wf(),
    {
        LineNumber { number: index + 1 }
    }
}

/// A range of 1-based line numbers, both ends included
#[derive(Debug, Clone, Copy, PartialEq, Eq, Structural)]
pub struct LineNumberRange {
    pub start: LineNumber,
    pub end: LineNumber,
}

impl LineNumberRange {
    pub open spec fn wf(self) -> bool {
        self.start.wf() && self.end.wf()
    }

    /// Make a range spanning one line
    pub fn of_line(start: LineNumber) -> (r: Self)
        ensures
            r == (LineNumberRange { start, end: start }),
    {
        LineNumberRange { start, end: start }
    }

    pub fn contains(self, line: LineNumber) -> (r: bool)
        ensures
            r == (self.start.number <= line.number <= self.end.number),
    {
        self.start.number <= line.number && line.number <= self.end.number
    }
}

/// Walks the line numbers of a range in increasing order
pub struct LineNumberRangeIter {
    pub next: LineNumber,
    pub end: LineNumber,
}

impl LineNumberRangeIter {
    pub fn new(range: LineNumberRange) -> (r: Self)
        ensures
            r.next == range.start,
            r.end == range.end,
    {
        LineNumberRangeIter { next: range.start, end: range.end }
    }

    pub fn next(&mut self) -> (r: Option<LineNumber>)
        requires
            old(self).next.number < usize::MAX,
        ensures
            old(self).next.number > old(self).end.number ==> r is None && *final(self) == *old(
                self,
            ),
            old(self).next.number <= old(self).end.number ==> {
                &&& r == Some(old(self).next)
                &&& final(self).end == old(self).end
                &&& final(self).next.number == old(self).next.number + 1
            },
    {
        if self.next.number > self.end.number {
            return None;
        }
        let current = self.next;
        self.next = LineNumber { number: current.number + 1 };
        Some(current)
    }
}

} // verus!
