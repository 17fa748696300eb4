use vstd::prelude::*;
use vstd::string::StrSliceExecFns;
use vstd::string::StringExecFns;

use crate::analyzers::find_line_end;
use crate::analyzers::line_end;
use crate::analyzers::lemma_line_end_bounds;
use crate::error::CsError;
use crate::error::CsResult;
use crate::languages::Language;
use crate::line::Line;
use crate::line::line_indent;
use crate::line::line_is_empty;
use crate::line_number::LineNumber;
use crate::line_number::LineNumberRange;
use crate::window::Window;

verus! {

/// The lines of a text, split after each newline.
pub open spec fn spec_lines(s: Seq<char>, pos: int) -> Seq<Seq<char>>
    decreases s.len() - pos via spec_lines_decreases
{
    if pos < 0 || pos >= s.len() {
        Seq::empty()
    } else {
        let e = line_end(s, pos);
        seq![s.subrange(pos, e)] + spec_lines(s, e)
    }
}

#[via_fn]
proof fn spec_lines_decreases(s: Seq<char>, pos: int) {
    if 0 <= pos < s.len() {
        lemma_line_end_bounds(s, pos);
    }
}

/// A text, as a list of lines, most often representing a file
#[derive(Debug, Clone)]
pub struct List {
    pub lines: Vec<Line>,
    pub lang: Language,
}

impl View for List {
    type V = Seq<Seq<char>>;

    open spec fn view(&self) -> Seq<Seq<char>> {
        self.lines@.map_values(|l: Line| l@)
    }
}

impl List {
    /// Every line's bounds agree with its content.
    pub open spec fn wf(self) -> bool {
        forall|i: int| 0 <= i < self.lines@.len() ==> (#[trigger] self.lines@[i]).wf()
    }

    /// Split a text into lines.
    pub fn from_str(s: &str, lang: Language) -> (r: CsResult<Self>)
        ensures
            r is Ok && r->Ok_0@ == spec_lines(s@, 0) && r->Ok_0.wf() && r->Ok_0.lang == lang,
    {
        let cs = crate::chars::chars_of_str(s);
        let n = cs.len();
        let mut lines: Vec<Line> = Vec::new();
        let mut pos: usize = 0;
        proof {
            assert(lines@.map_values(|l: Line| l@) =~= Seq::<Seq<char>>::empty());
        }
        while pos < n
            invariant
                pos <= n,
                n == s@.len(),
                cs@ == s@,
                spec_lines(s@, 0) == lines@.map_values(|l: Line| l@) + spec_lines(s@, pos as int),
                forall|i: int| 0 <= i < lines@.len() ==> (#[trigger] lines@[i]).wf(),
            decreases n - pos,
        {
            let e = find_line_end(&cs, pos);
            let content: String = s.substring_char(pos, e).to_owned();
            let line = Line::new(content);
            let ghost prev = lines@.map_values(|l: Line| l@);
            lines.push(line);
            proof {
                assert(lines@.map_values(|l: Line| l@) =~= prev.push(line@));
                assert(spec_lines(s@, pos as int) == seq![s@.subrange(pos as int, e as int)]
                    + spec_lines(s@, e as int));
                assert(prev.push(line@) + spec_lines(s@, e as int) =~= prev + (seq![line@]
                    + spec_lines(s@, e as int)));
            }
            pos = e;
        }
        proof {
            assert(spec_lines(s@, n as int) =~= Seq::<Seq<char>>::empty());
            assert(lines@.map_values(|l: Line| l@) + Seq::<Seq<char>>::empty()
                =~= lines@.map_values(|l: Line| l@));
        }
        Ok(List { lines, lang })
    }

    pub fn line_by_number(&self, line_number: LineNumber) -> (r: Option<&str>)
        requires
            line_number.wf(),
        ensures
            line_number.number - 1 < self@.len() ==> r is Some && r->0@ == self@[line_number.number
                - 1],
            line_number.number - 1 >= self@.len() ==> r is None,
    {
        let idx = line_number.to_index();
        if idx < self.lines.len() {
            Some(self.lines[idx].content())
        } else {
            None
        }
    }

    /// The non-blank line nearest to the given one, looking at most two
    /// lines away on each side and preferring, between two candidates at
    /// the same distance, the more indented one.
    pub open spec fn spec_non_empty_line_around(self, idx: int) -> Option<int> {
        if idx < 0 || idx >= self@.len() {
            None
        } else if !line_is_empty(self@[idx]) {
            Some(idx)
        } else {
            let b1: Option<int> = if idx >= 1 && !line_is_empty(self@[idx - 1]) {
                Some(idx - 1)
            } else {
                None
            };
            let a1: Option<int> = if idx + 1 < self@.len() && !line_is_empty(self@[idx + 1]) {
                Some(idx + 1)
            } else {
                None
            };
            if b1 is Some && a1 is Some {
                if line_indent(self@[b1->0]) > line_indent(self@[a1->0]) {
                    b1
                } else {
                    a1
                }
            } else if b1 is Some {
                b1
            } else if a1 is Some {
                a1
            } else {
                let b2: Option<int> = if idx >= 2 && !line_is_empty(self@[idx - 2]) {
                    Some(idx - 2)
                } else {
                    None
                };
                let a2: Option<int> = if idx + 2 < self@.len() && !line_is_empty(self@[idx + 2]) {
                    Some(idx + 2)
                } else {
                    None
                };
                if b2 is Some && a2 is Some {
                    if line_indent(self@[b2->0]) > line_indent(self@[a2->0]) {
                        b2
                    } else {
                        a2
                    }
                } else if b2 is Some {
                    b2
                } else if a2 is Some {
                    a2
                } else {
                    None
                }
            }
        }
    }

    pub fn non_empty_line_around(&self, line_idx: usize) -> (r: Option<usize>)
        requires
            self.wf(),
        ensures
            match r {
                Some(i) => self.spec_non_empty_line_around(line_idx as int) == Some(i as int),
                None => self.spec_non_empty_line_around(line_idx as int) is None,
            },
    {
        let n = self.lines.len();
        if line_idx >= n {
            return None;
        }
        if !self.lines[line_idx].is_empty() {
            return Some(line_idx);
        }
        let before1: Option<usize> = if line_idx >= 1 && !self.lines[line_idx - 1].is_empty() {
            Some(line_idx - 1)
        } else {
            None
        };
        let after1: Option<usize> = if n - line_idx > 1 && !self.lines[line_idx + 1].is_empty() {
            Some(line_idx + 1)
        } else {
            None
        };
        match (before1, after1) {
            (Some(a), Some(b)) => {
                return if self.lines[a].indent() > self.lines[b].indent() {
                    Some(a)
                } else {
                    Some(b)
                };
            },
            (Some(a), None) => {
                return Some(a);
            },
            (None, Some(b)) => {
                return Some(b);
            },
            (None, None) => {},
        }
        let before2: Option<usize> = if line_idx >= 2 && !self.lines[line_idx - 2].is_empty() {
            Some(line_idx - 2)
        } else {
            None
        };
        let after2: Option<usize> = if n - line_idx > 2 && !self.lines[line_idx + 2].is_empty() {
            Some(line_idx + 2)
        } else {
            None
        };
        match (before2, after2) {
            (Some(a), Some(b)) => {
                if self.lines[a].indent() > self.lines[b].indent() {
                    Some(a)
                } else {
                    Some(b)
                }
            },
            (Some(a), None) => Some(a),
            (None, Some(b)) => Some(b),
            (None, None) => None,
        }
    }

    /// The first non-blank line after the given one.
    pub fn first_not_empty_line_after(&self, line_idx: usize) -> (r: Option<usize>)
        requires
            self.wf(),
        ensures
            match r {
                Some(i) => line_idx < i < self@.len() && !line_is_empty(self@[i as int]) && forall|
                    j: int,
                |
                    line_idx < j < i ==> line_is_empty(#[trigger] self@[j]),
                None => forall|j: int|
                    line_idx < j < self@.len() ==> line_is_empty(#[trigger] self@[j]),
            },
    {
        let n = self.lines.len();
        if line_idx >= n {
            return None;
        }
        let mut i = line_idx + 1;
        while i < n
            invariant
                line_idx < i <= n,
                n == self@.len(),
                self.wf(),
                forall|j: int| line_idx < j < i ==> line_is_empty(#[trigger] self@[j]),
            decreases n - i,
        {
            if !self.lines[i].is_empty() {
                return Some(i);
            }
            i += 1;
        }
        None
    }
}



/// The concatenation of the lines, in order.
pub open spec fn concat_lines(ls: Seq<Seq<char>>) -> Seq<char>
    decreases ls.len(),
{
    if ls.len() == 0 {
        Seq::empty()
    } else {
        concat_lines(ls.drop_last()) + ls.last()
    }
}

/// Whether a line may join a window whose base indent is given.
pub open spec fn can_extend_spec(l: Seq<char>, indent: int) -> bool {
    line_indent(l) >= indent || line_is_empty(l)
}

/// The first index at or under `i` that cannot extend further left.
pub open spec fn w_grow_start(ls: Seq<Seq<char>>, indent: int, i: int) -> int
    decreases i,
{
    if i > 0 && can_extend_spec(ls[i - 1], indent) {
        w_grow_start(ls, indent, i - 1)
    } else {
        i
    }
}

/// The last index at or above `i` that cannot extend further right.
pub open spec fn w_grow_end(ls: Seq<Seq<char>>, indent: int, i: int) -> int
    decreases ls.len() - i,
{
    if 0 <= i < ls.len() - 1 && can_extend_spec(ls[i + 1], indent) {
        w_grow_end(ls, indent, i + 1)
    } else {
        i
    }
}

proof fn lemma_w_grow_start_bounds(ls: Seq<Seq<char>>, indent: int, i: int)
    requires
        0 <= i,
    ensures
        0 <= w_grow_start(ls, indent, i) <= i,
    decreases i,
{
    if i > 0 && can_extend_spec(ls[i - 1], indent) {
        lemma_w_grow_start_bounds(ls, indent, i - 1);
    }
}

proof fn lemma_w_grow_end_bounds(ls: Seq<Seq<char>>, indent: int, i: int)
    requires
        0 <= i < ls.len(),
    ensures
        i <= w_grow_end(ls, indent, i) < ls.len(),
    decreases ls.len() - i,
{
    if i < ls.len() - 1 && can_extend_spec(ls[i + 1], indent) {
        lemma_w_grow_end_bounds(ls, indent, i + 1);
    }
}

impl List {
    /// Determine the biggest possible window around a line
    ///
    /// (takes a 1-based line number)
    pub fn window_around_line(self, line_number: LineNumber) -> (r: CsResult<Window>)
        requires
            self.wf(),
            line_number.wf(),
        ensures
            match self.spec_non_empty_line_around(line_number.number - 1) {
                None => r == CsResult::<Window>::Err(
                    CsError::NoSortableRangeAround((line_number.number - 1) as usize),
                ),
                Some(idx) => r is Ok && ({
                    let w = r->Ok_0;
                    let ind = line_indent(self@[idx]);
                    &&& w.list == self
                    &&& w.start == w_grow_start(self@, ind, idx)
                    &&& w.end == w_grow_end(self@, ind, idx) + 1
                    &&& w.wf()
                }),
            },
    {
        let idx = line_number.to_index();
        self.window_around(idx)
    }

    /// Determine the biggest possible window around a line index: it grows
    /// over every neighbor at least as indented as the nearest non-blank
    /// line, blank lines included.
    ///
    /// (takes a 0-based line index)
    pub fn window_around(self, line_idx: usize) -> (r: CsResult<Window>)
        requires
            self.wf(),
        ensures
            match self.spec_non_empty_line_around(line_idx as int) {
                None => r == CsResult::<Window>::Err(CsError::NoSortableRangeAround(line_idx)),
                Some(idx) => r is Ok && ({
                    let w = r->Ok_0;
                    let ind = line_indent(self@[idx]);
                    &&& w.list == self
                    &&& w.start == w_grow_start(self@, ind, idx)
                    &&& w.end == w_grow_end(self@, ind, idx) + 1
                    &&& w.wf()
                }),
            },
    {
        let line_idx = match self.non_empty_line_around(line_idx) {
            Some(i) => i,
            None => {
                return Err(CsError::NoSortableRangeAround(line_idx));
            },
        };
        let n = self.lines.len();
        proof {
            assert(self@.len() == n);
            assert(0 <= line_idx < n);
        }
        let indent = self.lines[line_idx].indent();
        let ghost ind = indent as int;
        let mut start = line_idx;
        let mut end = line_idx;
        while start > 0 && self.lines[start - 1].can_extend(indent)
            invariant
                start <= line_idx < self@.len(),
                self.wf(),
                ind == indent,
                w_grow_start(self@, ind, line_idx as int) == w_grow_start(self@, ind, start as int),
            decreases start,
        {
            start -= 1;
        }
        proof {
            assert(w_grow_start(self@, ind, line_idx as int) == start);
        }
        while end < self.lines.len() - 1 && self.lines[end + 1].can_extend(indent)
            invariant
                line_idx <= end < self@.len(),
                self.wf(),
                ind == indent,
                w_grow_end(self@, ind, line_idx as int) == w_grow_end(self@, ind, end as int),
            decreases self@.len() - end,
        {
            end += 1;
        }
        proof {
            assert(w_grow_end(self@, ind, line_idx as int) == end);
        }
        let end = end + 1;
        Ok(Window { list: self, start, end })
    }

    /// Build a window on a range of 0-based line indices,
    /// end not included
    pub fn window_on_range(self, start: usize, end: usize) -> (r: CsResult<Window>)
        requires
            self.wf(),
        ensures
            end <= start || end > self@.len() ==> r == CsResult::<Window>::Err(
                CsError::InvalidRange { start, end },
            ),
            start < end <= self@.len() ==> r is Ok && ({
                let w = r->Ok_0;
                &&& w.list == self
                &&& w.start == start
                &&& w.end == end
                &&& w.wf()
            }),
    {
        let n = self.lines.len();
        if end <= start || end > n {
            return Err(CsError::InvalidRange { start, end });
        }
        Ok(Window { list: self, start, end })
    }

    /// Build a window on a range of 1-based line numbers, ends included
    pub fn window_on_line_range(self, range: LineNumberRange) -> (r: CsResult<Window>)
        requires
            self.wf(),
            range.wf(),
            range.end.number < usize::MAX,
        ensures
            ({
                let start = range.start.number - 1;
                let end = range.end.number as int;
                &&& (end <= start || end > self@.len() ==> r == CsResult::<Window>::Err(
                    CsError::InvalidRange { start: start as usize, end: end as usize },
                ))
                &&& (start < end <= self@.len() ==> r is Ok && ({
                    let w = r->Ok_0;
                    &&& w.list == self
                    &&& w.start == start
                    &&& w.end == end
                    &&& w.wf()
                }))
            }),
    {
        let start = range.start.to_index();
        let end = range.end.to_index() + 1;
        self.window_on_range(start, end)
    }

    /// The text of the list: each line's content, in order.
    pub fn to_text(&self) -> (r: String)
        ensures
            r@ == concat_lines(self@),
    {
        let mut out = String::new();
        let n = self.lines.len();
        let mut i: usize = 0;
        proof {
            assert(self@.take(0) =~= Seq::<Seq<char>>::empty());
        }
        while i < n
            invariant
                i <= n,
                n == self@.len(),
                out@ == concat_lines(self@.take(i as int)),
            decreases n - i,
        {
            out.append(self.lines[i].content());
            proof {
                assert(self@.take(i + 1).drop_last() =~= self@.take(i as int));
                assert(self@.take(i + 1).last() == self@[i as int]);
            }
            i += 1;
        }
        proof {
            assert(self@.take(n as int) =~= self@);
        }
        out
    }

    /// The window spanning the whole list.
    pub fn into_window(self) -> (r: Window)
        requires
            self.wf(),
        ensures
            r.list == self,
            r.start == 0,
            r.end == self@.len(),
            r.wf(),
    {
        let end = self.lines.len();
        Window { list: self, start: 0, end }
    }
}

} // verus!
