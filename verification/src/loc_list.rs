use vstd::prelude::*;
use vstd::string::StrSliceExecFns;
use vstd::string::StringExecFns;

use crate::chars::last_non_ws;
use crate::error::CsError;
use crate::error::CsResult;
use crate::gifts::Gift;
use crate::gifts::GiftV;
use crate::gifts::Wish;
use crate::gifts::WishV;
use crate::gifts::spec_satisfies;
use crate::line_number::LineNumber;
use crate::line_number::LineNumberRange;
use crate::loc::Loc;
use crate::loc::LocV;

verus! {

/// A list of Lines of Code
///
/// To sort it, you focus it, which specifies the area to sort, then
/// you sort the focused form.
#[derive(Debug, Clone)]
pub struct LocList {
    pub locs: Vec<Loc>,
}

impl View for LocList {
    type V = Seq<LocV>;

    open spec fn view(&self) -> Seq<LocV> {
        self.locs@.map_values(|l: Loc| l@)
    }
}

/// Among the lines sharing the slice's starting depth, at least one is
/// sortable (in particular it is no mere decorator).
pub open spec fn has_content_spec(s: Seq<LocV>) -> bool {
    exists|i: int|
        0 <= i < s.len() && (#[trigger] s[i]).start_depth == s[0].start_depth && s[i].is_sortable()
}

/// The last sortable line of a slice.
pub open spec fn last_sortable(s: Seq<LocV>) -> Option<LocV>
    decreases s.len(),
{
    if s.len() == 0 {
        None
    } else if s.last().is_sortable() {
        Some(s.last())
    } else {
        last_sortable(s.drop_last())
    }
}

/// Retire every pending wish that the gift satisfies.
pub open spec fn retire(pending: Seq<WishV>, g: GiftV) -> Seq<WishV> {
    pending.filter(|w: WishV| !spec_satisfies(g, w))
}

/// Apply a line's gifts, in order, to the pending wishes.
pub open spec fn gifts_fold(pending: Seq<WishV>, gifts: Seq<GiftV>) -> Seq<WishV>
    decreases gifts.len(),
{
    if gifts.len() == 0 {
        pending
    } else {
        gifts_fold(retire(pending, gifts[0]), gifts.drop_first())
    }
}

/// One step of the completeness fold: the line's gifts first retire pending
/// wishes, then the line's own wishes join the pending set.
pub open spec fn loc_fold(pending: Seq<WishV>, l: LocV) -> Seq<WishV> {
    gifts_fold(pending, l.gifts) + l.wishes
}

/// The wishes still pending after folding a whole slice, left to right.
pub open spec fn pending_after(s: Seq<LocV>) -> Seq<WishV>
    decreases s.len(),
{
    if s.len() == 0 {
        Seq::empty()
    } else {
        loc_fold(pending_after(s.drop_last()), s.last())
    }
}

/// The completeness judgment on a slice of lines: it has sortable content
/// at its own depth, its net bracket balance is zero (the first line starts
/// at the depth where the last sortable line ends), that last sortable line
/// may end a block, and no forward obligation is left pending.
pub open spec fn is_complete_spec(s: Seq<LocV>) -> bool {
    &&& has_content_spec(s)
    &&& match last_sortable(s) {
        Some(l) => s[0].start_depth == l.end_depth && l.can_complete,
        None => false,
    }
    &&& pending_after(s) =~= Seq::<WishV>::empty()
}

impl LocList {
    /// Analyze a whole source text with the language's analyzer.
    pub fn read(s: &str, lang: crate::analyzers::Language) -> (r: CsResult<Self>)
        ensures
            crate::analyzers::res_view(r) == lang.spec_analyzer().spec_read(s@),
            r matches Ok(ll) ==> ll.wf(),
    {
        lang.analyzer().read(s)
    }

    /// Analyze a whole source text with the language's analyzer.
    pub fn read_str(s: &str, lang: crate::analyzers::Language) -> (r: CsResult<Self>)
        ensures
            crate::analyzers::res_view(r) == lang.spec_analyzer().spec_read(s@),
            r matches Ok(ll) ==> ll.wf(),
    {
        Self::read(s, lang)
    }

    /// Every line is well formed (its indent is a whitespace prefix).
    pub open spec fn wf(self) -> bool {
        forall|i: int| 0 <= i < self@.len() ==> (#[trigger] self@[i]).wf()
    }

    /// An empty list
    pub fn new() -> (r: LocList)
        ensures
            r@ =~= Seq::<LocV>::empty(),
    {
        LocList { locs: Vec::new() }
    }

    pub fn len(&self) -> (r: usize)
        ensures
            r == self@.len(),
    {
        self.locs.len()
    }

    /// The 0-based indices named by a range, as a pair (start, one past end).
    pub open spec fn spec_idx(range: LineNumberRange) -> (int, int) {
        (range.start.number - 1, range.end.number as int)
    }

    /// The range names at least one line of this list.
    pub open spec fn spec_range_exists(self, range: LineNumberRange) -> bool {
        let (start, end) = Self::spec_idx(range);
        0 <= start && start < end <= self@.len()
    }

    /// The lines named by the range.
    pub open spec fn spec_slice(self, range: LineNumberRange) -> Seq<LocV> {
        let (start, end) = Self::spec_idx(range);
        self@.subrange(start, end)
    }

    /// Check whether the range is valid and contains at least one line
    pub fn range_exists(&self, range: LineNumberRange) -> (r: bool)
        requires
            range.wf(),
        ensures
            r == self.spec_range_exists(range),
    {
        let start = range.start.to_index();
        let end = range.end.to_index();
        start < self.locs.len() && end < self.locs.len() && start <= end
    }

    pub fn check_range(&self, range: LineNumberRange) -> (r: CsResult<()>)
        requires
            range.wf(),
        ensures
            r is Ok <==> self.spec_range_exists(range),
            !self.spec_range_exists(range) ==> r == CsResult::<()>::Err(
                CsError::InvalidRange { start: (range.start.number - 1) as usize, end: (
                range.end.number - 1) as usize },
            ),
    {
        let start = range.start.to_index();
        let end = range.end.to_index();
        if start >= self.locs.len() || end >= self.locs.len() || start > end {
            return Err(CsError::InvalidRange { start, end });
        }
        Ok(())
    }

    pub fn line_at_number(&self, line_number: LineNumber) -> (r: Option<&Loc>)
        requires
            line_number.wf(),
        ensures
            line_number.number - 1 < self@.len() ==> r is Some && r->0@ == self@[line_number.number
                - 1],
            line_number.number - 1 >= self@.len() ==> r is None,
    {
        let idx = line_number.to_index();
        if idx < self.locs.len() {
            Some(&self.locs[idx])
        } else {
            None
        }
    }

    pub fn full_range_checked(&self) -> (r: Option<LineNumberRange>)
        ensures
            self@.len() == 0 ==> r is None,
            self@.len() > 0 ==> r == Some(
                LineNumberRange {
                    start: LineNumber { number: 1 },
                    end: LineNumber { number: self@.len() as usize },
                },
            ),
    {
        if self.locs.is_empty() {
            None
        } else {
            Some(
                LineNumberRange {
                    start: LineNumber::from_index(0),
                    end: LineNumber::from_index(self.locs.len() - 1),
                },
            )
        }
    }

    /// The range spanning the whole list, which must not be empty.
    pub fn full_range(&self) -> (r: LineNumberRange)
        requires
            self@.len() > 0,
        ensures
            r == (LineNumberRange {
                start: LineNumber { number: 1 },
                end: LineNumber { number: self@.len() as usize },
            }),
    {
        LineNumberRange {
            start: LineNumber::from_index(0),
            end: LineNumber::from_index(self.locs.len() - 1),
        }
    }

    pub fn count_blank_lines_at_start(&self) -> (r: usize)
        ensures
            r == blank_prefix_len(self@),
    {
        let n = self.locs.len();
        let mut i: usize = 0;
        assert(self@.skip(0) =~= self@);
        while i < n
            invariant
                i <= n,
                n == self@.len(),
                blank_prefix_len(self@) == blank_prefix_len(self@.skip(i as int)) + i,
                forall|j: int| 0 <= j < i ==> (#[trigger] self@[j]).is_blank(),
            decreases n - i,
        {
            assert(self@.skip(i as int)[0] == self@[i as int]);
            if !self.locs[i].is_blank() {
                assert(blank_prefix_len(self@.skip(i as int)) == 0);
                return i;
            }
            proof {
                assert(self@.skip(i as int).drop_first() =~= self@.skip(i + 1));
            }
            i += 1;
        }
        assert(self@.skip(n as int) =~= Seq::<LocV>::empty());
        n
    }

    pub fn last_significant_char(&self) -> (r: Option<char>)
        ensures
            r == list_last_sig(self@),
    {
        let mut i = self.locs.len();
        assert(self@.take(self@.len() as int) =~= self@);
        while i > 0
            invariant
                i <= self@.len(),
                list_last_sig(self@) == list_last_sig(self@.take(i as int)),
            decreases i,
        {
            proof {
                assert(self@.take(i as int).last() == self@[i - 1]);
                assert(self@.take(i as int).drop_last() =~= self@.take(i - 1));
            }
            match self.locs[i - 1].last_significant_char() {
                Some(c) => {
                    return Some(c);
                },
                None => {},
            }
            i -= 1;
        }
        assert(self@.take(0) =~= Seq::<LocV>::empty());
        None
    }

    pub fn last_line_with_content(&self) -> (r: Option<&Loc>)
        ensures
            match r {
                Some(l) => last_sortable(self@) == Some(l@),
                None => last_sortable(self@) is None,
            },
    {
        let mut i = self.locs.len();
        assert(self@.take(self@.len() as int) =~= self@);
        while i > 0
            invariant
                i <= self@.len(),
                last_sortable(self@) == last_sortable(self@.take(i as int)),
            decreases i,
        {
            proof {
                assert(self@.take(i as int).last() == self@[i - 1]);
                assert(self@.take(i as int).drop_last() =~= self@.take(i - 1));
            }
            if self.locs[i - 1].is_sortable() {
                return Some(&self.locs[i - 1]);
            }
            i -= 1;
        }
        assert(self@.take(0) =~= Seq::<LocV>::empty());
        None
    }
}

/// How many blank lines the list starts with.
pub open spec fn blank_prefix_len(s: Seq<LocV>) -> int
    decreases s.len(),
{
    if s.len() == 0 || !s[0].is_blank() {
        0
    } else {
        1 + blank_prefix_len(s.drop_first())
    }
}

/// The last character, over all lines taken backwards, that is neither
/// whitespace nor part of a comment.
pub open spec fn list_last_sig(s: Seq<LocV>) -> Option<char>
    decreases s.len(),
{
    if s.len() == 0 {
        None
    } else {
        match last_non_ws(s.last().sort_key) {
            Some(c) => Some(c),
            None => list_last_sig(s.drop_last()),
        }
    }
}

/// The concatenation of the lines' contents, in order.
pub open spec fn concat_contents(s: Seq<LocV>) -> Seq<char>
    decreases s.len(),
{
    if s.len() == 0 {
        Seq::empty()
    } else {
        concat_contents(s.drop_last()) + s.last().content
    }
}

/// The first index at or under `i` that cannot grow further left: every
/// line between it and `i` keeps a minimal depth of at least `md`.
pub open spec fn grow_start(s: Seq<LocV>, md: usize, i: int) -> int
    decreases i,
{
    if i > 0 && s[i - 1].min_depth() >= md {
        grow_start(s, md, i - 1)
    } else {
        i
    }
}

/// The last index at or above `i` that cannot grow further right.
pub open spec fn grow_end(s: Seq<LocV>, md: usize, i: int) -> int
    decreases s.len() - i,
{
    if 0 <= i < s.len() - 1 && s[i + 1].min_depth() >= md {
        grow_end(s, md, i + 1)
    } else {
        i
    }
}

/// Walk `e` back towards `line_idx` over non-sortable lines.
pub open spec fn shrink_end(s: Seq<LocV>, line_idx: int, e: int) -> int
    decreases e - line_idx,
{
    if e > line_idx && 0 <= e < s.len() && !s[e].is_sortable() {
        shrink_end(s, line_idx, e - 1)
    } else {
        e
    }
}

/// Walk `a` forward towards `b` over blank lines.
pub open spec fn trim_front(s: Seq<LocV>, a: int, b: int) -> int
    decreases b - a,
{
    if a < b && 0 <= a < s.len() && s[a].is_blank() {
        trim_front(s, a + 1, b)
    } else {
        a
    }
}

/// Walk `b` back towards `a` over blank lines.
pub open spec fn trim_back(s: Seq<LocV>, a: int, b: int) -> int
    decreases b - a,
{
    if b > a && 0 <= b < s.len() && s[b].is_blank() {
        trim_back(s, a, b - 1)
    } else {
        b
    }
}

/// The view of a vector of wishes
pub open spec fn wishes_view(v: Seq<Wish>) -> Seq<WishV> {
    v.map_values(|w: Wish| w@)
}

/// Where some line is sortable, the slice has a last sortable line.
pub proof fn lemma_last_sortable_exists(s: Seq<LocV>)
    requires
        exists|i: int| 0 <= i < s.len() && (#[trigger] s[i]).is_sortable(),
    ensures
        last_sortable(s) is Some,
    decreases s.len(),
{
    if s.len() > 0 && !s.last().is_sortable() {
        let i = choose|i: int| 0 <= i < s.len() && (#[trigger] s[i]).is_sortable();
        assert(s.drop_last()[i] == s[i]);
        lemma_last_sortable_exists(s.drop_last());
    }
}

/// Folding the gifts one more step retires from the fold's result.
pub proof fn lemma_gifts_fold_push(p: Seq<WishV>, gifts: Seq<GiftV>, g: GiftV)
    ensures
        gifts_fold(p, gifts.push(g)) == retire(gifts_fold(p, gifts), g),
    decreases gifts.len(),
{
    if gifts.len() == 0 {
        assert(gifts.push(g)[0] == g);
        assert(gifts.push(g).drop_first() =~= Seq::<GiftV>::empty());
        assert(gifts_fold(p, gifts.push(g)) == gifts_fold(
            retire(p, g),
            Seq::<GiftV>::empty(),
        ));
        assert(gifts_fold(retire(p, g), Seq::<GiftV>::empty()) == retire(p, g));
        assert(gifts_fold(p, gifts) == p);
    } else {
        assert(gifts.push(g)[0] == gifts[0]);
        assert(gifts.push(g).drop_first() =~= gifts.drop_first().push(g));
        lemma_gifts_fold_push(retire(p, gifts[0]), gifts.drop_first(), g);
        assert(gifts_fold(p, gifts.push(g)) == gifts_fold(
            retire(p, gifts[0]),
            gifts.drop_first().push(g),
        ));
        assert(gifts_fold(p, gifts) == gifts_fold(retire(p, gifts[0]), gifts.drop_first()));
    }
}

/// Retire every pending wish that the gift satisfies, keeping the others
/// in order.
pub(crate) fn retire_exec(pending: Vec<Wish>, gift: &Gift) -> (r: Vec<Wish>)
    ensures
        wishes_view(r@) == retire(wishes_view(pending@), gift@),
{
    broadcast use vstd::seq_lib::group_seq_lib_default;

    let ghost orig = wishes_view(pending@);
    let mut out: Vec<Wish> = Vec::new();
    let mut rest = pending;
    proof {
        assert(wishes_view(out@) =~= Seq::<WishV>::empty());
        assert(wishes_view(out@) + retire(wishes_view(rest@), gift@) =~= retire(orig, gift@));
    }
    while rest.len() > 0
        invariant
            retire(orig, gift@) =~= wishes_view(out@) + retire(wishes_view(rest@), gift@),
        decreases rest.len(),
    {
        let ghost p = wishes_view(rest@);
        let ghost out0 = wishes_view(out@);
        let w = rest.remove(0);
        proof {
            assert(p =~= seq![w@] + wishes_view(rest@));
            Seq::filter_distributes_over_add(
                seq![w@],
                wishes_view(rest@),
                |x: WishV| !spec_satisfies(gift@, x),
            );
            reveal_with_fuel(Seq::filter, 3);
            assert(seq![w@].drop_last() =~= Seq::<WishV>::empty());
            if spec_satisfies(gift@, w@) {
                assert(retire(seq![w@], gift@) =~= Seq::<WishV>::empty());
            } else {
                assert(retire(seq![w@], gift@) =~= seq![w@]);
            }
        }
        if !gift.satisfies(&w) {
            out.push(w);
            proof {
                assert(wishes_view(out@) =~= out0.push(w@));
                assert(out0.push(w@) + retire(wishes_view(rest@), gift@) =~= out0 + (seq![w@]
                    + retire(wishes_view(rest@), gift@)));
            }
        }
    }
    proof {
        assert(wishes_view(rest@) =~= Seq::<WishV>::empty());
        reveal_with_fuel(Seq::filter, 1);
        assert(retire(wishes_view(rest@), gift@) =~= Seq::<WishV>::empty());
        assert(wishes_view(out@) + Seq::<WishV>::empty() =~= wishes_view(out@));
    }
    out
}

impl LocList {
    pub fn range_has_content(&self, range: LineNumberRange) -> (r: bool)
        requires
            range.wf(),
        ensures
            r == (self.spec_range_exists(range) && has_content_spec(self.spec_slice(range))),
    {
        if !self.range_exists(range) {
            return false;
        }
        let start = range.start.to_index();
        let end = range.end.to_index();
        let ghost slice = self.spec_slice(range);
        let first_start_depth = self.locs[start].start_depth;
        assert(slice[0] == self@[start as int]);
        assert(end < usize::MAX);
        let mut i = start;
        while i <= end
            invariant
                start <= i <= end + 1,
                end < self@.len(),
                end < usize::MAX,
                self.spec_range_exists(range),
                slice == self.spec_slice(range),
                slice.len() == end + 1 - start,
                start == range.start.number - 1,
                first_start_depth == slice[0].start_depth,
                forall|j: int|
                    start <= j < i ==> !((#[trigger] self@[j]).start_depth == first_start_depth
                        && self@[j].is_sortable()),
                forall|j: int| 0 <= j < slice.len() ==> slice[j] == self@[start + j],
            decreases end + 1 - i,
        {
            let loc = &self.locs[i];
            if loc.start_depth == first_start_depth {
                if loc.is_sortable() {
                    assert(slice[i - start] == self@[i as int]);
                    assert(has_content_spec(slice));
                    return true;
                }
            }
            i += 1;
        }
        assert(!has_content_spec(slice));
        false
    }

    pub fn has_content(&self) -> (r: bool)
        ensures
            r == (self@.len() > 0 && has_content_spec(self@)),
    {
        if self.locs.is_empty() {
            return false;
        }
        let n = self.locs.len();
        assert(self@.len() == n);
        let range = self.full_range();
        assert(range.wf());
        let r = self.range_has_content(range);
        proof {
            assert(self.spec_range_exists(range));
            assert(self.spec_slice(range) =~= self@);
        }
        r
    }

    pub fn last_line_in_range_with_content(&self, range: LineNumberRange) -> (r: Option<&Loc>)
        requires
            range.wf(),
            self.spec_range_exists(range),
        ensures
            match r {
                Some(l) => last_sortable(self.spec_slice(range)) == Some(l@),
                None => last_sortable(self.spec_slice(range)) is None,
            },
    {
        let start = range.start.to_index();
        let end = range.end.to_index();
        let ghost slice = self.spec_slice(range);
        let mut i = end + 1;
        proof {
            assert(slice.take(slice.len() as int) =~= slice);
        }
        while i > start
            invariant
                start <= i <= end + 1,
                end < self@.len(),
                start == range.start.number - 1,
                slice == self.spec_slice(range),
                slice.len() == end + 1 - start,
                forall|j: int| 0 <= j < slice.len() ==> slice[j] == self@[start + j],
                last_sortable(slice) == last_sortable(slice.take(i - start)),
            decreases i,
        {
            proof {
                assert(slice.take(i - start).last() == slice[i - start - 1]);
                assert(slice.take(i - start).drop_last() =~= slice.take(i - start - 1));
            }
            if self.locs[i - 1].is_sortable() {
                return Some(&self.locs[i - 1]);
            }
            i -= 1;
        }
        proof {
            assert(slice.take(0) =~= Seq::<LocV>::empty());
        }
        None
    }

    /// Warning: doesn't check whether a bigger range wouldn't be
    /// complete too, so a range being complete doesn't mean it is
    /// a block.
    pub fn is_range_complete(&self, range: LineNumberRange) -> (r: bool)
        requires
            range.wf(),
        ensures
            r == (self.spec_range_exists(range) && is_complete_spec(self.spec_slice(range))),
    {
        if !self.range_has_content(range) {
            return false;
        }
        let start = range.start.to_index();
        let end = range.end.to_index();
        let ghost slice = self.spec_slice(range);
        assert(slice[0] == self@[start as int]);
        let first_start_depth = self.locs[start].start_depth;
        proof {
            lemma_last_sortable_exists(slice);
        }
        let last = match self.last_line_in_range_with_content(range) {
            Some(l) => l,
            None => {
                return false;
            },
        };
        if first_start_depth != last.end_depth {
            return false;
        }
        if !last.can_complete {
            return false;
        }
        let mut wished: Vec<Wish> = Vec::new();
        proof {
            assert(slice.take(0) =~= Seq::<LocV>::empty());
            assert(wishes_view(wished@) =~= Seq::<WishV>::empty());
        }
        assert(end < usize::MAX);
        let mut i = start;
        while i <= end
            invariant
                start <= i <= end + 1,
                end < self@.len(),
                end < usize::MAX,
                start == range.start.number - 1,
                slice == self.spec_slice(range),
                slice.len() == end + 1 - start,
                forall|j: int| 0 <= j < slice.len() ==> slice[j] == self@[start + j],
                wishes_view(wished@) == pending_after(slice.take(i - start)),
            decreases end + 1 - i,
        {
            let ghost loc_v = self@[i as int];
            let ghost pend0 = wishes_view(wished@);
            let ngifts = self.locs[i].gifts.len();
            let mut gi: usize = 0;
            proof {
                assert(loc_v.gifts.take(0) =~= Seq::<GiftV>::empty());
            }
            while gi < ngifts
                invariant
                    gi <= ngifts,
                    i < self@.len(),
                    ngifts == self@[i as int].gifts.len(),
                    loc_v == self@[i as int],
                    wishes_view(wished@) == gifts_fold(pend0, loc_v.gifts.take(gi as int)),
                decreases ngifts - gi,
            {
                let g = self.locs[i].gifts[gi];
                assert(g@ == loc_v.gifts[gi as int]);
                wished = retire_exec(wished, &g);
                proof {
                    lemma_gifts_fold_push(pend0, loc_v.gifts.take(gi as int), g@);
                    assert(loc_v.gifts.take(gi as int).push(g@) =~= loc_v.gifts.take(gi + 1));
                }
                gi += 1;
            }
            proof {
                assert(loc_v.gifts.take(ngifts as int) =~= loc_v.gifts);
            }
            let nwishes = self.locs[i].wishes.len();
            let ghost after_gifts = wishes_view(wished@);
            let mut wi: usize = 0;
            while wi < nwishes
                invariant
                    wi <= nwishes,
                    i < self@.len(),
                    nwishes == self@[i as int].wishes.len(),
                    loc_v == self@[i as int],
                    wishes_view(wished@) =~= after_gifts + loc_v.wishes.take(wi as int),
                decreases nwishes - wi,
            {
                let ghost before = wishes_view(wished@);
                let w = self.locs[i].wishes[wi].duplicate();
                assert(w@ == loc_v.wishes[wi as int]);
                wished.push(w);
                proof {
                    assert(wishes_view(wished@) =~= before.push(w@));
                    assert(before.push(w@) =~= after_gifts + loc_v.wishes.take(wi + 1));
                }
                wi += 1;
            }
            proof {
                assert(loc_v.wishes.take(nwishes as int) =~= loc_v.wishes);
                assert(slice.take(i - start + 1).drop_last() =~= slice.take(i - start));
                assert(slice.take(i - start + 1).last() == slice[i - start]);
                assert(slice[i - start] == loc_v);
                assert(wishes_view(wished@) == loc_fold(pending_after(slice.take(i - start)), loc_v));
            }
            i += 1;
        }
        proof {
            assert(slice.take(end + 1 - start) =~= slice);
        }
        wished.is_empty()
    }

    pub fn is_complete(&self) -> (r: bool)
        ensures
            r == (self@.len() > 0 && is_complete_spec(self@)),
    {
        if self.locs.is_empty() {
            return false;
        }
        let n = self.locs.len();
        assert(self@.len() == n);
        let range = self.full_range();
        assert(range.wf());
        let r = self.is_range_complete(range);
        proof {
            assert(self.spec_range_exists(range));
            assert(self.spec_slice(range) =~= self@);
        }
        r
    }

    /// Drop blank lines at both ends of the range, keeping at least one line.
    pub fn trimmed_range(&self, range: LineNumberRange) -> (r: LineNumberRange)
        requires
            range.wf(),
            self.spec_range_exists(range),
            self.wf(),
        ensures
            ({
                let a = trim_front(self@, range.start.number - 1, range.end.number - 1);
                let b = trim_back(self@, a, range.end.number - 1);
                r == (LineNumberRange {
                    start: LineNumber { number: (a + 1) as usize },
                    end: LineNumber { number: (b + 1) as usize },
                })
            }),
    {
        let mut start = range.start;
        let mut end = range.end;
        while start.number < end.number && self.locs[start.number - 1].is_blank()
            invariant
                start.wf(),
                end == range.end,
                start.number <= end.number,
                end.number - 1 < self@.len(),
                self.wf(),
                trim_front(self@, range.start.number - 1, range.end.number - 1) == trim_front(
                    self@,
                    start.number - 1,
                    range.end.number - 1,
                ),
            decreases end.number - start.number,
        {
            start = LineNumber { number: start.number + 1 };
        }
        let ghost a = start.number - 1;
        assert(trim_front(self@, range.start.number - 1, range.end.number - 1) == a);
        while end.number > start.number && self.locs[end.number - 1].is_blank()
            invariant
                end.wf(),
                start.number >= 1,
                start.number <= end.number,
                end.number - 1 < self@.len(),
                a == start.number - 1,
                self.wf(),
                trim_back(self@, a, range.end.number - 1) == trim_back(self@, a, end.number - 1),
            decreases end.number,
        {
            end = LineNumber { number: end.number - 1 };
        }
        assert(trim_back(self@, a, range.end.number - 1) == end.number - 1);
        LineNumberRange { start, end }
    }

    pub fn range_around_line_number(&self, line_number: LineNumber) -> (r: CsResult<
        LineNumberRange,
    >)
        requires
            line_number.wf(),
        ensures
            r == self.spec_range_around(line_number.number - 1),
    {
        self.range_around_line_index(line_number.to_index())
    }

    /// The region around the line: what the range around the line index
    /// grows to, by `spec_range_around`.
    pub fn range_around_line_index(&self, line_idx: usize) -> (r: CsResult<LineNumberRange>)
        ensures
            r == self.spec_range_around(line_idx as int),
    {
        if line_idx >= self.locs.len() {
            return Err(CsError::NoSortableRangeAround(line_idx));
        }
        let md = self.locs[line_idx].min_depth();
        let mut start = line_idx;
        let mut end = line_idx;
        while start > 0 && self.locs[start - 1].min_depth() >= md
            invariant
                start <= line_idx < self@.len(),
                md == self@[line_idx as int].min_depth(),
                grow_start(self@, md, line_idx as int) == grow_start(self@, md, start as int),
            decreases start,
        {
            start -= 1;
        }
        assert(grow_start(self@, md, line_idx as int) == start);
        while end < self.locs.len() - 1 && self.locs[end + 1].min_depth() >= md
            invariant
                line_idx <= end < self@.len(),
                md == self@[line_idx as int].min_depth(),
                grow_end(self@, md, line_idx as int) == grow_end(self@, md, end as int),
            decreases self@.len() - end,
        {
            end += 1;
        }
        assert(grow_end(self@, md, line_idx as int) == end);
        // trailing blank or comment lines stick with the container's end,
        // not with this block
        while end > line_idx && !self.locs[end].is_sortable()
            invariant
                line_idx <= end < self@.len(),
                shrink_end(self@, line_idx as int, grow_end(self@, md, line_idx as int))
                    == shrink_end(self@, line_idx as int, end as int),
            decreases end,
        {
            end -= 1;
        }
        assert(shrink_end(self@, line_idx as int, grow_end(self@, md, line_idx as int)) == end);
        let range = LineNumberRange {
            start: LineNumber::from_index(start),
            end: LineNumber::from_index(end),
        };
        proof {
            assert(range.wf());
            assert(self.spec_range_exists(range));
        }
        if !self.range_has_content(range) {
            proof {
                assert(self.spec_slice(range) == self@.subrange(start as int, end + 1));
            }
            return Err(CsError::NoSortableRangeAround(line_idx));
        }
        proof {
            assert(self.spec_slice(range) == self@.subrange(start as int, end + 1));
        }
        Ok(range)
    }

    /// The range around a line index: the widest range around the line in
    /// which every line's minimal depth stays at or above the line's own,
    /// then shrunk at its end over trailing non-sortable lines. A range
    /// holding no sortable content at its own depth — a comment-only
    /// region, say — is no range to sort.
    pub open spec fn spec_range_around(self, line_idx: int) -> CsResult<LineNumberRange> {
        if line_idx >= self@.len() {
            Err(CsError::NoSortableRangeAround(line_idx as usize))
        } else {
            let md = self@[line_idx].min_depth();
            let start = grow_start(self@, md, line_idx);
            let end = shrink_end(self@, line_idx, grow_end(self@, md, line_idx));
            if !has_content_spec(self@.subrange(start, end + 1)) {
                Err(CsError::NoSortableRangeAround(line_idx as usize))
            } else {
                Ok(
                    LineNumberRange {
                        start: LineNumber { number: (start + 1) as usize },
                        end: LineNumber { number: (end + 1) as usize },
                    },
                )
            }
        }
    }

    /// The text of the list: each line's content, in order.
    pub fn to_text(&self) -> (r: String)
        ensures
            r@ == concat_contents(self@),
    {
        let mut out = String::new();
        let n = self.locs.len();
        let mut i: usize = 0;
        proof {
            assert(self@.take(0) =~= Seq::<LocV>::empty());
        }
        while i < n
            invariant
                i <= n,
                n == self@.len(),
                out@ == concat_contents(self@.take(i as int)),
            decreases n - i,
        {
            out.append(self.locs[i].content.as_str());
            proof {
                assert(self@.take(i + 1).drop_last() =~= self@.take(i as int));
                assert(self@.take(i + 1).last() == self@[i as int]);
            }
            i += 1;
        }
        proof {
            assert(self@.take(n as int) =~= self@);
        }
        out
    }
}


/// The running state of the block partition: the blocks already cut, and
/// the lines accumulated since the last cut, after folding `i` lines.
pub open spec fn part_fold(s: Seq<LocV>, i: int) -> (Seq<Seq<LocV>>, Seq<LocV>)
    decreases i,
{
    if i <= 0 {
        (Seq::empty(), Seq::empty())
    } else {
        let folded = part_fold(s, i - 1);
        let cur = folded.1.push(s[i - 1]);
        if is_complete_spec(cur) {
            (folded.0.push(cur), Seq::empty())
        } else {
            (folded.0, cur)
        }
    }
}

/// The partition of a list into minimal complete blocks: lines accumulate
/// and a block is cut as soon as the accumulated run is complete; a
/// non-empty remainder becomes a final, possibly incomplete block.
pub open spec fn spec_partition(s: Seq<LocV>) -> Seq<Seq<LocV>> {
    let folded = part_fold(s, s.len() as int);
    if folded.1.len() == 0 {
        folded.0
    } else {
        folded.0.push(folded.1)
    }
}

/// The concatenation of a sequence of blocks.
pub open spec fn flatten_blocks(bs: Seq<Seq<LocV>>) -> Seq<LocV>
    decreases bs.len(),
{
    if bs.len() == 0 {
        Seq::empty()
    } else {
        flatten_blocks(bs.drop_last()) + bs.last()
    }
}

impl LocList {
    /// Cut the list into blocks: lines accumulate into a run, and the run
    /// is cut into a block as soon as it is complete.
    pub fn into_blocks(self) -> (r: Vec<LocList>)
        ensures
            crate::order::blocks_view(r@) == spec_partition(self@),
    {
        let ghost s = self@;
        let mut rest = self.locs;
        let mut blocks: Vec<LocList> = Vec::new();
        let mut current = LocList::new();
        let ghost k: int = 0;
        proof {
            assert(rest@.map_values(|l: Loc| l@) =~= s.skip(0));
            assert(crate::order::blocks_view(blocks@) =~= Seq::<Seq<LocV>>::empty());
        }
        while rest.len() > 0
            invariant
                0 <= k <= s.len(),
                rest@.map_values(|l: Loc| l@) == s.skip(k),
                (crate::order::blocks_view(blocks@), current@) == part_fold(s, k),
            decreases rest@.len(),
        {
            let ghost restv = rest@.map_values(|l: Loc| l@);
            proof {
                assert(restv.len() == rest@.len());
            }
            let loc = rest.remove(0);
            proof {
                assert(restv[0] == loc@);
                assert(restv[0] == s[k]);
                assert(rest@.map_values(|l: Loc| l@) =~= restv.drop_first());
                assert(restv.drop_first() =~= s.skip(k + 1));
            }
            let ghost curv = current@;
            current.locs.push(loc);
            proof {
                assert(current@ =~= curv.push(loc@));
            }
            if current.is_complete() {
                let ghost bv = crate::order::blocks_view(blocks@);
                blocks.push(current);
                proof {
                    assert(crate::order::blocks_view(blocks@) =~= bv.push(curv.push(s[k])));
                }
                current = LocList::new();
                proof {
                    assert(current@ =~= Seq::<LocV>::empty());
                }
            }
            proof {
                k = k + 1;
            }
        }
        proof {
            assert(rest@.map_values(|l: Loc| l@).len() == rest@.len());
            assert(k == s.len());
        }
        if current.locs.len() > 0 {
            proof {
                assert(current@.len() == current.locs@.len());
            }
            blocks.push(current);
            proof {
                assert(crate::order::blocks_view(blocks@) =~= part_fold(s, s.len() as int).0.push(
                    part_fold(s, s.len() as int).1,
                ));
            }
        } else {
            proof {
                assert(current@.len() == current.locs@.len());
                assert(crate::order::blocks_view(blocks@) == spec_partition(s));
            }
        }
        blocks
    }

    /// Split the list in three at the given range: the part before it, the
    /// range itself, and the part after it.
    pub fn focus(self, range: LineNumberRange) -> (r: CsResult<crate::focused::Focused>)
        requires
            range.wf(),
        ensures
            self.spec_range_exists(range) ==> r is Ok && ({
                let f = r->Ok_0;
                &&& f.before@ == self@.take(range.start.number - 1)
                &&& f.focus@ == self@.subrange(range.start.number - 1, range.end.number as int)
                &&& f.after@ == self@.skip(range.end.number as int)
            }),
            !self.spec_range_exists(range) ==> r == CsResult::<crate::focused::Focused>::Err(
                CsError::InvalidRange { start: (range.start.number - 1) as usize, end: (
                range.end.number - 1) as usize },
            ),
    {
        let start = range.start.to_index();
        let end = range.end.to_index();
        if start >= self.locs.len() || end >= self.locs.len() || start > end {
            return Err(CsError::InvalidRange { start, end });
        }
        let mut locs = self.locs;
        let ghost all = locs@.map_values(|l: Loc| l@);
        let after_locs = locs.split_off(end + 1);
        let focus_locs = locs.split_off(start);
        let before = LocList { locs };
        let focus = LocList { locs: focus_locs };
        let after = LocList { locs: after_locs };
        proof {
            assert(before@ =~= all.take(start as int));
            assert(focus@ =~= all.subrange(start as int, end + 1));
            assert(after@ =~= all.skip(end + 1));
        }
        Ok(crate::focused::Focused { before, focus, after })
    }

    /// Focus the whole list.
    pub fn focus_all(self) -> (r: CsResult<crate::focused::Focused>)
        ensures
            r is Ok,
            r->Ok_0.before@ =~= Seq::<LocV>::empty(),
            r->Ok_0.focus@ == self@,
            r->Ok_0.after@ =~= Seq::<LocV>::empty(),
    {
        Ok(
            crate::focused::Focused {
                before: LocList::new(),
                focus: self,
                after: LocList::new(),
            },
        )
    }

    /// Focus the region around the given 0-based line index.
    pub fn focus_around_line_index(self, line_idx: usize) -> (r: CsResult<crate::focused::Focused>)
        ensures
            match self.spec_range_around(line_idx as int) {
                Ok(range) => r is Ok && ({
                    let f = r->Ok_0;
                    &&& f.before@ == self@.take(range.start.number - 1)
                    &&& f.focus@ == self@.subrange(range.start.number - 1, range.end.number as int)
                    &&& f.after@ == self@.skip(range.end.number as int)
                }),
                Err(e) => r == CsResult::<crate::focused::Focused>::Err(e),
            },
    {
        let range = match self.range_around_line_index(line_idx) {
            Ok(range) => range,
            Err(e) => {
                return Err(e);
            },
        };
        let n = self.locs.len();
        proof {
            assert(self@.len() == n);
            lemma_grow_bounds(self@, self@[line_idx as int].min_depth(), line_idx as int);
            lemma_shrink_bounds(
                self@,
                line_idx as int,
                grow_end(self@, self@[line_idx as int].min_depth(), line_idx as int),
            );
            assert(range.wf());
            assert(self.spec_range_exists(range));
        }
        self.focus(range)
    }

    /// Focus the region around the given 1-based line number.
    pub fn focus_around_line_number(self, line_number: LineNumber) -> (r: CsResult<
        crate::focused::Focused,
    >)
        requires
            line_number.wf(),
        ensures
            match self.spec_range_around(line_number.number - 1) {
                Ok(range) => r is Ok && ({
                    let f = r->Ok_0;
                    &&& f.before@ == self@.take(range.start.number - 1)
                    &&& f.focus@ == self@.subrange(range.start.number - 1, range.end.number as int)
                    &&& f.after@ == self@.skip(range.end.number as int)
                }),
                Err(e) => r == CsResult::<crate::focused::Focused>::Err(e),
            },
    {
        self.focus_around_line_index(line_number.to_index())
    }

    /// Sort the given range in place.
    pub fn sort_range(&mut self, range: LineNumberRange) -> (r: CsResult<()>)
        requires
            range.wf(),
        ensures
            old(self).spec_range_exists(range) ==> r is Ok && final (self)@
                == crate::focused::spec_focused_sort(
                old(self)@.take(range.start.number - 1),
                old(self)@.subrange(range.start.number - 1, range.end.number as int),
                old(self)@.skip(range.end.number as int),
            ),
            !old(self).spec_range_exists(range) ==> r == CsResult::<()>::Err(
                CsError::InvalidRange { start: (range.start.number - 1) as usize, end: (
                range.end.number - 1) as usize },
            ) && *final (self) == *old(self),
    {
        let start = range.start.to_index();
        let end = range.end.to_index();
        if start >= self.locs.len() || end >= self.locs.len() || start > end {
            return Err(CsError::InvalidRange { start, end });
        }
        let mut taken: Vec<Loc> = Vec::new();
        core::mem::swap(&mut taken, &mut self.locs);
        let list = LocList { locs: taken };
        proof {
            assert(list@ == old(self)@);
            assert(self@.len() == 0);
        }
        let focused = match list.focus(range) {
            Ok(f) => f,
            Err(_) => {
                proof {
                    assert(false);
                }
                vstd::pervasive::unreached()
            },
        };
        let sorted = focused.sort();
        self.locs = sorted.locs;
        Ok(())
    }

    /// Sort the region around the given 0-based line index, in place.
    pub fn sort_around_line_index(&mut self, line_idx: usize) -> (r: CsResult<()>)
        ensures
            match old(self).spec_range_around(line_idx as int) {
                Ok(range) => r is Ok && final (self)@ == crate::focused::spec_focused_sort(
                    old(self)@.take(range.start.number - 1),
                    old(self)@.subrange(range.start.number - 1, range.end.number as int),
                    old(self)@.skip(range.end.number as int),
                ),
                Err(e) => r == CsResult::<()>::Err(e) && *final (self) == *old(self),
            },
    {
        let range = match self.range_around_line_index(line_idx) {
            Ok(range) => range,
            Err(e) => {
                return Err(e);
            },
        };
        let n = self.locs.len();
        proof {
            assert(self@.len() == n);
            lemma_grow_bounds(self@, self@[line_idx as int].min_depth(), line_idx as int);
            lemma_shrink_bounds(
                self@,
                line_idx as int,
                grow_end(self@, self@[line_idx as int].min_depth(), line_idx as int),
            );
            assert(range.wf());
            assert(self.spec_range_exists(range));
        }
        self.sort_range(range)
    }

    /// Sort the region around the given 1-based line number, in place.
    pub fn sort_around_line_number(&mut self, line_number: LineNumber) -> (r: CsResult<()>)
        requires
            line_number.wf(),
        ensures
            match old(self).spec_range_around(line_number.number - 1) {
                Ok(range) => r is Ok && final (self)@ == crate::focused::spec_focused_sort(
                    old(self)@.take(range.start.number - 1),
                    old(self)@.subrange(range.start.number - 1, range.end.number as int),
                    old(self)@.skip(range.end.number as int),
                ),
                Err(e) => r == CsResult::<()>::Err(e) && *final (self) == *old(self),
            },
    {
        self.sort_around_line_index(line_number.to_index())
    }
}

/// The grown bounds stay inside the list, around the line.
pub proof fn lemma_grow_bounds(s: Seq<LocV>, md: usize, i: int)
    requires
        0 <= i < s.len(),
    ensures
        0 <= grow_start(s, md, i) <= i,
        i <= grow_end(s, md, i) < s.len(),
    decreases s.len(),
{
    lemma_grow_start_bounds(s, md, i);
    lemma_grow_end_bounds(s, md, i);
}

proof fn lemma_grow_start_bounds(s: Seq<LocV>, md: usize, i: int)
    requires
        0 <= i,
    ensures
        0 <= grow_start(s, md, i) <= i,
    decreases i,
{
    if i > 0 && s[i - 1].min_depth() >= md {
        lemma_grow_start_bounds(s, md, i - 1);
    }
}

proof fn lemma_grow_end_bounds(s: Seq<LocV>, md: usize, i: int)
    requires
        0 <= i < s.len(),
    ensures
        i <= grow_end(s, md, i) < s.len(),
    decreases s.len() - i,
{
    if i < s.len() - 1 && s[i + 1].min_depth() >= md {
        lemma_grow_end_bounds(s, md, i + 1);
    }
}

/// Shrinking keeps the end between the line and where it was.
pub proof fn lemma_shrink_bounds(s: Seq<LocV>, line_idx: int, e: int)
    requires
        0 <= line_idx <= e,
    ensures
        line_idx <= shrink_end(s, line_idx, e) <= e,
    decreases e - line_idx,
{
    if e > line_idx && 0 <= e < s.len() && !s[e].is_sortable() {
        lemma_shrink_bounds(s, line_idx, e - 1);
    }
}



/// The first of the ranges that contains the line, scanning left to right.
pub open spec fn first_containing(blocks: Seq<LineNumberRange>, ln: LineNumber) -> Option<
    LineNumberRange,
>
    decreases blocks.len(),
{
    if blocks.len() == 0 {
        None
    } else if blocks[0].start.number <= ln.number <= blocks[0].end.number {
        Some(blocks[0])
    } else {
        first_containing(blocks.drop_first(), ln)
    }
}

/// A line inside a tiled span falls in one of the tiles.
pub proof fn lemma_tiles_contain(bs: Seq<LineNumberRange>, n: int)
    requires
        bs.len() >= 1,
        bs[0].start.number <= n,
        bs[bs.len() - 1].end.number >= n,
        forall|i: int|
            0 <= i < bs.len() - 1 ==> (#[trigger] bs[i]).end.number + 1 == bs[i + 1].start.number,
        forall|i: int| 0 <= i < bs.len() ==> (#[trigger] bs[i]).start.number <= bs[i].end.number,
    ensures
        exists|i: int|
            0 <= i < bs.len() && (#[trigger] bs[i]).start.number <= n <= bs[i].end.number,
    decreases bs.len(),
{
    if n <= bs[0].end.number {
        assert(bs[0].start.number <= n <= bs[0].end.number);
    } else {
        assert(bs.len() >= 2) by {
            if bs.len() == 1 {
                assert(bs[bs.len() - 1] == bs[0]);
            }
        }
        let tail = bs.drop_first();
        assert forall|i: int|
            0 <= i < tail.len() - 1 implies (#[trigger] tail[i]).end.number + 1 == tail[i
                + 1].start.number by {
            assert(tail[i] == bs[i + 1]);
            assert(tail[i + 1] == bs[i + 2]);
        }
        assert forall|i: int| 0 <= i < tail.len() implies (#[trigger] tail[i]).start.number
            <= tail[i].end.number by {
            assert(tail[i] == bs[i + 1]);
        }
        assert(tail[0] == bs[1]);
        assert(bs[0].end.number + 1 == bs[1].start.number);
        assert(tail[tail.len() - 1] == bs[bs.len() - 1]);
        lemma_tiles_contain(tail, n);
        let wi = choose|i: int|
            0 <= i < tail.len() && (#[trigger] tail[i]).start.number <= n <= tail[i].end.number;
        assert(bs[wi + 1].start.number <= n <= bs[wi + 1].end.number);
    }
}

/// Where some range contains the line, the first containing one exists.
pub proof fn lemma_first_containing_some(bs: Seq<LineNumberRange>, ln: LineNumber)
    requires
        exists|i: int|
            0 <= i < bs.len() && (#[trigger] bs[i]).start.number <= ln.number
                <= bs[i].end.number,
    ensures
        first_containing(bs, ln) is Some,
    decreases bs.len(),
{
    if !(bs[0].start.number <= ln.number <= bs[0].end.number) {
        let wi = choose|i: int|
            0 <= i < bs.len() && (#[trigger] bs[i]).start.number <= ln.number
                <= bs[i].end.number;
        assert(bs.drop_first()[wi - 1] == bs[wi]);
        lemma_first_containing_some(bs.drop_first(), ln);
    }
}

impl LocList {
    /// A range is complete when the lines it names form a complete slice.
    pub open spec fn spec_range_complete(self, range: LineNumberRange) -> bool {
        self.spec_range_exists(range) && is_complete_spec(self.spec_slice(range))
    }

    /// The running state of the block-range scan after `k` lines of the
    /// range: the ranges already cut, and the candidate still being grown.
    pub open spec fn br_fold(self, range: LineNumberRange, k: int) -> (
        Seq<LineNumberRange>,
        Option<LineNumberRange>,
    )
        decreases k,
    {
        if k <= 0 {
            (Seq::empty(), None)
        } else {
            let folded = self.br_fold(range, k - 1);
            let ln = LineNumber { number: (range.start.number + k - 1) as usize };
            let cur = match folded.1 {
                None => LineNumberRange { start: ln, end: ln },
                Some(c) => LineNumberRange { start: c.start, end: ln },
            };
            if self.spec_range_complete(cur) {
                (folded.0.push(cur), None)
            } else {
                (folded.0, Some(cur))
            }
        }
    }

    /// The ranges of the blocks in the given range: the candidate grows
    /// line by line and is cut as soon as it is complete, the next one
    /// starting at the following line; a non-empty remainder becomes a
    /// final, possibly incomplete range.
    pub open spec fn spec_block_ranges(self, range: LineNumberRange) -> Seq<LineNumberRange> {
        let count: int = if range.end.number >= range.start.number {
            range.end.number + 1 - range.start.number
        } else {
            0
        };
        let folded = self.br_fold(range, count);
        match folded.1 {
            Some(c) => folded.0.push(c),
            None => folded.0,
        }
    }

    /// Assuming the provided range you pass is valid enough, give the ranges
    /// of the blocks in it.
    pub fn block_ranges_in_range(&self, range: LineNumberRange) -> (r: Vec<LineNumberRange>)
        requires
            range.wf(),
            range.end.number < usize::MAX,
        ensures
            r@ == self.spec_block_ranges(range),
    {
        let mut blocks: Vec<LineNumberRange> = Vec::new();
        let mut current: Option<LineNumberRange> = None;
        let mut num = range.start.number;
        proof {
            assert(blocks@ =~= self.br_fold(range, 0).0);
        }
        while num <= range.end.number
            invariant
                range.wf(),
                range.start.number <= num,
                num <= range.end.number + 1 || num == range.start.number,
                num <= range.end.number ==> num >= range.start.number,
                range.end.number < usize::MAX,
                (blocks@, current) == self.br_fold(range, num - range.start.number),
                match current {
                    Some(c) => c.wf(),
                    None => true,
                },
            decreases range.end.number + 1 - num,
        {
            let ln = LineNumber { number: num };
            let ghost k = num - range.start.number;
            let cur = match current {
                None => LineNumberRange { start: ln, end: ln },
                Some(c) => LineNumberRange { start: c.start, end: ln },
            };
            if self.is_range_complete(cur) {
                blocks.push(cur);
                current = None;
            } else {
                current = Some(cur);
            }
            proof {
                assert((blocks@, current) == self.br_fold(range, k + 1));
            }
            num += 1;
        }
        match current {
            Some(c) => {
                blocks.push(c);
            },
            None => {},
        }
        blocks
    }

    /// What the block-range scan guarantees: the ranges tile the scanned
    /// range — the first starts at its start, each next one starts right
    /// after the previous one's end, and the last ends at its end.
    pub proof fn lemma_block_ranges_tile(self, range: LineNumberRange)
        requires
            range.wf(),
            range.start.number <= range.end.number,
            range.end.number <= usize::MAX,
        ensures
            ({
                let bs = self.spec_block_ranges(range);
                &&& bs.len() >= 1
                &&& bs[0].start == range.start
                &&& bs[bs.len() - 1].end == range.end
                &&& forall|i: int|
                    0 <= i < bs.len() - 1 ==> (#[trigger] bs[i]).end.number + 1 == bs[i
                        + 1].start.number
                &&& forall|i: int|
                    0 <= i < bs.len() ==> range.start.number <= (
                    #[trigger] bs[i]).start.number <= bs[i].end.number <= range.end.number
            }),
    {
        let count: int = range.end.number + 1 - range.start.number;
        self.lemma_br_fold_props(range, count);
        let folded = self.br_fold(range, count);
        let bs = self.spec_block_ranges(range);
        match folded.1 {
            Some(c) => {
                assert(bs == folded.0.push(c));
                assert forall|i: int|
                    0 <= i < bs.len() - 1 implies (#[trigger] bs[i]).end.number + 1 == bs[i
                        + 1].start.number by {
                    if i < folded.0.len() - 1 {
                        assert(bs[i] == folded.0[i]);
                        assert(bs[i + 1] == folded.0[i + 1]);
                    } else {
                        assert(bs[i] == folded.0.last());
                        assert(bs[i + 1] == c);
                    }
                }
                assert forall|i: int|
                    0 <= i < bs.len() implies range.start.number <= (
                    #[trigger] bs[i]).start.number <= bs[i].end.number
                        <= range.end.number by {
                    if i < folded.0.len() {
                        assert(bs[i] == folded.0[i]);
                    } else {
                        assert(bs[i] == c);
                    }
                }
            },
            None => {},
        }
    }

    /// The invariant of the block-range scan: the cut ranges tile the lines
    /// already seen, and the candidate covers the tail of them.
    proof fn lemma_br_fold_props(self, range: LineNumberRange, k: int)
        requires
            range.wf(),
            1 <= k,
            range.start.number + k - 1 <= usize::MAX,
        ensures
            ({
                let folded = self.br_fold(range, k);
                let bs = folded.0;
                let last_num: int = range.start.number + k - 1;
                &&& (match folded.1 {
                    Some(c) => {
                        &&& c.start.number <= c.end.number == last_num
                        &&& range.start.number <= c.start.number
                        &&& (bs.len() == 0 ==> c.start == range.start)
                        &&& (bs.len() > 0 ==> bs[bs.len() - 1].end.number + 1
                            == c.start.number)
                    },
                    None => bs.len() >= 1 && bs[bs.len() - 1].end.number == last_num,
                })
                &&& (bs.len() > 0 ==> bs[0].start == range.start)
                &&& forall|i: int|
                    0 <= i < bs.len() - 1 ==> (#[trigger] bs[i]).end.number + 1 == bs[i
                        + 1].start.number
                &&& forall|i: int|
                    0 <= i < bs.len() ==> range.start.number <= (
                    #[trigger] bs[i]).start.number <= bs[i].end.number <= last_num
            }),
        decreases k,
    {
        let folded = self.br_fold(range, k);
        let prev = self.br_fold(range, k - 1);
        let ln = LineNumber { number: (range.start.number + k - 1) as usize };
        if k == 1 {
            assert(prev == (Seq::<LineNumberRange>::empty(), Option::<LineNumberRange>::None));
        } else {
            self.lemma_br_fold_props(range, k - 1);
        }
        let cur = match prev.1 {
            None => LineNumberRange { start: ln, end: ln },
            Some(c) => LineNumberRange { start: c.start, end: ln },
        };
        if self.spec_range_complete(cur) {
            assert(folded.0 == prev.0.push(cur));
            assert forall|i: int|
                0 <= i < folded.0.len() - 1 implies (#[trigger] folded.0[i]).end.number + 1
                    == folded.0[i + 1].start.number by {
                if i < prev.0.len() - 1 {
                    assert(folded.0[i] == prev.0[i]);
                    assert(folded.0[i + 1] == prev.0[i + 1]);
                } else {
                    assert(folded.0[i] == prev.0.last());
                    assert(folded.0[i + 1] == cur);
                }
            }
            assert forall|i: int|
                0 <= i < folded.0.len() implies range.start.number <= (
                #[trigger] folded.0[i]).start.number <= folded.0[i].end.number <= range.start.number
                + k - 1 by {
                if i < prev.0.len() {
                    assert(folded.0[i] == prev.0[i]);
                } else {
                    assert(folded.0[i] == cur);
                }
            }
        }
    }

    /// Find the block range the line is part of.
    ///
    /// For example, if you give the opening line of a struct
    /// (i.e. a line like `pub struct Foo {`), you get the whole struct with
    /// its doc comments, annotations, inner fields, till the closing brace,
    /// with the blank lines before, which stick with the block.
    ///
    /// If you give the line of a field, you get the field's own block.
    pub fn block_range_of_line_number(&self, line_number: LineNumber) -> (r: CsResult<
        LineNumberRange,
    >)
        requires
            line_number.wf(),
            self@.len() < usize::MAX,
        ensures
            match self.spec_range_around(line_number.number - 1) {
                Err(e) => r == CsResult::<LineNumberRange>::Err(e),
                Ok(range) => {
                    let blocks = self.spec_block_ranges(range);
                    &&& first_containing(blocks, line_number) is Some
                    &&& r == CsResult::<LineNumberRange>::Ok(
                        first_containing(blocks, line_number)->0,
                    )
                },
            },
    {
        let line_idx = line_number.to_index();
        let range = match self.range_around_line_index(line_idx) {
            Ok(range) => range,
            Err(e) => {
                return Err(e);
            },
        };
        let n = self.locs.len();
        proof {
            assert(self@.len() == n);
            lemma_grow_bounds(self@, self@[line_idx as int].min_depth(), line_idx as int);
            lemma_shrink_bounds(
                self@,
                line_idx as int,
                grow_end(self@, self@[line_idx as int].min_depth(), line_idx as int),
            );
            assert(range.wf());
            assert(range.start.number <= line_number.number <= range.end.number);
            self.lemma_block_ranges_tile(range);
            lemma_tiles_contain(self.spec_block_ranges(range), line_number.number as int);
            lemma_first_containing_some(self.spec_block_ranges(range), line_number);
        }
        let blocks = self.block_ranges_in_range(range);
        let m = blocks.len();
        let mut i: usize = 0;
        proof {
            assert(blocks@.skip(0) =~= blocks@);
        }
        while i < m
            invariant
                i <= m,
                m == blocks@.len(),
                blocks@ == self.spec_block_ranges(range),
                self.spec_range_around(line_number.number - 1) == CsResult::<
                    LineNumberRange,
                >::Ok(range),
                first_containing(blocks@, line_number) == first_containing(
                    blocks@.skip(i as int),
                    line_number,
                ),
            decreases m - i,
        {
            let block = blocks[i];
            proof {
                assert(blocks@.skip(i as int)[0] == blocks@[i as int]);
            }
            if block.contains(line_number) {
                return Ok(block);
            }
            proof {
                assert(blocks@.skip(i as int).drop_first() =~= blocks@.skip(i + 1));
            }
            i += 1;
        }
        // the block ranges tile the resolved range, which holds the line,
        // so the scan above cannot run out
        proof {
            assert(blocks@.skip(m as int).len() == 0);
            assert(self.spec_range_around(line_number.number - 1) == CsResult::<
                LineNumberRange,
            >::Ok(range));
            assert(false);
        }
        vstd::pervasive::unreached()
    }
}

} // verus!
