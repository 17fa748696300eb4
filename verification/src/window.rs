use vstd::prelude::*;
use core::cmp::Ordering;

use crate::block::Block;
use crate::block::BlockV;
use crate::block::spec_block_augment;
use crate::block::spec_block_complete;
use crate::block::spec_block_key;
use crate::block::spec_block_new;
use crate::chars::lex_cmp;
use crate::chars::str_lex_cmp;
use crate::languages::Language;
use crate::line::Line;
use crate::list::List;

verus! {

/// A contiguous run of a list's lines, to be cut into blocks and sorted.
/// Line indices are 0-based.
#[derive(Debug)]
pub struct Window {
    /// The lines of the complete file
    pub list: List,
    /// index in the list of the first line of the window
    pub start: usize,
    /// index of the first not included line, end >= start
    pub end: usize,
}

/// One step of the block scan: the next line either starts a block, or
/// extends the one being grown; a complete run is cut.
pub open spec fn wb_step(
    acc: (Seq<BlockV>, Option<BlockV>),
    lines: Seq<Seq<char>>,
    lang: Language,
    idx: int,
) -> (Seq<BlockV>, Option<BlockV>) {
    match acc.1 {
        None => {
            let b = spec_block_new(lines, lang, idx);
            if spec_block_complete(b) {
                (acc.0.push(b), None)
            } else {
                (acc.0, Some(b))
            }
        },
        Some(b0) => {
            let b = spec_block_augment(b0, lines, lang);
            if spec_block_complete(b) && b.end != b.start {
                (acc.0.push(b), None)
            } else {
                (acc.0, Some(b))
            }
        },
    }
}

/// The state of the block scan after `k` lines of the window.
pub open spec fn wb_fold(lines: Seq<Seq<char>>, lang: Language, start: int, k: int) -> (
    Seq<BlockV>,
    Option<BlockV>,
)
    decreases k,
{
    if k <= 0 {
        (Seq::empty(), None)
    } else {
        wb_step(wb_fold(lines, lang, start, k - 1), lines, lang, start + k - 1)
    }
}

/// Merge one more block: an annotation block glues to the block after it.
pub open spec fn wb_merge_step(acc: Seq<BlockV>, b: BlockV) -> Seq<BlockV> {
    if acc.len() > 0 && (match acc.last().balanced {
        Some(x) => x.is_annotation,
        None => false,
    }) {
        let last = acc.last();
        acc.drop_last().push(
            BlockV {
                code: last.code + b.code,
                balanced: b.balanced,
                start: last.start,
                end: b.end,
                base_indent: b.base_indent,
            },
        )
    } else {
        acc.push(b)
    }
}

/// Merge the first `k` blocks.
pub open spec fn wb_merge(bs: Seq<BlockV>, k: int) -> Seq<BlockV>
    decreases k,
{
    if k <= 0 {
        Seq::empty()
    } else {
        wb_merge_step(wb_merge(bs, k - 1), bs[k - 1])
    }
}

/// The blocks of a window: minimal balanced runs, annotation blocks glued
/// to what follows them.
pub open spec fn spec_window_blocks(
    lines: Seq<Seq<char>>,
    lang: Language,
    start: int,
    end: int,
) -> Seq<BlockV> {
    let folded = wb_fold(lines, lang, start, end - start);
    let bs = if folded.1 is Some {
        folded.0.push(folded.1->0)
    } else {
        folded.0
    };
    wb_merge(bs, bs.len() as int)
}

/// Insert a block into a sorted run, after every block whose key is
/// strictly lower, so that a stable sort results.
pub open spec fn wb_insert(x: BlockV, s: Seq<BlockV>) -> Seq<BlockV>
    decreases s.len(),
{
    if s.len() > 0 && lex_cmp(spec_block_key(s[0]), spec_block_key(x)) == Ordering::Less {
        seq![s[0]] + wb_insert(x, s.drop_first())
    } else {
        seq![x] + s
    }
}

/// Stable sort of a window's blocks by their sort keys.
pub open spec fn spec_sort_wblocks(s: Seq<BlockV>) -> Seq<BlockV>
    decreases s.len(),
{
    if s.len() == 0 {
        Seq::empty()
    } else {
        wb_insert(s[0], spec_sort_wblocks(s.drop_first()))
    }
}

/// A property of single blocks carries through an insertion.
proof fn lemma_wb_insert_pred(x: BlockV, s: Seq<BlockV>, pred: spec_fn(BlockV) -> bool)
    requires
        pred(x),
        forall|i: int| 0 <= i < s.len() ==> pred(#[trigger] s[i]),
    ensures
        forall|i: int| 0 <= i < wb_insert(x, s).len() ==> pred(#[trigger] wb_insert(x, s)[i]),
    decreases s.len(),
{
    if s.len() > 0 && lex_cmp(spec_block_key(s[0]), spec_block_key(x)) == Ordering::Less {
        assert forall|i: int| 0 <= i < s.drop_first().len() implies pred(
            #[trigger] s.drop_first()[i],
        ) by {
            assert(s.drop_first()[i] == s[i + 1]);
        }
        lemma_wb_insert_pred(x, s.drop_first(), pred);
        let r = wb_insert(x, s);
        assert forall|i: int| 0 <= i < r.len() implies pred(#[trigger] r[i]) by {
            if i > 0 {
                assert(r[i] == wb_insert(x, s.drop_first())[i - 1]);
            }
        }
    } else {
        let r = wb_insert(x, s);
        assert forall|i: int| 0 <= i < r.len() implies pred(#[trigger] r[i]) by {
            if i > 0 {
                assert(r[i] == s[i - 1]);
            }
        }
    }
}

/// A property of single blocks carries through the sort.
pub proof fn lemma_wsort_pred(s: Seq<BlockV>, pred: spec_fn(BlockV) -> bool)
    requires
        forall|i: int| 0 <= i < s.len() ==> pred(#[trigger] s[i]),
    ensures
        forall|i: int|
            0 <= i < spec_sort_wblocks(s).len() ==> pred(#[trigger] spec_sort_wblocks(s)[i]),
    decreases s.len(),
{
    if s.len() > 0 {
        assert forall|i: int| 0 <= i < s.drop_first().len() implies pred(
            #[trigger] s.drop_first()[i],
        ) by {
            assert(s.drop_first()[i] == s[i + 1]);
        }
        lemma_wsort_pred(s.drop_first(), pred);
        lemma_wb_insert_pred(s[0], spec_sort_wblocks(s.drop_first()), pred);
    }
}

/// The view of a vector of blocks
pub open spec fn wblocks_view(s: Seq<Block>) -> Seq<BlockV> {
    s.map_values(|b: Block| b@)
}

/// The contents of the given block ranges, in order.
pub open spec fn ranges_contents(lines: Seq<Seq<char>>, bs: Seq<BlockV>) -> Seq<Seq<char>>
    decreases bs.len(),
{
    if bs.len() == 0 {
        Seq::empty()
    } else {
        ranges_contents(lines, bs.drop_last()) + lines.subrange(bs.last().start, bs.last().end)
    }
}

impl Window {
    /// The window frames a real slice of the list.
    pub open spec fn wf(self) -> bool {
        &&& self.start <= self.end <= self.list@.len()
        &&& self.list.wf()
    }

    pub fn len(&self) -> (r: usize)
        requires
            self.start <= self.end,
        ensures
            r == self.end - self.start,
    {
        self.end - self.start
    }

    pub fn is_empty(&self) -> (r: bool)
        ensures
            r == (self.end <= self.start),
    {
        self.end <= self.start
    }

    pub fn range(&self) -> (r: core::ops::Range<usize>)
        ensures
            r.start == self.start,
            r.end == self.end,
    {
        self.start..self.end
    }

    /// Cut the window into blocks: lines accumulate into a run that is cut
    /// when its text balances and may close a unit, and every annotation
    /// block is glued to the block after it.
    pub fn blocks(&self) -> (r: Vec<Block>)
        requires
            self.wf(),
        ensures
            wblocks_view(r@) == spec_window_blocks(
                self.list@,
                self.list.lang,
                self.start as int,
                self.end as int,
            ),
            forall|i: int|
                0 <= i < r@.len() ==> self.start <= (#[trigger] r@[i])@.start <= r@[i]@.end
                    <= self.end,
    {
        let ghost lines = self.list@;
        let ghost lang = self.list.lang;
        let mut blocks: Vec<Block> = Vec::new();
        let mut current: Option<Block> = None;
        let mut line_idx = self.start;
        proof {
            assert(wblocks_view(blocks@) =~= wb_fold(lines, lang, self.start as int, 0).0);
        }
        while line_idx < self.end
            invariant
                self.start <= line_idx <= self.end,
                self.wf(),
                lines == self.list@,
                lang == self.list.lang,
                ({
                    let folded = wb_fold(
                        lines,
                        lang,
                        self.start as int,
                        line_idx - self.start,
                    );
                    &&& wblocks_view(blocks@) == folded.0
                    &&& match current {
                        Some(b) => folded.1 == Some(b@) && self.start <= b@.start < b@.end
                            == line_idx,
                        None => folded.1 is None,
                    }
                    &&& forall|i: int|
                        0 <= i < blocks@.len() ==> self.start <= (#[trigger] blocks@[i])@.start
                            < blocks@[i]@.end <= line_idx
                    &&& forall|i: int|
                        0 <= i < blocks@.len() - 1 ==> (#[trigger] blocks@[i])@.end == blocks@[i
                            + 1]@.start
                    &&& (match current {
                        Some(b) => blocks@.len() > 0 ==> blocks@[blocks@.len() - 1]@.end
                            == b@.start,
                        None => blocks@.len() > 0 ==> blocks@[blocks@.len() - 1]@.end == line_idx,
                    })
                }),
            decreases self.end - line_idx,
        {
            let ghost prevb = wblocks_view(blocks@);
            match current {
                None => {
                    let block = Block::new(line_idx, &self.list);
                    if block.is_complete() {
                        blocks.push(block);
                        proof {
                            assert(wblocks_view(blocks@) =~= prevb.push(block@));
                        }
                        current = None;
                    } else {
                        current = Some(block);
                    }
                },
                Some(block) => {
                    let mut block = block;
                    block.augment(&self.list);
                    if block.is_complete() && !block.is_empty() {
                        blocks.push(block);
                        proof {
                            assert(wblocks_view(blocks@) =~= prevb.push(
                                wb_fold(
                                    lines,
                                    lang,
                                    self.start as int,
                                    line_idx + 1 - self.start,
                                ).0.last(),
                            ));
                        }
                        current = None;
                    } else {
                        current = Some(block);
                    }
                },
            }
            line_idx += 1;
        }
        // before returning, we merge annotation blocks
        let ghost unmerged = if wb_fold(
            lines,
            lang,
            self.start as int,
            self.end - self.start,
        ).1 is Some {
            wb_fold(lines, lang, self.start as int, self.end - self.start).0.push(
                wb_fold(lines, lang, self.start as int, self.end - self.start).1->0,
            )
        } else {
            wb_fold(lines, lang, self.start as int, self.end - self.start).0
        };
        match current {
            Some(block) => {
                let ghost prevb = wblocks_view(blocks@);
                blocks.push(block);
                proof {
                    assert(wblocks_view(blocks@) =~= prevb.push(block@));
                }
            },
            None => {},
        }
        proof {
            assert(wblocks_view(blocks@) == unmerged);
            assert(forall|i: int|
                0 <= i < unmerged.len() ==> self.start <= (#[trigger] unmerged[i]).start
                    < unmerged[i].end <= self.end);
            assert(forall|i: int|
                0 <= i < unmerged.len() - 1 ==> (#[trigger] unmerged[i]).end == unmerged[i
                    + 1].start);
        }
        let n = blocks.len();
        let mut merged: Vec<Block> = Vec::new();
        let mut k: usize = 0;
        let mut rest = blocks;
        proof {
            assert(wblocks_view(merged@) =~= wb_merge(unmerged, 0));
        }
        while k < n
            invariant
                k <= n,
                n == unmerged.len(),
                wblocks_view(rest@) == unmerged.skip(k as int),
                wblocks_view(merged@) == wb_merge(unmerged, k as int),
                forall|i: int|
                    0 <= i < unmerged.len() ==> self.start <= (#[trigger] unmerged[i]).start
                        < unmerged[i].end <= self.end,
                forall|i: int|
                    0 <= i < unmerged.len() - 1 ==> (#[trigger] unmerged[i]).end == unmerged[i
                        + 1].start,
                self.start <= self.end,
                k == 0 ==> merged@.len() == 0,
                k > 0 && merged@.len() > 0 ==> merged@[merged@.len() - 1]@.end == unmerged[k
                    - 1].end,
                forall|i: int|
                    0 <= i < merged@.len() ==> self.start <= (#[trigger] merged@[i])@.start
                        <= merged@[i]@.end <= self.end,
            decreases n - k,
        {
            let ghost restv = wblocks_view(rest@);
            proof {
                assert(restv.len() == rest@.len());
            }
            let mut block = rest.remove(0);
            proof {
                assert(restv[0] == block@);
                assert(restv[0] == unmerged.skip(k as int)[0]);
                assert(unmerged.skip(k as int)[0] == unmerged[k as int]);
                assert(wblocks_view(rest@) =~= restv.drop_first());
                assert(restv.drop_first() =~= unmerged.skip(k + 1));
            }
            let merge_with_last = match merged.len() {
                0 => false,
                ml => {
                    let last = &merged[ml - 1];
                    last.is_annotation()
                },
            };
            let ghost mprev = wblocks_view(merged@);
            if merge_with_last {
                let last = match merged.pop() {
                    Some(l) => l,
                    None => {
                        proof {
                            assert(false);
                        }
                        vstd::pervasive::unreached()
                    },
                };
                proof {
                    assert(last@ == mprev.last());
                    assert(wblocks_view(merged@) =~= mprev.drop_last());
                }
                block.start = last.start;
                let mut code = last.code;
                code.append(block.code.as_str());
                block.code = code;
                let ghost m2 = wblocks_view(merged@);
                merged.push(block);
                proof {
                    assert(wblocks_view(merged@) =~= m2.push(block@));
                }
            } else {
                merged.push(block);
                proof {
                    assert(wblocks_view(merged@) =~= mprev.push(block@));
                }
            }
            k += 1;
        }
        proof {
            assert(wblocks_view(rest@).len() == rest@.len());
        }
        merged
    }

    /// Sort the given blocks, stably, by their sort keys.
    pub fn sort_blocks(&self, blocks: &mut Vec<Block>)
        ensures
            wblocks_view(final (blocks)@) == spec_sort_wblocks(wblocks_view(old(blocks)@)),
    {
        let ghost orig = wblocks_view(blocks@);
        let mut rest: Vec<Block> = Vec::new();
        core::mem::swap(&mut rest, blocks);
        let mut i = rest.len();
        proof {
            assert(orig.skip(i as int) =~= Seq::<BlockV>::empty());
            assert(wblocks_view(blocks@) =~= Seq::<BlockV>::empty());
            assert(wblocks_view(rest@) =~= orig.take(i as int));
        }
        while i > 0
            invariant
                i == rest@.len(),
                i <= orig.len(),
                wblocks_view(rest@) == orig.take(i as int),
                wblocks_view(blocks@) == spec_sort_wblocks(orig.skip(i as int)),
            decreases i,
        {
            let x = match rest.pop() {
                Some(x) => x,
                None => {
                    proof {
                        assert(false);
                    }
                    vstd::pervasive::unreached()
                },
            };
            proof {
                assert(orig.take(i as int)[i - 1] == orig[i - 1]);
                assert(orig[i - 1] == x@);
                assert(orig.skip(i - 1)[0] == orig[i - 1]);
                assert(orig.skip(i - 1).drop_first() =~= orig.skip(i as int));
                assert(wblocks_view(rest@) =~= orig.take(i - 1));
            }
            insert_wblock(x, blocks);
            i -= 1;
        }
        proof {
            assert(orig.skip(0) =~= orig);
        }
    }

    /// Sort the window: cut it into blocks, order them by their keys, and
    /// rebuild the list with the lines before and after the window kept in
    /// place.
    pub fn sort(self) -> (r: List)
        requires
            self.wf(),
        ensures
            r@ == self.list@.take(self.start as int) + ranges_contents(
                self.list@,
                spec_sort_wblocks(
                    spec_window_blocks(
                        self.list@,
                        self.list.lang,
                        self.start as int,
                        self.end as int,
                    ),
                ),
            ) + self.list@.skip(self.end as int),
            r.wf(),
            r.lang == self.list.lang,
    {
        let ghost linesv = self.list@;
        let mut blocks = self.blocks();
        self.sort_blocks(&mut blocks);
        let ghost sorted = spec_sort_wblocks(
            spec_window_blocks(self.list@, self.list.lang, self.start as int, self.end as int),
        );
        proof {
            let pred = |b: BlockV| self.start <= b.start <= b.end <= self.end;
            lemma_wsort_pred(
                spec_window_blocks(
                    self.list@,
                    self.list.lang,
                    self.start as int,
                    self.end as int,
                ),
                pred,
            );
            assert(forall|i: int|
                0 <= i < sorted.len() ==> self.start <= (#[trigger] sorted[i]).start
                    <= sorted[i].end <= self.end);
        }
        let mut lines: Vec<Line> = Vec::new();
        let mut i: usize = 0;
        proof {
            assert(lines@.map_values(|l: Line| l@) =~= linesv.take(0));
        }
        while i < self.start
            invariant
                i <= self.start,
                self.wf(),
                linesv == self.list@,
                lines@.map_values(|l: Line| l@) == linesv.take(i as int),
                forall|j: int| 0 <= j < lines@.len() ==> (#[trigger] lines@[j]).wf(),
            decreases self.start - i,
        {
            let ghost prev = lines@.map_values(|l: Line| l@);
            lines.push(dup_line(&self.list.lines[i]));
            proof {
                assert(lines@.map_values(|l: Line| l@) =~= prev.push(linesv[i as int]));
                assert(prev.push(linesv[i as int]) =~= linesv.take(i + 1));
            }
            i += 1;
        }
        let nblocks = blocks.len();
        let mut bi: usize = 0;
        let ghost before_v = linesv.take(self.start as int);
        proof {
            assert(ranges_contents(linesv, sorted.take(0)) =~= Seq::<Seq<char>>::empty());
            assert(before_v + ranges_contents(linesv, sorted.take(0)) =~= before_v);
        }
        while bi < nblocks
            invariant
                bi <= nblocks,
                nblocks == sorted.len(),
                self.wf(),
                linesv == self.list@,
                before_v == linesv.take(self.start as int),
                wblocks_view(blocks@) == sorted,
                forall|i2: int|
                    0 <= i2 < sorted.len() ==> self.start <= (#[trigger] sorted[i2]).start
                        <= sorted[i2].end <= self.end,
                lines@.map_values(|l: Line| l@) == before_v + ranges_contents(
                    linesv,
                    sorted.take(bi as int),
                ),
                forall|j: int| 0 <= j < lines@.len() ==> (#[trigger] lines@[j]).wf(),
            decreases nblocks - bi,
        {
            let bstart = blocks[bi].start;
            let bend = blocks[bi].end;
            proof {
                assert(blocks@[bi as int]@ == sorted[bi as int]);
            }
            let mut j = bstart;
            let ghost base = lines@.map_values(|l: Line| l@);
            while j < bend
                invariant
                    bstart <= j <= bend,
                    self.wf(),
                    linesv == self.list@,
                    bstart == sorted[bi as int].start,
                    bend == sorted[bi as int].end,
                    0 <= bi < sorted.len(),
                    self.start <= bstart <= bend <= self.end,
                    lines@.map_values(|l: Line| l@) == base + linesv.subrange(
                        bstart as int,
                        j as int,
                    ),
                    forall|j2: int| 0 <= j2 < lines@.len() ==> (#[trigger] lines@[j2]).wf(),
                decreases bend - j,
            {
                let ghost prev = lines@.map_values(|l: Line| l@);
                lines.push(dup_line(&self.list.lines[j]));
                proof {
                    assert(lines@.map_values(|l: Line| l@) =~= prev.push(linesv[j as int]));
                    assert(prev.push(linesv[j as int]) =~= base + linesv.subrange(
                        bstart as int,
                        j + 1,
                    ));
                }
                j += 1;
            }
            proof {
                assert(ranges_contents(linesv, sorted.take(bi + 1)) == ranges_contents(
                    linesv,
                    sorted.take(bi as int),
                ) + linesv.subrange(sorted[bi as int].start, sorted[bi as int].end)) by {
                    assert(sorted.take(bi + 1).drop_last() =~= sorted.take(bi as int));
                    assert(sorted.take(bi + 1).last() == sorted[bi as int]);
                }
                assert((before_v + ranges_contents(linesv, sorted.take(bi as int))) + linesv.subrange(
                    bstart as int,
                    bend as int,
                ) =~= before_v + ranges_contents(linesv, sorted.take(bi + 1)));
            }
            bi += 1;
        }
        proof {
            assert(sorted.take(nblocks as int) =~= sorted);
        }
        let total = self.list.lines.len();
        let mut j = self.end;
        let ghost mid_v = before_v + ranges_contents(linesv, sorted);
        while j < total
            invariant
                self.end <= j <= total,
                total == linesv.len(),
                self.wf(),
                linesv == self.list@,
                lines@.map_values(|l: Line| l@) == mid_v + linesv.subrange(
                    self.end as int,
                    j as int,
                ),
                forall|j2: int| 0 <= j2 < lines@.len() ==> (#[trigger] lines@[j2]).wf(),
            decreases total - j,
        {
            let ghost prev = lines@.map_values(|l: Line| l@);
            lines.push(dup_line(&self.list.lines[j]));
            proof {
                assert(lines@.map_values(|l: Line| l@) =~= prev.push(linesv[j as int]));
                assert(prev.push(linesv[j as int]) =~= mid_v + linesv.subrange(
                    self.end as int,
                    j + 1,
                ));
            }
            j += 1;
        }
        proof {
            assert(linesv.subrange(self.end as int, total as int) =~= linesv.skip(
                self.end as int,
            ));
        }
        let r = List { lines, lang: self.list.lang };
        proof {
            assert(r@ =~= mid_v + linesv.skip(self.end as int));
            assert((before_v + ranges_contents(linesv, sorted)) + linesv.skip(self.end as int)
                =~= before_v + ranges_contents(linesv, sorted) + linesv.skip(self.end as int));
        }
        r
    }
}

/// An exact copy of a line.
fn dup_line(l: &Line) -> (r: Line)
    ensures
        r == *l,
{
    Line { content: l.content.clone(), indent: l.indent, inner_end: l.inner_end }
}

/// Insert one block into an already sorted vector of blocks.
fn insert_wblock(x: Block, out: &mut Vec<Block>)
    ensures
        wblocks_view(final (out)@) == wb_insert(x@, wblocks_view(old(out)@)),
{
    let ghost orig = wblocks_view(out@);
    let n = out.len();
    let mut j: usize = 0;
    proof {
        assert(orig.skip(0) =~= orig);
    }
    while j < n && wblock_is_less(&out[j], &x)
        invariant
            j <= n,
            n == out@.len(),
            orig == wblocks_view(out@),
            wb_insert(x@, orig) =~= orig.take(j as int) + wb_insert(x@, orig.skip(j as int)),
        decreases n - j,
    {
        proof {
            assert(orig.skip(j as int)[0] == orig[j as int]);
            assert(orig[j as int] == out@[j as int]@);
            assert(orig.skip(j as int).drop_first() =~= orig.skip(j + 1));
            assert(orig.take(j as int) + (seq![orig[j as int]] + wb_insert(
                x@,
                orig.skip(j + 1),
            )) =~= orig.take(j + 1) + wb_insert(x@, orig.skip(j + 1)));
        }
        j += 1;
    }
    proof {
        if j < n {
            assert(orig.skip(j as int)[0] == orig[j as int]);
            assert(orig[j as int] == out@[j as int]@);
        } else {
            assert(orig.skip(j as int).len() == 0);
        }
        assert(wb_insert(x@, orig.skip(j as int)) == seq![x@] + orig.skip(j as int));
    }
    out.insert(j, x);
    proof {
        assert(wblocks_view(out@) =~= orig.take(j as int) + (seq![x@] + orig.skip(j as int)));
    }
}

/// Whether the first block's key sorts strictly before the second's.
fn wblock_is_less(a: &Block, b: &Block) -> (r: bool)
    ensures
        r == (lex_cmp(spec_block_key(a@), spec_block_key(b@)) == Ordering::Less),
{
    match str_lex_cmp(a.sort_key(), b.sort_key()) {
        Ordering::Less => true,
        _ => false,
    }
}

} // verus!
