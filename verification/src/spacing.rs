use vstd::prelude::*;

use crate::loc::Loc;
use crate::loc::LocV;
use crate::loc_list::LocList;
use crate::loc_list::blank_prefix_len;
use crate::order::blocks_view;

verus! {

/// The kind of spacing between blocks
///
/// We're only interested, for now, in the specific "Between" kind, which
/// is the only one which is broken by raw sorting.
#[derive(Debug, Clone, Copy, PartialEq, Eq, Structural)]
pub enum Spacing {
    /// at least one blank line between every two blocks, and none
    /// before the first one
    Between,
    Other,
}

/// The recognized spacing: `Between` when the first block has no leading
/// blank line and every other block has at least one.
pub open spec fn spec_recognize(blocks: Seq<Seq<LocV>>) -> Spacing {
    if blocks.len() == 0 {
        Spacing::Other
    } else if blank_prefix_len(blocks[0]) > 0 {
        Spacing::Other
    } else if forall|i: int| 1 <= i < blocks.len() ==> blank_prefix_len(#[trigger] blocks[i]) > 0 {
        Spacing::Between
    } else {
        Spacing::Other
    }
}

/// The first block at or after `from` with no leading blank line.
pub open spec fn first_without_blanks(blocks: Seq<Seq<LocV>>, from: int) -> Option<int>
    decreases blocks.len() - from,
{
    if from < 0 || from >= blocks.len() {
        None
    } else if blank_prefix_len(blocks[from]) == 0 {
        Some(from)
    } else {
        first_without_blanks(blocks, from + 1)
    }
}

/// What the repair pass does: under the `Between` convention, the blank
/// lines wrongly leading the first block move to the front of the first
/// later block that has none (in reverse order, one line at a time); when
/// every later block already has one, the run is dropped with the repair.
pub open spec fn spec_apply(sp: Spacing, blocks: Seq<Seq<LocV>>) -> Seq<Seq<LocV>> {
    match sp {
        Spacing::Other => blocks,
        Spacing::Between => {
            if blocks.len() == 0 {
                blocks
            } else {
                let k = blank_prefix_len(blocks[0]);
                if k == 0 {
                    blocks
                } else {
                    let blanks = blocks[0].take(k);
                    let trimmed = blocks.update(0, blocks[0].skip(k));
                    match first_without_blanks(trimmed, 1) {
                        None => trimmed,
                        Some(j) => trimmed.update(j, blanks.reverse() + trimmed[j]),
                    }
                }
            }
        },
    }
}

/// The leading blank run is never longer than the block.
pub proof fn lemma_blank_prefix_le_len(s: Seq<LocV>)
    ensures
        0 <= blank_prefix_len(s) <= s.len(),
        forall|i: int| 0 <= i < blank_prefix_len(s) ==> (#[trigger] s[i]).is_blank(),
    decreases s.len(),
{
    if s.len() > 0 && s[0].is_blank() {
        lemma_blank_prefix_le_len(s.drop_first());
        assert forall|i: int| 0 <= i < blank_prefix_len(s) implies (#[trigger] s[i]).is_blank() by {
            if i > 0 {
                assert(s.drop_first()[i - 1] == s[i]);
            }
        }
    }
}

/// Dropping lines off the front of a blank run shortens it by as much.
pub proof fn lemma_blank_prefix_skip(s: Seq<LocV>, k: int)
    requires
        0 <= k <= blank_prefix_len(s),
    ensures
        blank_prefix_len(s.skip(k)) == blank_prefix_len(s) - k,
    decreases k,
{
    lemma_blank_prefix_le_len(s);
    if k > 0 {
        assert(s.drop_first() =~= s.skip(1));
        assert(s.skip(1).skip(k - 1) =~= s.skip(k));
        lemma_blank_prefix_skip(s.skip(1), k - 1);
    } else {
        assert(s.skip(0) =~= s);
    }
}


/// Where some later block lacks a leading blank line, the scan finds the
/// first one.
pub proof fn lemma_fwb_some(blocks: Seq<Seq<LocV>>, from: int, i: int)
    requires
        0 <= from <= i < blocks.len(),
        blank_prefix_len(blocks[i]) == 0,
    ensures
        first_without_blanks(blocks, from) is Some,
        ({
            let j = first_without_blanks(blocks, from)->0;
            &&& from <= j < blocks.len()
            &&& blank_prefix_len(blocks[j]) == 0
            &&& forall|m: int| from <= m < j ==> blank_prefix_len(#[trigger] blocks[m]) > 0
        }),
    decreases blocks.len() - from,
{
    lemma_blank_prefix_le_len(blocks[from]);
    if blank_prefix_len(blocks[from]) != 0 {
        lemma_fwb_some(blocks, from + 1, if i == from { i + 1 } else { i });
        assert(i != from);
    }
}

impl Spacing {
    /// Recognize the convention on a pre-sort block list.
    pub fn recognize(blocks: &[LocList]) -> (r: Spacing)
        ensures
            r == spec_recognize(blocks_view(blocks@)),
    {
        let n = blocks.len();
        if n == 0 {
            return Spacing::Other;
        }
        proof {
            assert(blocks_view(blocks@)[0] == blocks@[0]@);
        }
        if blocks[0].count_blank_lines_at_start() > 0 {
            return Spacing::Other;
        }
        let mut i: usize = 1;
        while i < n
            invariant
                1 <= i <= n,
                n == blocks@.len(),
                blank_prefix_len(blocks_view(blocks@)[0]) == 0,
                forall|j: int|
                    1 <= j < i ==> blank_prefix_len(#[trigger] blocks_view(blocks@)[j]) > 0,
            decreases n - i,
        {
            if blocks[i].count_blank_lines_at_start() == 0 {
                proof {
                    assert(blocks_view(blocks@)[i as int] == blocks@[i as int]@);
                    assert(blank_prefix_len(blocks_view(blocks@)[i as int]) == 0);
                }
                return Spacing::Other;
            }
            proof {
                assert(blocks_view(blocks@)[i as int] == blocks@[i as int]@);
            }
            i += 1;
        }
        Spacing::Between
    }

    /// Repair the spacing after a sort: move the blank-line run now wrongly
    /// leading the first block to the first later block that lacks one.
    pub fn apply(self, blocks: &mut Vec<LocList>)
        ensures
            blocks_view(final (blocks)@) == spec_apply(self, blocks_view(old(blocks)@)),
    {
        let ghost orig = blocks_view(old(blocks)@);
        match self {
            Spacing::Other => {},
            Spacing::Between => {
                if blocks.len() == 0 {
                    return ;
                }
                let count = blocks[0].count_blank_lines_at_start();
                if count == 0 {
                    return ;
                }
                proof {
                    lemma_blank_prefix_le_len(orig[0]);
                }
                let mut first = blocks.remove(0);
                let ghost first0 = first@;
                proof {
                    assert(first0 == orig[0]);
                }
                let mut blanks: Vec<Loc> = Vec::new();
                let mut i: usize = 0;
                proof {
                    assert(first0.take(0) =~= Seq::<LocV>::empty());
                    assert(first0.skip(0) =~= first0);
                    assert(blanks@.map_values(|l: Loc| l@) =~= Seq::<LocV>::empty());
                }
                while i < count
                    invariant
                        i <= count,
                        count <= first0.len(),
                        first@ == first0.skip(i as int),
                        blanks@.map_values(|l: Loc| l@) == first0.take(i as int),
                    decreases count - i,
                {
                    let ghost blanks0 = blanks@.map_values(|l: Loc| l@);
                    let ghost oldlocs = first.locs@;
                    proof {
                        assert(first@.len() == first0.len() - i);
                        assert(first@ == first.locs@.map_values(|x: Loc| x@));
                        assert(first.locs@.len() == first@.len());
                    }
                    let l = first.locs.remove(0);
                    blanks.push(l);
                    proof {
                        assert(l == oldlocs[0]);
                        assert(first0.skip(i as int) == oldlocs.map_values(|x: Loc| x@));
                        assert(oldlocs.map_values(|x: Loc| x@)[0] == l@);
                        assert(l@ == first0[i as int]) by {
                            assert(first0.skip(i as int)[0] == first0[i as int]);
                        }
                        assert(first@ =~= first0.skip(i as int).drop_first());
                        assert(first0.skip(i as int).drop_first() =~= first0.skip(i + 1));
                        assert(blanks@.map_values(|x: Loc| x@) =~= blanks0.push(l@));
                        assert(blanks0.push(l@) =~= first0.take(i + 1));
                    }
                    i += 1;
                }
                blocks.insert(0, first);
                let ghost trimmed = blocks_view(blocks@);
                proof {
                    assert(trimmed =~= orig.update(0, orig[0].skip(count as int)));
                }
                let n = blocks.len();
                let mut j: usize = 1;
                proof {
                    assert(trimmed.len() == orig.len() >= 1);
                }
                while j < n
                    invariant
                        1 <= j <= n,
                        n == blocks@.len(),
                        self == Spacing::Between,
                        trimmed == blocks_view(blocks@),
                        orig == blocks_view(old(blocks)@),
                        orig.len() == n,
                        count == blank_prefix_len(orig[0]),
                        0 < count <= orig[0].len(),
                        trimmed == orig.update(0, orig[0].skip(count as int)),
                        blanks@.map_values(|l: Loc| l@) == orig[0].take(count as int),
                        first_without_blanks(trimmed, 1) == first_without_blanks(trimmed, j as int),
                    decreases n - j,
                {
                    if blocks[j].count_blank_lines_at_start() == 0 {
                        let mut target = blocks.remove(j);
                        let ghost target0 = target@;
                        let ghost blanks_v = blanks@.map_values(|l: Loc| l@);
                        let total = blanks.len();
                        let mut bi: usize = 0;
                        proof {
                            assert(blanks_v.take(0) =~= Seq::<LocV>::empty());
                            assert(blanks_v.take(0).reverse() =~= Seq::<LocV>::empty());
                            assert(Seq::<LocV>::empty() + target0 =~= target0);
                            assert(blanks@.map_values(|l: Loc| l@) =~= blanks_v.skip(0));
                        }
                        while bi < total
                            invariant
                                bi <= total,
                                total == blanks_v.len(),
                                blanks@.map_values(|l: Loc| l@) == blanks_v.skip(bi as int),
                                target@ == blanks_v.take(bi as int).reverse() + target0,
                            decreases total - bi,
                        {
                            let ghost tprev = target@;
                            let ghost boldlocs = blanks@;
                            proof {
                                assert(blanks@.map_values(|x: Loc| x@).len() == blanks@.len());
                                assert(blanks@.len() == blanks_v.len() - bi);
                            }
                            let l = blanks.remove(0);
                            let ghost tlocs_prev = target.locs@;
                            proof {
                                assert(tprev == tlocs_prev.map_values(|x: Loc| x@));
                            }
                            target.locs.insert(0, l);
                            proof {
                                assert(l == boldlocs[0]);
                                assert(boldlocs.map_values(|x: Loc| x@)[0] == l@);
                                assert(l@ == blanks_v[bi as int]) by {
                                    assert(blanks_v.skip(bi as int)[0] == blanks_v[bi as int]);
                                }
                                assert(blanks@.map_values(|x: Loc| x@) =~= blanks_v.skip(
                                    bi as int,
                                ).drop_first());
                                assert(blanks_v.skip(bi as int).drop_first() =~= blanks_v.skip(
                                    bi + 1,
                                ));
                                assert(target@ =~= seq![l@] + tprev);
                                assert(blanks_v.take(bi + 1).reverse() =~= seq![blanks_v[bi as int]]
                                    + blanks_v.take(bi as int).reverse());
                                assert(seq![l@] + (blanks_v.take(bi as int).reverse() + target0)
                                    =~= (seq![blanks_v[bi as int]] + blanks_v.take(
                                    bi as int,
                                ).reverse()) + target0);
                            }
                            bi += 1;
                        }
                        proof {
                            assert(blanks_v.take(total as int) =~= blanks_v);
                        }
                        blocks.insert(j, target);
                        proof {
                            assert(blocks_view(blocks@) =~= trimmed.update(
                                j as int,
                                blanks_v.reverse() + trimmed[j as int],
                            ));
                            assert(blanks_v =~= orig[0].take(count as int));
                        }
                        return ;
                    }
                    j += 1;
                }
                assert(first_without_blanks(trimmed, n as int) is None);
            },
        }
    }
}

} // verus!
