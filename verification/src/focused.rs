use vstd::prelude::*;

use crate::loc::Loc;
use crate::loc::LocV;
use crate::loc_list::LocList;
use crate::loc_list::flatten_blocks;
use crate::loc_list::spec_partition;
use crate::order::blocks_view;
use crate::order::sort_blocks;
use crate::order::spec_sort_blocks;
use crate::spacing::Spacing;
use crate::spacing::spec_apply;
use crate::spacing::spec_recognize;

verus! {

/// A list of lines split in three parts: only the middle one is sorted.
#[derive(Debug, Clone)]
pub struct Focused {
    pub before: LocList,
    pub focus: LocList,
    pub after: LocList,
}

/// What sorting a focused list yields: the focused part is cut into minimal
/// complete blocks, the blocks are sorted stably by their sortable lines'
/// keys, the blank-line convention recognized on the original blocks is
/// repaired, and the three parts are joined back.
pub open spec fn spec_focused_sort(before: Seq<LocV>, focus: Seq<LocV>, after: Seq<LocV>) -> Seq<
    LocV,
> {
    let blocks = spec_partition(focus);
    let spacing = spec_recognize(blocks);
    let repaired = spec_apply(spacing, spec_sort_blocks(blocks));
    before + flatten_blocks(repaired) + after
}

impl Focused {
    pub fn sort(self) -> (r: LocList)
        ensures
            r@ == spec_focused_sort(self.before@, self.focus@, self.after@),
    {
        let Focused { before, focus, after } = self;
        let ghost before_v = before@;
        let ghost focus_v = focus@;
        let ghost after_v = after@;
        let blocks = focus.into_blocks();
        let spacing = Spacing::recognize(blocks.as_slice());
        let mut blocks = sort_blocks(blocks);
        spacing.apply(&mut blocks);
        let ghost repaired = blocks_view(blocks@);
        let mut locs = before.locs;
        proof {
            assert(locs@.map_values(|l: Loc| l@) == before_v);
            assert(flatten_blocks(repaired.take(0)) =~= Seq::<LocV>::empty());
            assert(before_v + flatten_blocks(repaired.take(0)) =~= before_v);
        }
        let n = blocks.len();
        let mut i: usize = 0;
        let mut rest = blocks;
        while i < n
            invariant
                i <= n,
                n == repaired.len(),
                blocks_view(rest@) == repaired.skip(i as int),
                locs@.map_values(|l: Loc| l@) == before_v + flatten_blocks(
                    repaired.take(i as int),
                ),
            decreases n - i,
        {
            let ghost rv = blocks_view(rest@);
            proof {
                assert(rv.len() == rest@.len());
            }
            let mut b = rest.remove(0);
            proof {
                assert(rv[0] == b@);
                assert(b@ == repaired.skip(i as int)[0]);
                assert(repaired.skip(i as int)[0] == repaired[i as int]);
                assert(blocks_view(rest@) =~= rv.drop_first());
                assert(rv.drop_first() =~= repaired.skip(i + 1));
                assert(b@ == b.locs@.map_values(|l: Loc| l@));
            }
            let ghost locs_prev = locs@.map_values(|l: Loc| l@);
            locs.append(&mut b.locs);
            proof {
                assert(locs@.map_values(|l: Loc| l@) =~= locs_prev + repaired[i as int]);
                assert(repaired.take(i + 1).drop_last() =~= repaired.take(i as int));
                assert(repaired.take(i + 1).last() == repaired[i as int]);
                assert((before_v + flatten_blocks(repaired.take(i as int))) + repaired[i as int]
                    =~= before_v + (flatten_blocks(repaired.take(i as int)) + repaired[i as int]));
            }
            i += 1;
        }
        proof {
            assert(repaired.take(n as int) =~= repaired);
        }
        let mut after_locs = after.locs;
        proof {
            assert(after_locs@.map_values(|l: Loc| l@) == after_v);
        }
        let ghost locs_prev = locs@.map_values(|l: Loc| l@);
        locs.append(&mut after_locs);
        let r = LocList { locs };
        proof {
            assert(r@ =~= locs_prev + after_v);
            assert((before_v + flatten_blocks(repaired)) + after_v =~= before_v + flatten_blocks(
                repaired,
            ) + after_v);
        }
        r
    }
}

} // verus!
