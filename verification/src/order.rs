use vstd::prelude::*;
use core::cmp::Ordering;

use crate::chars::lex_cmp;
use crate::chars::str_lex_cmp;
use crate::loc::LocV;
use crate::loc_list::LocList;

verus! {

/// How two blocks compare: walk both block's lines with independent
/// cursors, skip non-sortable lines, and compare the sort keys of the
/// facing sortable lines lexicographically; a block whose sortable lines
/// run out first comes before the other.
pub open spec fn keys_cmp(a: Seq<LocV>, b: Seq<LocV>) -> Ordering
    decreases a.len() + b.len(),
{
    if a.len() > 0 && !a[0].is_sortable() {
        keys_cmp(a.drop_first(), b)
    } else if b.len() > 0 && !b[0].is_sortable() {
        keys_cmp(a, b.drop_first())
    } else if a.len() == 0 && b.len() == 0 {
        Ordering::Equal
    } else if a.len() == 0 {
        Ordering::Less
    } else if b.len() == 0 {
        Ordering::Greater
    } else {
        let c = lex_cmp(a[0].sort_key, b[0].sort_key);
        if c == Ordering::Equal {
            keys_cmp(a.drop_first(), b.drop_first())
        } else {
            c
        }
    }
}

/// Compare two blocks by their sortable lines' sort keys.
pub fn loc_list_cmp(a: &LocList, b: &LocList) -> (r: Ordering)
    ensures
        r == keys_cmp(a@, b@),
{
    let alen = a.locs.len();
    let blen = b.locs.len();
    let mut ia: usize = 0;
    let mut ib: usize = 0;
    proof {
        assert(a@.skip(0) =~= a@);
        assert(b@.skip(0) =~= b@);
    }
    loop
        invariant
            ia <= alen,
            ib <= blen,
            alen == a@.len(),
            blen == b@.len(),
            keys_cmp(a@, b@) == keys_cmp(a@.skip(ia as int), b@.skip(ib as int)),
        decreases alen - ia + blen - ib,
    {
        let ghost ia0 = ia;
        let ghost ib0 = ib;
        while ia < alen && !a.locs[ia].is_sortable()
            invariant
                ia0 <= ia <= alen,
                ib <= blen,
                ib == ib0,
                alen == a@.len(),
                blen == b@.len(),
                keys_cmp(a@, b@) == keys_cmp(a@.skip(ia as int), b@.skip(ib as int)),
            decreases alen - ia,
        {
            proof {
                assert(a@.skip(ia as int)[0] == a@[ia as int]);
                assert(a@.skip(ia as int).drop_first() =~= a@.skip(ia + 1));
            }
            ia += 1;
        }
        while ib < blen && !b.locs[ib].is_sortable()
            invariant
                ia0 <= ia <= alen,
                ib0 <= ib <= blen,
                alen == a@.len(),
                blen == b@.len(),
                ia < alen ==> a@[ia as int].is_sortable(),
                keys_cmp(a@, b@) == keys_cmp(a@.skip(ia as int), b@.skip(ib as int)),
            decreases blen - ib,
        {
            proof {
                assert(a@.skip(ia as int).len() > 0 ==> a@.skip(ia as int)[0] == a@[ia as int]);
                assert(b@.skip(ib as int)[0] == b@[ib as int]);
                assert(b@.skip(ib as int).drop_first() =~= b@.skip(ib + 1));
            }
            ib += 1;
        }
        proof {
            assert(ia < alen ==> a@.skip(ia as int)[0] == a@[ia as int]);
            assert(ib < blen ==> b@.skip(ib as int)[0] == b@[ib as int]);
        }
        if ia >= alen && ib >= blen {
            proof {
                assert(a@.skip(ia as int).len() == 0);
                assert(b@.skip(ib as int).len() == 0);
            }
            return Ordering::Equal;
        }
        if ia >= alen {
            proof {
                assert(a@.skip(ia as int).len() == 0);
            }
            return Ordering::Less;
        }
        if ib >= blen {
            proof {
                assert(b@.skip(ib as int).len() == 0);
            }
            return Ordering::Greater;
        }
        let c = str_lex_cmp(a.locs[ia].sort_key.as_str(), b.locs[ib].sort_key.as_str());
        match c {
            Ordering::Equal => {
                proof {
                    assert(a@.skip(ia as int).drop_first() =~= a@.skip(ia + 1));
                    assert(b@.skip(ib as int).drop_first() =~= b@.skip(ib + 1));
                }
                ia += 1;
                ib += 1;
            },
            _ => {
                return c;
            },
        }
    }
}

/// The deep view of a sequence of blocks
pub open spec fn blocks_view(s: Seq<LocList>) -> Seq<Seq<LocV>> {
    s.map_values(|b: LocList| b@)
}

/// Insert a block into a sorted run of blocks, after every block that
/// compares strictly less, so that a stable sort results.
pub open spec fn insert_sorted(x: Seq<LocV>, s: Seq<Seq<LocV>>) -> Seq<Seq<LocV>>
    decreases s.len(),
{
    if s.len() > 0 && keys_cmp(s[0], x) == Ordering::Less {
        seq![s[0]] + insert_sorted(x, s.drop_first())
    } else {
        seq![x] + s
    }
}

/// Stable sort of the blocks: each block, from the last one backwards,
/// is inserted into the sorted run of the blocks after it.
pub open spec fn spec_sort_blocks(s: Seq<Seq<LocV>>) -> Seq<Seq<LocV>>
    decreases s.len(),
{
    if s.len() == 0 {
        Seq::empty()
    } else {
        insert_sorted(s[0], spec_sort_blocks(s.drop_first()))
    }
}

/// Whether the first block sorts strictly before the second.
fn block_is_less(a: &LocList, b: &LocList) -> (r: bool)
    ensures
        r == (keys_cmp(a@, b@) == Ordering::Less),
{
    match loc_list_cmp(a, b) {
        Ordering::Less => true,
        _ => false,
    }
}

/// Insert one block into an already sorted vector of blocks.
fn insert_block(x: LocList, out: &mut Vec<LocList>)
    ensures
        blocks_view(final (out)@) == insert_sorted(x@, blocks_view(old(out)@)),
{
    let ghost orig = blocks_view(out@);
    let n = out.len();
    let mut j: usize = 0;
    proof {
        assert(orig.skip(0) =~= orig);
    }
    while j < n && block_is_less(&out[j], &x)
        invariant
            j <= n,
            n == out@.len(),
            orig == blocks_view(out@),
            insert_sorted(x@, orig) =~= orig.take(j as int) + insert_sorted(
                x@,
                orig.skip(j as int),
            ),
        decreases n - j,
    {
        proof {
            assert(orig.skip(j as int)[0] == orig[j as int]);
            assert(orig[j as int] == out@[j as int]@);
            assert(orig.skip(j as int).drop_first() =~= orig.skip(j + 1));
            assert(orig.take(j as int).push(orig[j as int]) =~= orig.take(j + 1));
            assert(orig.take(j as int) + (seq![orig[j as int]] + insert_sorted(
                x@,
                orig.skip(j + 1),
            )) =~= orig.take(j + 1) + insert_sorted(x@, orig.skip(j + 1)));
        }
        j += 1;
    }
    proof {
        if j < n {
            assert(orig.skip(j as int)[0] == orig[j as int]);
            assert(orig[j as int] == out@[j as int]@);
        } else {
            assert(orig.skip(j as int).len() == 0);
        }
        assert(insert_sorted(x@, orig.skip(j as int)) == seq![x@] + orig.skip(j as int));
    }
    out.insert(j, x);
    proof {
        assert(blocks_view(out@) =~= orig.take(j as int) + (seq![x@] + orig.skip(j as int)));
    }
}

/// Sort blocks, stably, by the order `keys_cmp` gives: a block moves
/// before another exactly when its sortable lines' key sequence compares
/// lower; blocks with equal key sequences keep their relative order.
pub fn sort_blocks(blocks: Vec<LocList>) -> (r: Vec<LocList>)
    ensures
        blocks_view(r@) == spec_sort_blocks(blocks_view(blocks@)),
{
    let ghost orig = blocks_view(blocks@);
    let mut rest = blocks;
    let mut out: Vec<LocList> = Vec::new();
    let mut i = rest.len();
    proof {
        assert(orig.skip(i as int) =~= Seq::<Seq<LocV>>::empty());
        assert(blocks_view(out@) =~= Seq::<Seq<LocV>>::empty());
        assert(blocks_view(rest@) =~= orig.take(i as int));
    }
    while i > 0
        invariant
            i == rest@.len(),
            i <= orig.len(),
            blocks_view(rest@) == orig.take(i as int),
            blocks_view(out@) == spec_sort_blocks(orig.skip(i as int)),
        decreases i,
    {
        let x = match rest.pop() {
            Some(x) => x,
            None => {
                proof {
                    assert(false);
                }
                vstd::pervasive::unreached()
            },
        };
        proof {
            assert(orig.take(i as int)[i - 1] == orig[i - 1]);
            assert(orig[i - 1] == x@);
            assert(orig.skip(i - 1)[0] == orig[i - 1]);
            assert(orig.skip(i - 1).drop_first() =~= orig.skip(i as int));
            assert(blocks_view(rest@) =~= orig.take(i - 1));
        }
        insert_block(x, &mut out);
        i -= 1;
    }
    proof {
        assert(orig.skip(0) =~= orig);
    }
    out
}

/// Blocks are equal when they have the same number of lines and the lines'
/// sort keys agree pairwise.
pub open spec fn ll_eq_spec(a: Seq<LocV>, b: Seq<LocV>) -> bool {
    a.len() == b.len() && forall|i: int|
        0 <= i < a.len() ==> (#[trigger] a[i]).sort_key == b[i].sort_key
}

impl PartialEq for LocList {
    fn eq(&self, other: &Self) -> (r: bool) {
        let n = self.locs.len();
        if n != other.locs.len() {
            return false;
        }
        let mut i: usize = 0;
        while i < n
            invariant
                i <= n,
                n == self@.len(),
                n == other@.len(),
                forall|j: int| 0 <= j < i ==> (#[trigger] self@[j]).sort_key == other@[j].sort_key,
            decreases n - i,
        {
            proof {
                assert(self@[i as int].sort_key == self.locs@[i as int].sort_key@);
                assert(other@[i as int].sort_key == other.locs@[i as int].sort_key@);
            }
            if !crate::chars::str_eq(self.locs[i].sort_key.as_str(), other.locs[i].sort_key.as_str()) {
                return false;
            }
            i += 1;
        }
        true
    }
}

impl vstd::std_specs::cmp::PartialEqSpecImpl for LocList {
    open spec fn obeys_eq_spec() -> bool {
        true
    }

    open spec fn eq_spec(&self, other: &LocList) -> bool {
        ll_eq_spec(self@, other@)
    }
}

impl PartialOrd for LocList {
    fn partial_cmp(&self, other: &Self) -> (r: Option<Ordering>) {
        Some(loc_list_cmp(self, other))
    }
}

impl vstd::std_specs::cmp::PartialOrdSpecImpl for LocList {
    open spec fn obeys_partial_cmp_spec() -> bool {
        true
    }

    open spec fn partial_cmp_spec(&self, other: &LocList) -> Option<Ordering> {
        Some(keys_cmp(self@, other@))
    }
}


/// Lexicographic comparison over sequences of keys.
pub open spec fn kseq_cmp(x: Seq<Seq<char>>, y: Seq<Seq<char>>) -> Ordering
    decreases x.len(),
{
    if x.len() == 0 && y.len() == 0 {
        Ordering::Equal
    } else if x.len() == 0 {
        Ordering::Less
    } else if y.len() == 0 {
        Ordering::Greater
    } else {
        let c = lex_cmp(x[0], y[0]);
        if c == Ordering::Equal {
            kseq_cmp(x.drop_first(), y.drop_first())
        } else {
            c
        }
    }
}

/// The sort keys of a block's sortable lines, in order.
pub open spec fn keys_of(s: Seq<LocV>) -> Seq<Seq<char>>
    decreases s.len(),
{
    if s.len() == 0 {
        Seq::empty()
    } else if s[0].is_sortable() {
        seq![s[0].sort_key] + keys_of(s.drop_first())
    } else {
        keys_of(s.drop_first())
    }
}

/// The block order is exactly the lexicographic order of the blocks' key
/// sequences: skipped lines never matter.
pub proof fn lemma_keys_cmp_is_kseq(a: Seq<LocV>, b: Seq<LocV>)
    ensures
        keys_cmp(a, b) == kseq_cmp(keys_of(a), keys_of(b)),
    decreases a.len() + b.len(),
{
    if a.len() > 0 && !a[0].is_sortable() {
        lemma_keys_cmp_is_kseq(a.drop_first(), b);
    } else if b.len() > 0 && !b[0].is_sortable() {
        lemma_keys_cmp_is_kseq(a, b.drop_first());
    } else if a.len() == 0 && b.len() == 0 {
    } else if a.len() == 0 {
        assert(keys_of(b).len() > 0);
    } else if b.len() == 0 {
        assert(keys_of(a).len() > 0);
    } else {
        let ka = keys_of(a);
        let kb = keys_of(b);
        assert(ka == seq![a[0].sort_key] + keys_of(a.drop_first()));
        assert(kb == seq![b[0].sort_key] + keys_of(b.drop_first()));
        assert(ka[0] == a[0].sort_key);
        assert(kb[0] == b[0].sort_key);
        assert(ka.drop_first() =~= keys_of(a.drop_first()));
        assert(kb.drop_first() =~= keys_of(b.drop_first()));
        lemma_keys_cmp_is_kseq(a.drop_first(), b.drop_first());
    }
}

/// Swapping the sides of an ordering.
pub open spec fn flip(o: Ordering) -> Ordering {
    match o {
        Ordering::Less => Ordering::Greater,
        Ordering::Equal => Ordering::Equal,
        Ordering::Greater => Ordering::Less,
    }
}

/// Comparing in the other direction flips the result.
pub proof fn lemma_lex_cmp_flip(a: Seq<char>, b: Seq<char>)
    ensures
        lex_cmp(b, a) == flip(lex_cmp(a, b)),
{
    crate::chars::lemma_lex_cmp_antisym(a, b);
    crate::chars::lemma_lex_cmp_antisym(b, a);
    crate::chars::lemma_lex_cmp_eq(a, b);
    crate::chars::lemma_lex_cmp_eq(b, a);
}

/// Comparing key sequences in the other direction flips the result.
pub proof fn lemma_kseq_flip(x: Seq<Seq<char>>, y: Seq<Seq<char>>)
    ensures
        kseq_cmp(y, x) == flip(kseq_cmp(x, y)),
    decreases x.len() + y.len(),
{
    if x.len() > 0 && y.len() > 0 {
        lemma_lex_cmp_flip(x[0], y[0]);
        crate::chars::lemma_lex_cmp_eq(x[0], y[0]);
        if lex_cmp(x[0], y[0]) == Ordering::Equal {
            lemma_kseq_flip(x.drop_first(), y.drop_first());
        }
    }
}

/// The key-sequence order is transitive.
pub proof fn lemma_kseq_trans(x: Seq<Seq<char>>, y: Seq<Seq<char>>, z: Seq<Seq<char>>)
    requires
        kseq_cmp(x, y) != Ordering::Greater,
        kseq_cmp(y, z) != Ordering::Greater,
    ensures
        kseq_cmp(x, z) != Ordering::Greater,
    decreases x.len() + y.len() + z.len(),
{
    if x.len() == 0 {
    } else if y.len() == 0 || z.len() == 0 {
    } else {
        let cxy = lex_cmp(x[0], y[0]);
        let cyz = lex_cmp(y[0], z[0]);
        crate::chars::lemma_lex_cmp_trans(x[0], y[0], z[0]);
        crate::chars::lemma_lex_cmp_eq(x[0], y[0]);
        crate::chars::lemma_lex_cmp_eq(y[0], z[0]);
        if cxy == Ordering::Equal && cyz == Ordering::Equal {
            lemma_kseq_trans(x.drop_first(), y.drop_first(), z.drop_first());
        }
    }
}

/// Comparing blocks in the other direction flips the result.
pub proof fn lemma_keys_cmp_flip(a: Seq<LocV>, b: Seq<LocV>)
    ensures
        keys_cmp(b, a) == flip(keys_cmp(a, b)),
{
    lemma_keys_cmp_is_kseq(a, b);
    lemma_keys_cmp_is_kseq(b, a);
    lemma_kseq_flip(keys_of(a), keys_of(b));
}

/// The block order is transitive.
pub proof fn lemma_keys_cmp_trans(a: Seq<LocV>, b: Seq<LocV>, c: Seq<LocV>)
    requires
        keys_cmp(a, b) != Ordering::Greater,
        keys_cmp(b, c) != Ordering::Greater,
    ensures
        keys_cmp(a, c) != Ordering::Greater,
{
    lemma_keys_cmp_is_kseq(a, b);
    lemma_keys_cmp_is_kseq(b, c);
    lemma_keys_cmp_is_kseq(a, c);
    lemma_kseq_trans(keys_of(a), keys_of(b), keys_of(c));
}

/// Every pair of blocks is ordered, the earlier one never greater.
pub open spec fn blocks_sorted(s: Seq<Seq<LocV>>) -> bool {
    forall|i: int, j: int|
        0 <= i < j < s.len() ==> #[trigger] keys_cmp(s[i], s[j]) != Ordering::Greater
}

/// Where `insert_sorted` puts the new block: after every block that
/// compares strictly less.
pub open spec fn ins_pos(x: Seq<LocV>, s: Seq<Seq<LocV>>) -> int
    decreases s.len(),
{
    if s.len() > 0 && keys_cmp(s[0], x) == Ordering::Less {
        1 + ins_pos(x, s.drop_first())
    } else {
        0
    }
}

/// The shape of an insertion: the run is split at the insertion point.
pub proof fn lemma_insert_shape(x: Seq<LocV>, s: Seq<Seq<LocV>>)
    ensures
        0 <= ins_pos(x, s) <= s.len(),
        insert_sorted(x, s) == s.take(ins_pos(x, s)) + seq![x] + s.skip(ins_pos(x, s)),
        forall|i: int| 0 <= i < ins_pos(x, s) ==> #[trigger] keys_cmp(s[i], x) == Ordering::Less,
        ins_pos(x, s) < s.len() ==> keys_cmp(s[ins_pos(x, s)], x) != Ordering::Less,
    decreases s.len(),
{
    if s.len() > 0 && keys_cmp(s[0], x) == Ordering::Less {
        lemma_insert_shape(x, s.drop_first());
        let p = ins_pos(x, s.drop_first());
        assert forall|i: int| 0 <= i < ins_pos(x, s) implies #[trigger] keys_cmp(s[i], x)
            == Ordering::Less by {
            if i > 0 {
                assert(s.drop_first()[i - 1] == s[i]);
            }
        }
        assert(insert_sorted(x, s) == seq![s[0]] + (s.drop_first().take(p) + seq![x]
            + s.drop_first().skip(p)));
        assert(seq![s[0]] + (s.drop_first().take(p) + seq![x] + s.drop_first().skip(p)) =~= s.take(
            p + 1,
        ) + seq![x] + s.skip(p + 1));
        if ins_pos(x, s) < s.len() {
            assert(s[ins_pos(x, s)] == s.drop_first()[p]);
        }
    } else {
        assert(insert_sorted(x, s) == seq![x] + s);
        assert(s.take(0) + seq![x] + s.skip(0) =~= seq![x] + s);
    }
}

/// Inserting into a sorted run keeps it sorted.
pub proof fn lemma_insert_sorted_stays_sorted(x: Seq<LocV>, s: Seq<Seq<LocV>>)
    requires
        blocks_sorted(s),
    ensures
        blocks_sorted(insert_sorted(x, s)),
{
    lemma_insert_shape(x, s);
    let p = ins_pos(x, s);
    let r = insert_sorted(x, s);
    assert forall|i: int, j: int| 0 <= i < j < r.len() implies #[trigger] keys_cmp(r[i], r[j])
        != Ordering::Greater by {
        if i < p && j < p {
            assert(r[i] == s[i] && r[j] == s[j]);
        } else if i < p && j == p {
            assert(r[i] == s[i] && r[j] == x);
            assert(keys_cmp(s[i], x) == Ordering::Less);
        } else if i < p && j > p {
            assert(r[i] == s[i] && r[j] == s[j - 1]);
            if i < j - 1 {
            } else {
                assert(i == j - 1);
                assert(i == p - 1 && j == p + 1 ==> true);
                // i < p <= j - 1 is impossible here unless i == j - 1 == p - 1,
                // and then j - 1 == p, a contradiction with j > p
                assert(j - 1 >= p);
                assert(i < p <= j - 1);
                assert(false);
            }
        } else if i == p && j > p {
            assert(r[i] == x && r[j] == s[j - 1]);
            assert(j - 1 >= p);
            if j - 1 == p {
                assert(keys_cmp(s[p], x) != Ordering::Less);
                lemma_keys_cmp_flip(s[p], x);
            } else {
                assert(keys_cmp(s[p], x) != Ordering::Less);
                lemma_keys_cmp_flip(s[p], x);
                assert(keys_cmp(x, s[p]) != Ordering::Greater);
                assert(keys_cmp(s[p], s[j - 1]) != Ordering::Greater);
                lemma_keys_cmp_trans(x, s[p], s[j - 1]);
            }
        } else {
            assert(i > p && j > p);
            assert(r[i] == s[i - 1] && r[j] == s[j - 1]);
        }
    }
}

/// The sorted run of blocks is sorted.
pub proof fn lemma_sort_blocks_sorted(s: Seq<Seq<LocV>>)
    ensures
        blocks_sorted(spec_sort_blocks(s)),
    decreases s.len(),
{
    if s.len() > 0 {
        lemma_sort_blocks_sorted(s.drop_first());
        lemma_insert_sorted_stays_sorted(s[0], spec_sort_blocks(s.drop_first()));
    }
}

/// Sorting an already sorted run of blocks leaves it unchanged.
pub proof fn lemma_sort_of_sorted(s: Seq<Seq<LocV>>)
    requires
        blocks_sorted(s),
    ensures
        spec_sort_blocks(s) == s,
    decreases s.len(),
{
    if s.len() == 0 {
        assert(spec_sort_blocks(s) =~= s);
    } else {
        assert(blocks_sorted(s.drop_first())) by {
            assert forall|i: int, j: int| 0 <= i < j < s.drop_first().len() implies #[trigger]
            keys_cmp(s.drop_first()[i], s.drop_first()[j]) != Ordering::Greater by {
                assert(s.drop_first()[i] == s[i + 1]);
                assert(s.drop_first()[j] == s[j + 1]);
                assert(keys_cmp(s[i + 1], s[j + 1]) != Ordering::Greater);
            }
        }
        lemma_sort_of_sorted(s.drop_first());
        if s.len() > 1 {
            assert(keys_cmp(s[0], s[1]) != Ordering::Greater);
            assert(s.drop_first()[0] == s[1]);
            lemma_keys_cmp_flip(s[0], s[1]);
            assert(keys_cmp(s.drop_first()[0], s[0]) != Ordering::Less);
        }
        assert(insert_sorted(s[0], s.drop_first()) == seq![s[0]] + s.drop_first());
        assert(seq![s[0]] + s.drop_first() =~= s);
    }
}

/// How many blocks have no leading blank line.
pub open spec fn count_zero_blanks(s: Seq<Seq<LocV>>) -> int
    decreases s.len(),
{
    if s.len() == 0 {
        0
    } else {
        (if crate::loc_list::blank_prefix_len(s[0]) == 0 {
            1int
        } else {
            0int
        }) + count_zero_blanks(s.drop_first())
    }
}

/// Counting over a split run.
pub proof fn lemma_count_zb_add(a: Seq<Seq<LocV>>, b: Seq<Seq<LocV>>)
    ensures
        count_zero_blanks(a + b) == count_zero_blanks(a) + count_zero_blanks(b),
    decreases a.len(),
{
    if a.len() == 0 {
        assert(a + b =~= b);
    } else {
        assert((a + b)[0] == a[0]);
        assert((a + b).drop_first() =~= a.drop_first() + b);
        lemma_count_zb_add(a.drop_first(), b);
    }
}

/// Inserting a block adds its own count.
pub proof fn lemma_insert_count_zb(x: Seq<LocV>, s: Seq<Seq<LocV>>)
    ensures
        count_zero_blanks(insert_sorted(x, s)) == count_zero_blanks(s) + (
        if crate::loc_list::blank_prefix_len(x) == 0 {
            1int
        } else {
            0int
        }),
{
    lemma_insert_shape(x, s);
    let p = ins_pos(x, s);
    lemma_count_zb_add(s.take(p) + seq![x], s.skip(p));
    lemma_count_zb_add(s.take(p), seq![x]);
    lemma_count_zb_add(s.take(p), s.skip(p));
    assert(s.take(p) + s.skip(p) =~= s);
    assert(count_zero_blanks(seq![x]) == (if crate::loc_list::blank_prefix_len(x) == 0 {
        1int
    } else {
        0int
    })) by {
        assert(seq![x].drop_first() =~= Seq::<Seq<LocV>>::empty());
        assert(count_zero_blanks(Seq::<Seq<LocV>>::empty()) == 0);
        assert(seq![x][0] == x);
    }
}

/// Sorting does not change how many blocks lack a leading blank line.
pub proof fn lemma_sort_count_zb(s: Seq<Seq<LocV>>)
    ensures
        count_zero_blanks(spec_sort_blocks(s)) == count_zero_blanks(s),
    decreases s.len(),
{
    if s.len() > 0 {
        lemma_sort_count_zb(s.drop_first());
        lemma_insert_count_zb(s[0], spec_sort_blocks(s.drop_first()));
    }
}

/// Sorting keeps the number of blocks.
pub proof fn lemma_sort_len(s: Seq<Seq<LocV>>)
    ensures
        spec_sort_blocks(s).len() == s.len(),
    decreases s.len(),
{
    if s.len() > 0 {
        lemma_sort_len(s.drop_first());
        lemma_insert_shape(s[0], spec_sort_blocks(s.drop_first()));
    }
}

/// A zero count means no block lacks a leading blank line.
pub proof fn lemma_count_zb_zero(s: Seq<Seq<LocV>>)
    requires
        count_zero_blanks(s) == 0,
    ensures
        forall|i: int|
            0 <= i < s.len() ==> crate::loc_list::blank_prefix_len(#[trigger] s[i]) > 0,
    decreases s.len(),
{
    if s.len() > 0 {
        lemma_count_zb_nonneg(s.drop_first());
        assert(count_zero_blanks(s.drop_first()) == 0);
        assert(count_zero_blanks(s) == (if crate::loc_list::blank_prefix_len(s[0]) == 0 {
            1int
        } else {
            0int
        }) + count_zero_blanks(s.drop_first()));
        crate::spacing::lemma_blank_prefix_le_len(s[0]);
        assert(crate::loc_list::blank_prefix_len(s[0]) > 0);
        lemma_count_zb_zero(s.drop_first());
        assert forall|i: int|
            0 <= i < s.len() implies crate::loc_list::blank_prefix_len(#[trigger] s[i]) > 0 by {
            if i > 0 {
                assert(s.drop_first()[i - 1] == s[i]);
            }
        }
    }
}

/// The count is never negative.
pub proof fn lemma_count_zb_nonneg(s: Seq<Seq<LocV>>)
    ensures
        count_zero_blanks(s) >= 0,
    decreases s.len(),
{
    if s.len() > 0 {
        lemma_count_zb_nonneg(s.drop_first());
    }
}

/// Two distinct blank-free blocks make the count at least two.
pub proof fn lemma_count_zb_two(s: Seq<Seq<LocV>>, i: int, j: int)
    requires
        0 <= i < j < s.len(),
        crate::loc_list::blank_prefix_len(s[i]) == 0,
        crate::loc_list::blank_prefix_len(s[j]) == 0,
    ensures
        count_zero_blanks(s) >= 2,
    decreases s.len(),
{
    lemma_count_zb_nonneg(s.drop_first());
    if i == 0 {
        lemma_count_zb_one(s.drop_first(), j - 1);
        assert(s.drop_first()[j - 1] == s[j]);
    } else {
        assert(s.drop_first()[i - 1] == s[i]);
        assert(s.drop_first()[j - 1] == s[j]);
        lemma_count_zb_two(s.drop_first(), i - 1, j - 1);
    }
}

/// One blank-free block makes the count at least one.
pub proof fn lemma_count_zb_one(s: Seq<Seq<LocV>>, i: int)
    requires
        0 <= i < s.len(),
        crate::loc_list::blank_prefix_len(s[i]) == 0,
    ensures
        count_zero_blanks(s) >= 1,
    decreases s.len(),
{
    lemma_count_zb_nonneg(s.drop_first());
    if i > 0 {
        assert(s.drop_first()[i - 1] == s[i]);
        lemma_count_zb_one(s.drop_first(), i - 1);
    }
}


/// Where every block has a leading blank line, the count is zero.
pub proof fn lemma_count_zb_none(s: Seq<Seq<LocV>>)
    requires
        forall|i: int|
            0 <= i < s.len() ==> crate::loc_list::blank_prefix_len(#[trigger] s[i]) > 0,
    ensures
        count_zero_blanks(s) == 0,
    decreases s.len(),
{
    if s.len() > 0 {
        assert forall|i: int|
            0 <= i < s.drop_first().len() implies crate::loc_list::blank_prefix_len(
            #[trigger] s.drop_first()[i],
        ) > 0 by {
            assert(s.drop_first()[i] == s[i + 1]);
        }
        lemma_count_zb_none(s.drop_first());
    }
}

/// A positive count names a block without a leading blank line.
pub proof fn lemma_count_zb_pos(s: Seq<Seq<LocV>>) -> (i: int)
    requires
        count_zero_blanks(s) >= 1,
    ensures
        0 <= i < s.len(),
        crate::loc_list::blank_prefix_len(s[i]) == 0,
    decreases s.len(),
{
    if s.len() == 0 {
        0
    } else if crate::loc_list::blank_prefix_len(s[0]) == 0 {
        0
    } else {
        let j = lemma_count_zb_pos(s.drop_first());
        assert(s.drop_first()[j] == s[j + 1]);
        j + 1
    }
}

/// A property of single blocks carries through an insertion.
pub proof fn lemma_insert_all(x: Seq<LocV>, s: Seq<Seq<LocV>>, pred: spec_fn(Seq<LocV>) -> bool)
    requires
        pred(x),
        forall|i: int| 0 <= i < s.len() ==> pred(#[trigger] s[i]),
    ensures
        forall|i: int| 0 <= i < insert_sorted(x, s).len() ==> pred(#[trigger] insert_sorted(x, s)[i]),
{
    lemma_insert_shape(x, s);
    let p = ins_pos(x, s);
    let r = insert_sorted(x, s);
    assert forall|i: int| 0 <= i < r.len() implies pred(#[trigger] r[i]) by {
        if i < p {
            assert(r[i] == s[i]);
        } else if i == p {
            assert(r[i] == x);
        } else {
            assert(r[i] == s[i - 1]);
        }
    }
}

/// A property of single blocks carries through the sort.
pub proof fn lemma_sort_all_pred(s: Seq<Seq<LocV>>, pred: spec_fn(Seq<LocV>) -> bool)
    requires
        forall|i: int| 0 <= i < s.len() ==> pred(#[trigger] s[i]),
    ensures
        forall|i: int|
            0 <= i < spec_sort_blocks(s).len() ==> pred(#[trigger] spec_sort_blocks(s)[i]),
    decreases s.len(),
{
    if s.len() > 0 {
        assert forall|i: int| 0 <= i < s.drop_first().len() implies pred(
            #[trigger] s.drop_first()[i],
        ) by {
            assert(s.drop_first()[i] == s[i + 1]);
        }
        lemma_sort_all_pred(s.drop_first(), pred);
        lemma_insert_all(s[0], spec_sort_blocks(s.drop_first()), pred);
    }
}

} // verus!
