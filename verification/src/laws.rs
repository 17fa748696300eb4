use vstd::prelude::*;

use crate::analyzers::Analyzer;
use crate::analyzers::java;
use crate::analyzers::javascript;
use crate::analyzers::line_end;
use crate::analyzers::lemma_line_end_bounds;
use crate::analyzers::rust;
use crate::loc::LocV;
use crate::loc_list::concat_contents;
use crate::loc_list::flatten_blocks;
use crate::loc_list::is_complete_spec;
use crate::loc_list::part_fold;
use crate::loc_list::spec_partition;
use crate::loc_list::blank_prefix_len;
use crate::order::count_zero_blanks;
use crate::order::keys_cmp;
use crate::order::keys_of;
use crate::order::spec_sort_blocks;
use crate::spacing::Spacing;
use crate::spacing::first_without_blanks;
use crate::spacing::spec_apply;
use crate::spacing::spec_recognize;
use core::cmp::Ordering;

verus! {

/// Concatenating one more line at the front.
proof fn lemma_concat_contents_prepend(x: LocV, r: Seq<LocV>)
    ensures
        concat_contents(seq![x] + r) == x.content + concat_contents(r),
    decreases r.len(),
{
    if r.len() == 0 {
        assert(seq![x] + r =~= seq![x]);
        assert(seq![x].drop_last() =~= Seq::<LocV>::empty());
        assert(concat_contents(seq![x]) == concat_contents(Seq::<LocV>::empty()) + x.content);
        assert(Seq::<char>::empty() + x.content =~= x.content);
        assert(x.content + Seq::<char>::empty() =~= x.content);
    } else {
        lemma_concat_contents_prepend(x, r.drop_last());
        assert((seq![x] + r).drop_last() =~= seq![x] + r.drop_last());
        assert((seq![x] + r).last() == r.last());
        assert(concat_contents(seq![x] + r) == (x.content + concat_contents(r.drop_last()))
            + r.last().content);
        assert((x.content + concat_contents(r.drop_last())) + r.last().content =~= x.content + (
        concat_contents(r.drop_last()) + r.last().content));
    }
}

proof fn lemma_rust_round_trip_rec(s: Seq<char>, pos: int, st: rust::RustSt, line_index: int)
    requires
        0 <= pos <= s.len(),
        rust::rust_read_rec(s, pos, st, line_index) is Ok,
    ensures
        concat_contents(rust::rust_read_rec(s, pos, st, line_index)->Ok_0) == s.skip(pos),
    decreases s.len() - pos,
{
    if pos >= s.len() {
        assert(s.skip(pos) =~= Seq::<char>::empty());
    } else {
        lemma_line_end_bounds(s, pos);
        let e = line_end(s, pos);
        let line = s.subrange(pos, e);
        let st1 = if st.state == rust::ScanState::LineComment {
            rust::RustSt { state: rust::ScanState::Normal, ..st }
        } else {
            st
        };
        let st2 = rust::rust_scan_line(line, st1);
        let st3 = rust::RustSt { ann_depth: rust::next_ann_depth(st1, st2), ..st2 };
        lemma_rust_round_trip_rec(s, e, st3, line_index + 1);
        let rest = rust::rust_read_rec(s, e, st3, line_index + 1)->Ok_0;
        let loc = rust::loc_of_line(line, st1, st2);
        lemma_concat_contents_prepend(loc, rest);
        assert(s.skip(pos) =~= line + s.skip(e));
    }
}

proof fn lemma_js_round_trip_rec(s: Seq<char>, pos: int, st: javascript::JsSt)
    requires
        0 <= pos <= s.len(),
        javascript::js_read_rec(s, pos, st) is Ok,
    ensures
        concat_contents(javascript::js_read_rec(s, pos, st)->Ok_0) == s.skip(pos),
    decreases s.len() - pos,
{
    if pos >= s.len() {
        assert(s.skip(pos) =~= Seq::<char>::empty());
    } else {
        lemma_line_end_bounds(s, pos);
        let e = line_end(s, pos);
        let line = s.subrange(pos, e);
        let st1 = if st.state == javascript::JsScanState::LineComment {
            javascript::JsSt { state: javascript::JsScanState::Normal, ..st }
        } else {
            st
        };
        let st2 = javascript::js_scan_line(line, st1);
        lemma_js_round_trip_rec(s, e, st2);
        let rest = javascript::js_read_rec(s, e, st2)->Ok_0;
        let loc = javascript::js_loc_of_line(line, st1.braces.len() as int, st2);
        lemma_concat_contents_prepend(loc, rest);
        assert(s.skip(pos) =~= line + s.skip(e));
    }
}

proof fn lemma_java_round_trip_rec(s: Seq<char>, pos: int, st: java::JavaSt)
    requires
        0 <= pos <= s.len(),
        java::java_read_rec(s, pos, st) is Ok,
    ensures
        concat_contents(java::java_read_rec(s, pos, st)->Ok_0) == s.skip(pos),
    decreases s.len() - pos,
{
    if pos >= s.len() {
        assert(s.skip(pos) =~= Seq::<char>::empty());
    } else {
        lemma_line_end_bounds(s, pos);
        let e = line_end(s, pos);
        let line = s.subrange(pos, e);
        let st1 = if st.state == java::JavaScanState::LineComment {
            java::JavaSt { state: java::JavaScanState::Normal, ..st }
        } else {
            st
        };
        let st2 = java::java_scan_line(line, st1);
        lemma_java_round_trip_rec(s, e, st2);
        let rest = java::java_read_rec(s, e, st2)->Ok_0;
        let loc = java::java_loc_of_line(line, st1.braces.len() as int, st2);
        lemma_concat_contents_prepend(loc, rest);
        assert(s.skip(pos) =~= line + s.skip(e));
    }
}

/// Law (round trip): for any text an analyzer reads successfully, the
/// concatenation of the lines' contents, in original order, is exactly the
/// original text.
pub proof fn lemma_read_round_trip(a: Analyzer, s: Seq<char>)
    requires
        a.spec_read(s) is Ok,
    ensures
        concat_contents(a.spec_read(s)->Ok_0) == s,
{
    match a {
        Analyzer::Rust => {
            lemma_rust_round_trip_rec(s, 0, rust::rust_init(), 0);
        },
        Analyzer::Javascript => {
            lemma_js_round_trip_rec(s, 0, javascript::js_init());
        },
        Analyzer::Java => {
            lemma_java_round_trip_rec(s, 0, java::java_init());
        },
    }
    assert(s.skip(0) =~= s);
}

proof fn lemma_part_fold_props(s: Seq<LocV>, i: int)
    requires
        0 <= i <= s.len(),
    ensures
        forall|k: int, p: int|
            0 <= k < part_fold(s, i).0.len() && 0 < p < part_fold(s, i).0[k].len()
                ==> !is_complete_spec(#[trigger] part_fold(s, i).0[k].take(p)),
        forall|k: int|
            0 <= k < part_fold(s, i).0.len() ==> is_complete_spec(#[trigger] part_fold(s, i).0[k])
                && part_fold(s, i).0[k].len() > 0,
        forall|p: int|
            0 < p <= part_fold(s, i).1.len() ==> !is_complete_spec(
                #[trigger] part_fold(s, i).1.take(p),
            ),
        flatten_blocks(part_fold(s, i).0) + part_fold(s, i).1 == s.take(i),
    decreases i,
{
    if i == 0 {
        assert(flatten_blocks(part_fold(s, 0).0) + part_fold(s, 0).1 =~= s.take(0));
    } else {
        lemma_part_fold_props(s, i - 1);
        let folded = part_fold(s, i - 1);
        let cur2 = folded.1.push(s[i - 1]);
        assert(cur2.take(cur2.len() as int) =~= cur2);
        assert forall|p: int| 0 < p < cur2.len() implies !is_complete_spec(cur2.take(p)) by {
            assert(cur2.take(p) =~= folded.1.take(p));
        }
        assert(s.take(i) =~= s.take(i - 1).push(s[i - 1]));
        if is_complete_spec(cur2) {
            let bs2 = folded.0.push(cur2);
            assert forall|k: int, p: int|
                0 <= k < bs2.len() && 0 < p < bs2[k].len() implies !is_complete_spec(
                #[trigger] bs2[k].take(p),
            ) by {
                if k < folded.0.len() {
                    assert(bs2[k] == folded.0[k]);
                } else {
                    assert(bs2[k] == cur2);
                }
            }
            assert(flatten_blocks(bs2) == flatten_blocks(folded.0) + cur2) by {
                assert(bs2.drop_last() =~= folded.0);
            }
            assert(flatten_blocks(folded.0) + cur2 + Seq::<LocV>::empty() =~= (flatten_blocks(
                folded.0,
            ) + folded.1).push(s[i - 1]));
        } else {
            assert(flatten_blocks(folded.0) + cur2 =~= (flatten_blocks(folded.0) + folded.1).push(
                s[i - 1],
            ));
        }
    }
}

/// Law (minimality): every block the partition finds is a minimal run: no
/// proper non-empty prefix of a block is complete; and every block except
/// possibly the last one is itself complete.
pub proof fn lemma_partition_minimal(s: Seq<LocV>)
    ensures
        forall|k: int, p: int|
            0 <= k < spec_partition(s).len() && 0 < p < spec_partition(s)[k].len()
                ==> !is_complete_spec(#[trigger] spec_partition(s)[k].take(p)),
        forall|k: int|
            0 <= k < spec_partition(s).len() - 1 ==> is_complete_spec(
                #[trigger] spec_partition(s)[k],
            ),
        forall|k: int| 0 <= k < spec_partition(s).len() ==> (#[trigger] spec_partition(s)[k]).len() > 0,
{
    lemma_part_fold_props(s, s.len() as int);
    let folded = part_fold(s, s.len() as int);
    if folded.1.len() != 0 {
        let bs2 = folded.0.push(folded.1);
        assert(folded.1.take(folded.1.len() as int) =~= folded.1);
        assert forall|k: int, p: int|
            0 <= k < bs2.len() && 0 < p < bs2[k].len() implies !is_complete_spec(
            #[trigger] bs2[k].take(p),
        ) by {
            if k < folded.0.len() {
                assert(bs2[k] == folded.0[k]);
            } else {
                assert(bs2[k] == folded.1);
            }
        }
        assert forall|k: int| 0 <= k < bs2.len() - 1 implies is_complete_spec(
            #[trigger] bs2[k],
        ) by {
            assert(bs2[k] == folded.0[k]);
        }
    }
}

/// Law (partition): the blocks of the partition, concatenated back in
/// order, are exactly the lines that were cut.
pub proof fn lemma_partition_concat(s: Seq<LocV>)
    ensures
        flatten_blocks(spec_partition(s)) == s,
{
    lemma_part_fold_props(s, s.len() as int);
    let folded = part_fold(s, s.len() as int);
    assert(s.take(s.len() as int) =~= s);
    if folded.1.len() == 0 {
        assert(flatten_blocks(folded.0) + folded.1 =~= flatten_blocks(folded.0));
    } else {
        assert(flatten_blocks(folded.0.push(folded.1)) == flatten_blocks(folded.0) + folded.1) by {
            assert(folded.0.push(folded.1).drop_last() =~= folded.0);
        }
    }
}


/// Law (order stability, sorting twice): sorting the blocks a second time
/// yields the same order as sorting them once.
pub proof fn lemma_sort_blocks_idempotent(s: Seq<Seq<LocV>>)
    ensures
        spec_sort_blocks(spec_sort_blocks(s)) == spec_sort_blocks(s),
{
    crate::order::lemma_sort_blocks_sorted(s);
    crate::order::lemma_sort_of_sorted(spec_sort_blocks(s));
}

proof fn lemma_kseq_prefix(x: Seq<Seq<char>>, y: Seq<Seq<char>>)
    requires
        x.len() < y.len(),
        y.take(x.len() as int) == x,
    ensures
        crate::order::kseq_cmp(x, y) == Ordering::Less,
    decreases x.len(),
{
    if x.len() == 0 {
    } else {
        assert(y.take(x.len() as int)[0] == y[0]);
        assert(x[0] == y[0]);
        crate::chars::lemma_lex_cmp_eq(x[0], y[0]);
        assert(y.drop_first().take(x.drop_first().len() as int) =~= x.drop_first()) by {
            assert forall|i: int| 0 <= i < x.len() - 1 implies y.drop_first().take(
                x.drop_first().len() as int,
            )[i] == x.drop_first()[i] by {
                assert(y.drop_first()[i] == y[i + 1]);
                assert(y.take(x.len() as int)[i + 1] == y[i + 1]);
            }
        }
        lemma_kseq_prefix(x.drop_first(), y.drop_first());
    }
}

/// Law (order stability, prefix): a block whose sortable-key sequence is a
/// strict prefix of another block's always sorts before it.
pub proof fn lemma_prefix_sorts_first(a: Seq<LocV>, b: Seq<LocV>)
    requires
        keys_of(a).len() < keys_of(b).len(),
        keys_of(b).take(keys_of(a).len() as int) == keys_of(a),
    ensures
        keys_cmp(a, b) == Ordering::Less,
{
    crate::order::lemma_keys_cmp_is_kseq(a, b);
    lemma_kseq_prefix(keys_of(a), keys_of(b));
}

/// Law (spacing preservation): where the blocks to sort satisfied "a blank
/// line before every block but the first", the sorted and repaired blocks
/// satisfy the same convention.
pub proof fn lemma_spacing_preserved(blocks: Seq<Seq<LocV>>)
    requires
        spec_recognize(blocks) == Spacing::Between,
    ensures
        spec_recognize(
            spec_apply(spec_recognize(blocks), spec_sort_blocks(blocks)),
        ) == Spacing::Between,
{
    let s = spec_sort_blocks(blocks);
    crate::spacing::lemma_blank_prefix_le_len(blocks[0]);
    assert(blocks.len() > 0 && blank_prefix_len(blocks[0]) == 0);
    assert(count_zero_blanks(blocks) == 1) by {
        assert forall|i: int|
            0 <= i < blocks.drop_first().len() implies blank_prefix_len(
            #[trigger] blocks.drop_first()[i],
        ) > 0 by {
            assert(blocks.drop_first()[i] == blocks[i + 1]);
        }
        crate::order::lemma_count_zb_none(blocks.drop_first());
    }
    crate::order::lemma_sort_count_zb(blocks);
    crate::order::lemma_sort_len(blocks);
    assert(s.len() == blocks.len() >= 1);
    let k = blank_prefix_len(s[0]);
    crate::spacing::lemma_blank_prefix_le_len(s[0]);
    if k == 0 {
        assert(spec_apply(Spacing::Between, s) == s);
        assert(count_zero_blanks(s.drop_first()) == 0) by {
            crate::order::lemma_count_zb_nonneg(s.drop_first());
        }
        crate::order::lemma_count_zb_zero(s.drop_first());
        assert forall|i: int| 1 <= i < s.len() implies blank_prefix_len(#[trigger] s[i]) > 0 by {
            assert(s.drop_first()[i - 1] == s[i]);
        }
        assert(spec_recognize(s) == Spacing::Between);
    } else {
        assert(count_zero_blanks(s.drop_first()) == 1) by {
            crate::order::lemma_count_zb_nonneg(s.drop_first());
        }
        let z = crate::order::lemma_count_zb_pos(s.drop_first());
        assert(s.drop_first()[z] == s[z + 1]);
        let blanks = s[0].take(k);
        let trimmed = s.update(0, s[0].skip(k));
        assert(trimmed[z + 1] == s[z + 1]);
        crate::spacing::lemma_fwb_some(trimmed, 1, z + 1);
        let j = first_without_blanks(trimmed, 1)->0;
        let r = trimmed.update(j, blanks.reverse() + trimmed[j]);
        assert(spec_apply(Spacing::Between, s) == r);
        // the first block lost exactly its blank run
        crate::spacing::lemma_blank_prefix_skip(s[0], k);
        assert(r[0] == s[0].skip(k));
        assert(blank_prefix_len(r[0]) == 0);
        // every later block keeps or gains a blank line
        assert forall|i: int| 1 <= i < r.len() implies blank_prefix_len(#[trigger] r[i]) > 0 by {
            if i == j {
                assert(r[j] == blanks.reverse() + trimmed[j]);
                assert(blanks.len() == k);
                assert(blanks.reverse().len() == k);
                assert(blanks.reverse()[0] == blanks[k - 1]);
                assert(blanks[k - 1] == s[0][k - 1]);
                assert(s[0][k - 1].is_blank());
                assert((blanks.reverse() + trimmed[j])[0] == blanks.reverse()[0]);
                assert(r[i].len() > 0);
                assert(r[i][0].is_blank());
                assert(blank_prefix_len(r[i]) == 1 + blank_prefix_len(r[i].drop_first()));
                crate::spacing::lemma_blank_prefix_le_len(r[i].drop_first());
                assert(blank_prefix_len(r[i]) > 0);
            } else {
                assert(r[i] == s[i]);
                crate::spacing::lemma_blank_prefix_le_len(s[i]);
                if blank_prefix_len(s[i]) == 0 {
                    // a second blank-free block beside the one at z + 1
                    if i == z + 1 {
                        assert(trimmed[j] == s[j]);
                        assert(blank_prefix_len(trimmed[j]) == 0);
                        assert(j != i);
                        assert(s.drop_first()[j - 1] == s[j]);
                        if j < i {
                            crate::order::lemma_count_zb_two(s.drop_first(), j - 1, i - 1);
                        } else {
                            crate::order::lemma_count_zb_two(s.drop_first(), i - 1, j - 1);
                        }
                    } else {
                        assert(s.drop_first()[i - 1] == s[i]);
                        if i < z + 1 {
                            crate::order::lemma_count_zb_two(s.drop_first(), i - 1, z);
                        } else {
                            crate::order::lemma_count_zb_two(s.drop_first(), z, i - 1);
                        }
                    }
                }
            }
        }
        assert(r.len() == s.len());
        assert(spec_recognize(r) == Spacing::Between);
    }
}


/// Concatenating one more block at the front.
proof fn lemma_flatten_prepend(b: Seq<LocV>, rest: Seq<Seq<LocV>>)
    ensures
        flatten_blocks(seq![b] + rest) == b + flatten_blocks(rest),
    decreases rest.len(),
{
    if rest.len() == 0 {
        assert(seq![b] + rest =~= seq![b]);
        assert(seq![b].drop_last() =~= Seq::<Seq<LocV>>::empty());
        assert(flatten_blocks(seq![b]) == flatten_blocks(Seq::<Seq<LocV>>::empty()) + b);
        assert(Seq::<LocV>::empty() + b =~= b);
        assert(b + Seq::<LocV>::empty() =~= b);
    } else {
        lemma_flatten_prepend(b, rest.drop_last());
        assert((seq![b] + rest).drop_last() =~= seq![b] + rest.drop_last());
        assert((seq![b] + rest).last() == rest.last());
        assert((b + flatten_blocks(rest.drop_last())) + rest.last() =~= b + (flatten_blocks(
            rest.drop_last(),
        ) + rest.last()));
    }
}

/// No block boundary falls inside a minimal block: the fold accumulates it
/// whole.
proof fn lemma_part_fold_block(b: Seq<LocV>, t: Seq<LocV>, p: int)
    requires
        0 <= p < b.len(),
        forall|q: int| 0 < q < b.len() ==> !is_complete_spec(#[trigger] b.take(q)),
    ensures
        part_fold(b + t, p) == (Seq::<Seq<LocV>>::empty(), b.take(p)),
    decreases p,
{
    if p == 0 {
        assert(b.take(0) =~= Seq::<LocV>::empty());
    } else {
        lemma_part_fold_block(b, t, p - 1);
        assert((b + t)[p - 1] == b[p - 1]);
        assert(b.take(p - 1).push(b[p - 1]) =~= b.take(p));
        assert(!is_complete_spec(b.take(p)));
    }
}

/// After a whole minimal complete block, the fold has cut exactly it and
/// goes on as if it started fresh.
proof fn lemma_part_fold_shift(b: Seq<LocV>, t: Seq<LocV>, i: int)
    requires
        b.len() > 0,
        is_complete_spec(b),
        forall|q: int| 0 < q < b.len() ==> !is_complete_spec(#[trigger] b.take(q)),
        0 <= i <= t.len(),
    ensures
        part_fold(b + t, b.len() + i) == (
            seq![b] + part_fold(t, i).0,
            part_fold(t, i).1,
        ),
    decreases i,
{
    if i == 0 {
        lemma_part_fold_block(b, t, b.len() - 1);
        assert((b + t)[b.len() - 1] == b[b.len() - 1]);
        assert(b.take(b.len() - 1).push(b[b.len() - 1]) =~= b);
        assert(part_fold(b + t, b.len() as int).0 =~= seq![b]);
        assert(seq![b] + part_fold(t, 0).0 =~= seq![b]);
    } else {
        lemma_part_fold_shift(b, t, i - 1);
        assert((b + t)[b.len() + i - 1] == t[i - 1]);
        let folded = part_fold(t, i - 1);
        let cur2 = folded.1.push(t[i - 1]);
        if is_complete_spec(cur2) {
            assert((seq![b] + folded.0).push(cur2) =~= seq![b] + folded.0.push(cur2));
        }
    }
}

/// Cutting the concatenation of minimal complete blocks finds exactly
/// those blocks again.
pub proof fn lemma_partition_of_flatten(bs: Seq<Seq<LocV>>)
    requires
        forall|k: int| 0 <= k < bs.len() ==> (#[trigger] bs[k]).len() > 0,
        forall|k: int| 0 <= k < bs.len() ==> is_complete_spec(#[trigger] bs[k]),
        forall|k: int, q: int|
            0 <= k < bs.len() && 0 < q < bs[k].len() ==> !is_complete_spec(
                #[trigger] bs[k].take(q),
            ),
    ensures
        spec_partition(flatten_blocks(bs)) == bs,
    decreases bs.len(),
{
    if bs.len() == 0 {
        assert(part_fold(flatten_blocks(bs), 0).0 =~= bs);
    } else {
        let b = bs[0];
        let rest = bs.drop_first();
        assert(seq![b] + rest =~= bs);
        lemma_flatten_prepend(b, rest);
        let flat_rest = flatten_blocks(rest);
        assert forall|k: int| 0 <= k < rest.len() implies (#[trigger] rest[k]).len() > 0
            && is_complete_spec(rest[k]) by {
            assert(rest[k] == bs[k + 1]);
        }
        assert forall|k: int, q: int|
            0 <= k < rest.len() && 0 < q < rest[k].len() implies !is_complete_spec(
            #[trigger] rest[k].take(q),
        ) by {
            assert(rest[k] == bs[k + 1]);
        }
        lemma_partition_of_flatten(rest);
        let flat = flatten_blocks(bs);
        assert(flat == b + flat_rest);
        assert(flat.len() == b.len() + flat_rest.len()) by {
            assert((b + flat_rest).len() == b.len() + flat_rest.len());
        }
        lemma_part_fold_shift(b, flat_rest, flat_rest.len() as int);
        let folded = part_fold(flat_rest, flat_rest.len() as int);
        assert(part_fold(flat, flat.len() as int) == (seq![b] + folded.0, folded.1));
        if folded.1.len() == 0 {
            assert(spec_partition(flat_rest) == folded.0);
            assert(spec_partition(flat) == seq![b] + folded.0);
            assert(seq![b] + rest =~= bs);
        } else {
            assert(spec_partition(flat_rest) == folded.0.push(folded.1));
            assert(spec_partition(flat) == (seq![b] + folded.0).push(folded.1));
            assert((seq![b] + folded.0).push(folded.1) =~= seq![b] + folded.0.push(folded.1));
        }
    }
}

/// Concatenated runs of blocks flatten to concatenated lines.
proof fn lemma_flatten_add(s1: Seq<Seq<LocV>>, s2: Seq<Seq<LocV>>)
    ensures
        flatten_blocks(s1 + s2) == flatten_blocks(s1) + flatten_blocks(s2),
    decreases s2.len(),
{
    if s2.len() == 0 {
        assert(s1 + s2 =~= s1);
        assert(flatten_blocks(s1) + flatten_blocks(s2) =~= flatten_blocks(s1));
    } else {
        lemma_flatten_add(s1, s2.drop_last());
        assert((s1 + s2).drop_last() =~= s1 + s2.drop_last());
        assert((s1 + s2).last() == s2.last());
        assert((flatten_blocks(s1) + flatten_blocks(s2.drop_last())) + s2.last()
            =~= flatten_blocks(s1) + (flatten_blocks(s2.drop_last()) + s2.last()));
    }
}

/// Sorting the blocks keeps the number of lines they hold.
proof fn lemma_flatten_sort_len(s: Seq<Seq<LocV>>)
    ensures
        flatten_blocks(spec_sort_blocks(s)).len() == flatten_blocks(s).len(),
    decreases s.len(),
{
    if s.len() > 0 {
        lemma_flatten_sort_len(s.drop_first());
        let t = spec_sort_blocks(s.drop_first());
        crate::order::lemma_insert_shape(s[0], t);
        let p = crate::order::ins_pos(s[0], t);
        lemma_flatten_add(t.take(p) + seq![s[0]], t.skip(p));
        lemma_flatten_add(t.take(p), seq![s[0]]);
        lemma_flatten_add(t.take(p), t.skip(p));
        assert(t.take(p) + t.skip(p) =~= t);
        assert(flatten_blocks(seq![s[0]]) == s[0]) by {
            assert(seq![s[0]].drop_last() =~= Seq::<Seq<LocV>>::empty());
            assert(flatten_blocks(Seq::<Seq<LocV>>::empty()) == Seq::<LocV>::empty());
            assert(Seq::<LocV>::empty() + s[0] =~= s[0]);
        }
        assert(flatten_blocks(s) == s[0] + flatten_blocks(s.drop_first())) by {
            assert(seq![s[0]] + s.drop_first() =~= s);
            lemma_flatten_add(seq![s[0]], s.drop_first());
        }
    }
}

/// Law (idempotence): on a region whose blocks are all complete and whose
/// spacing follows no recognized convention to repair, sorting is
/// idempotent: the sorted output spans the same line range, and sorting
/// that range again — the second pass cuts exactly the sorted blocks and
/// leaves their order alone — returns the output byte for byte.
pub proof fn lemma_focused_sort_idempotent(before: Seq<LocV>, focus: Seq<LocV>, after: Seq<LocV>)
    requires
        forall|k: int|
            0 <= k < spec_partition(focus).len() ==> is_complete_spec(
                #[trigger] spec_partition(focus)[k],
            ),
        spec_recognize(spec_partition(focus)) == Spacing::Other,
    ensures
        ({
            let out = crate::focused::spec_focused_sort(before, focus, after);
            let mid = out.subrange(before.len() as int, before.len() + focus.len() as int);
            &&& out.len() == before.len() + focus.len() + after.len()
            &&& crate::focused::spec_focused_sort(before, mid, after) == out
        }),
{
    let p = spec_partition(focus);
    let s = spec_sort_blocks(p);
    lemma_partition_minimal(focus);
    lemma_partition_concat(focus);
    let out = crate::focused::spec_focused_sort(before, focus, after);
    assert(spec_apply(Spacing::Other, s) == s);
    assert(out == before + flatten_blocks(s) + after);
    lemma_flatten_sort_len(p);
    assert(flatten_blocks(s).len() == focus.len());
    let mid = out.subrange(before.len() as int, before.len() + focus.len() as int);
    assert(mid =~= flatten_blocks(s));
    let pred = |b: Seq<LocV>|
        is_complete_spec(b) && b.len() > 0 && (forall|q: int|
            0 < q < b.len() ==> !is_complete_spec(#[trigger] b.take(q)));
    assert forall|k: int| 0 <= k < p.len() implies #[trigger] pred(p[k]) by {
        assert(is_complete_spec(p[k]));
        assert(p[k].len() > 0);
    }
    crate::order::lemma_sort_all_pred(p, pred);
    assert forall|k: int| 0 <= k < s.len() implies (#[trigger] s[k]).len() > 0
        && is_complete_spec(s[k]) by {
        assert(pred(s[k]));
    }
    assert forall|k: int, q: int|
        0 <= k < s.len() && 0 < q < s[k].len() implies !is_complete_spec(
        #[trigger] s[k].take(q),
    ) by {
        assert(pred(s[k]));
    }
    lemma_partition_of_flatten(s);
    assert(spec_partition(mid) == s);
    crate::order::lemma_sort_blocks_sorted(p);
    crate::order::lemma_sort_of_sorted(s);
    let sp2 = spec_recognize(s);
    assert(spec_apply(sp2, s) == s) by {
        if sp2 == Spacing::Between {
            assert(s.len() > 0);
            crate::spacing::lemma_blank_prefix_le_len(s[0]);
            assert(blank_prefix_len(s[0]) == 0);
        }
    }
    assert(crate::focused::spec_focused_sort(before, mid, after) == before + flatten_blocks(s)
        + after);
}

} // verus!
