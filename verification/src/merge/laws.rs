//! What the merge promises as a whole: only edits to the same item on both
//! sides conflict; a side left alone, or the same edit on both sides, always
//! merges cleanly; an item changed on one side only takes that side's
//! version; swapping ours and theirs changes neither the fallback, nor
//! cleanliness, nor which items conflict; the whole-file fallback never
//! fabricates a merge; and the whitespace normal form items are compared by
//! is a canonical form: the input's words joined by single spaces.
use vstd::prelude::*;

use super::items::{item_for_key, join, normalized, parsed_items, words, ItemView};
use super::{
    append_new, conflict_block_text, fallback_outcome, key_order, keys_of, merge_outcome, merge_progress,
    merged_text, resolution, structural_outcome, ConflictView, MergeView, ResolvedView,
};
use crate::strings::is_ws;

verus! {

/// Two versions of an item differ: one is missing and the other not, or
/// their normalised texts differ.
pub open spec fn differs(x: Option<ItemView>, y: Option<ItemView>) -> bool {
    match (x, y) {
        (None, None) => false,
        (Some(a), Some(b)) => a.norm != b.norm,
        _ => true,
    }
}

/// Both sides changed the item under `key`, and not in the same way.
pub open spec fn edited_on_both_sides(
    base: Seq<ItemView>,
    ours: Seq<ItemView>,
    theirs: Seq<ItemView>,
    key: Seq<char>,
) -> bool {
    let (b, o, t) = (item_for_key(base, key), item_for_key(ours, key), item_for_key(theirs, key));
    differs(o, b) && differs(t, b) && differs(o, t)
}

proof fn lemma_conflict_cases(b: Option<ItemView>, o: Option<ItemView>, t: Option<ItemView>)
    ensures
        resolution(b, o, t).0 is Conflict ==> differs(o, b) && differs(t, b) && differs(o, t),
{
}

proof fn lemma_progress_conflicts(
    base: Seq<ItemView>,
    ours: Seq<ItemView>,
    theirs: Seq<ItemView>,
    keys: Seq<Seq<char>>,
    i: int,
)
    requires
        0 <= i < merge_progress(base, ours, theirs, keys).conflicts.len(),
    ensures
        edited_on_both_sides(base, ours, theirs, merge_progress(base, ours, theirs, keys).conflicts[i].key),
    decreases keys.len(),
{
    let prev = merge_progress(base, ours, theirs, keys.drop_last());
    let key = keys.last();
    lemma_conflict_cases(item_for_key(base, key), item_for_key(ours, key), item_for_key(theirs, key));
    if i < prev.conflicts.len() {
        lemma_progress_conflicts(base, ours, theirs, keys.drop_last(), i);
    }
}

/// Only edits to the same item conflict: every conflict of a per-item merge
/// is on an item that both sides changed, and changed differently (a
/// reformatting that leaves the normalised text alone is no change).
pub proof fn law_conflicts_need_edits_on_both_sides(
    res: MergeView,
    base: Seq<ItemView>,
    ours: Seq<ItemView>,
    theirs: Seq<ItemView>,
    i: int,
)
    requires
        structural_outcome(res, base, ours, theirs),
        0 <= i < res.conflicts.len(),
    ensures
        edited_on_both_sides(base, ours, theirs, res.conflicts[i].key),
{
    lemma_progress_conflicts(base, ours, theirs, key_order(base, ours, theirs), i);
}

/// A per-item merge in which no item is edited on both sides is clean — e.g.
/// two agents adding different declarations to the same file.
pub proof fn law_disjoint_edits_merge_cleanly(
    res: MergeView,
    base: Seq<ItemView>,
    ours: Seq<ItemView>,
    theirs: Seq<ItemView>,
)
    requires
        structural_outcome(res, base, ours, theirs),
        forall|key: Seq<char>| !edited_on_both_sides(base, ours, theirs, key),
    ensures
        res.conflicts.len() == 0,
{
    if res.conflicts.len() > 0 {
        law_conflicts_need_edits_on_both_sides(res, base, ours, theirs, 0);
    }
}

proof fn lemma_items_equal_no_difference(x: Seq<ItemView>, key: Seq<char>)
    ensures
        !differs(item_for_key(x, key), item_for_key(x, key)),
{
}

/// When one side leaves the file as it was, the merge is clean, whatever the
/// other side did (reordering and reformatting included).
pub proof fn law_untouched_side_merges_cleanly(res: MergeView, base: Seq<char>, ours: Seq<char>)
    requires
        merge_outcome(res, base, ours, base) || merge_outcome(res, base, base, ours),
    ensures
        res.conflicts.len() == 0,
{
    match (parsed_items(base), parsed_items(ours)) {
        (Some(b), Some(o)) => {
            assert forall|key: Seq<char>| !edited_on_both_sides(b, o, b, key) by {
                lemma_items_equal_no_difference(b, key);
            }
            assert forall|key: Seq<char>| !edited_on_both_sides(b, b, o, key) by {
                lemma_items_equal_no_difference(b, key);
            }
            if merge_outcome(res, base, ours, base) {
                law_disjoint_edits_merge_cleanly(res, b, o, b);
            } else {
                law_disjoint_edits_merge_cleanly(res, b, b, o);
            }
        },
        _ => {},
    }
}

/// When both sides make the same change, the merge is clean.
pub proof fn law_same_edit_merges_cleanly(res: MergeView, base: Seq<char>, side: Seq<char>)
    requires
        merge_outcome(res, base, side, side),
    ensures
        res.conflicts.len() == 0,
{
    match (parsed_items(base), parsed_items(side)) {
        (Some(b), Some(s)) => {
            assert forall|key: Seq<char>| !edited_on_both_sides(b, s, s, key) by {
                lemma_items_equal_no_difference(s, key);
            }
            law_disjoint_edits_merge_cleanly(res, b, s, s);
        },
        _ => {},
    }
}

/// The fallback never fabricates a merge: when it reports no conflict, the
/// result is one of the two sides verbatim.
pub proof fn law_fallback_never_fabricates(res: MergeView, base: Seq<char>, ours: Seq<char>, theirs: Seq<char>)
    requires
        merge_outcome(res, base, ours, theirs),
        res.fell_back,
        res.conflicts.len() == 0,
    ensures
        res.merged == ours || res.merged == theirs,
{
    match (parsed_items(base), parsed_items(ours), parsed_items(theirs)) {
        (Some(b), Some(o), Some(t)) => {
            assert(structural_outcome(res, b, o, t));
        },
        _ => {
            assert(fallback_outcome(res, base, ours, theirs));
        },
    }
}

/// The keys of a merge's conflicts, in order.
pub open spec fn conflict_keys(res: MergeView) -> Seq<Seq<char>> {
    res.conflicts.map_values(|c: ConflictView| c.key)
}

/// The item under `key` conflicts in a per-item merge.
pub open spec fn conflicts_on(base: Seq<ItemView>, ours: Seq<ItemView>, theirs: Seq<ItemView>, key: Seq<char>) -> bool {
    resolution(item_for_key(base, key), item_for_key(ours, key), item_for_key(theirs, key)).0 is Conflict
}

proof fn lemma_conflict_iff_edited(b: Option<ItemView>, o: Option<ItemView>, t: Option<ItemView>)
    ensures
        (resolution(b, o, t).0 is Conflict) == (differs(o, b) && differs(t, b) && differs(o, t)),
{
}

proof fn lemma_progress_conflict_keys(
    base: Seq<ItemView>,
    ours: Seq<ItemView>,
    theirs: Seq<ItemView>,
    keys: Seq<Seq<char>>,
)
    ensures
        merge_progress(base, ours, theirs, keys).conflicts.map_values(|c: ConflictView| c.key) == keys.filter(
            |k: Seq<char>| conflicts_on(base, ours, theirs, k),
        ),
    decreases keys.len(),
{
    let pred = |k: Seq<char>| conflicts_on(base, ours, theirs, k);
    if keys.len() == 0 {
        assert(keys.filter(pred) =~= Seq::<Seq<char>>::empty()) by {
            reveal(Seq::filter);
        }
        assert(merge_progress(base, ours, theirs, keys).conflicts.map_values(|c: ConflictView| c.key) =~= Seq::<
            Seq<char>,
        >::empty());
    } else {
        let prev = keys.drop_last();
        lemma_progress_conflict_keys(base, ours, theirs, prev);
        assert(prev.push(keys.last()) =~= keys);
        prev.lemma_filter_push(keys.last(), pred);
        let before = merge_progress(base, ours, theirs, prev).conflicts;
        let after = merge_progress(base, ours, theirs, keys).conflicts;
        if pred(keys.last()) {
            assert(after.map_values(|c: ConflictView| c.key) =~= before.map_values(|c: ConflictView| c.key).push(
                keys.last(),
            ));
        } else {
            assert(after == before);
        }
    }
}

pub(crate) proof fn lemma_append_new(acc: Seq<Seq<char>>, more: Seq<Seq<char>>)
    requires
        acc.no_duplicates(),
    ensures
        append_new(acc, more).no_duplicates(),
        forall|x: Seq<char>| #[trigger] append_new(acc, more).contains(x) == (acc.contains(x) || more.contains(x)),
    decreases more.len(),
{
    if more.len() > 0 {
        let prev = more.drop_last();
        lemma_append_new(acc, prev);
        let r = append_new(acc, prev);
        assert forall|x: Seq<char>| #[trigger] more.contains(x) == (prev.contains(x) || x == more.last()) by {
            if more.contains(x) {
                let i = choose|i: int| 0 <= i < more.len() && more[i] == x;
                if i < prev.len() {
                    assert(prev[i] == x);
                }
            }
            if prev.contains(x) {
                let i = choose|i: int| 0 <= i < prev.len() && prev[i] == x;
                assert(more[i] == x);
            }
            if x == more.last() {
                assert(more[more.len() - 1] == x);
            }
        }
        if !r.contains(more.last()) {
            let n = r.push(more.last());
            assert forall|x: Seq<char>| #[trigger] n.contains(x) == (r.contains(x) || x == more.last()) by {
                if n.contains(x) {
                    let i = choose|i: int| 0 <= i < n.len() && n[i] == x;
                    if i < r.len() {
                        assert(r[i] == x);
                    }
                }
                if r.contains(x) {
                    let i = choose|i: int| 0 <= i < r.len() && r[i] == x;
                    assert(n[i] == x);
                }
                if x == more.last() {
                    assert(n[r.len() as int] == x);
                }
            }
        }
    }
}

proof fn lemma_filter_no_duplicates(s: Seq<Seq<char>>, pred: spec_fn(Seq<char>) -> bool)
    requires
        s.no_duplicates(),
    ensures
        s.filter(pred).no_duplicates(),
        forall|x: Seq<char>| #[trigger] s.filter(pred).contains(x) == (s.contains(x) && pred(x)),
    decreases s.len(),
{
    s.filter_lemma(pred);
    assert forall|x: Seq<char>| #[trigger] s.filter(pred).contains(x) implies s.contains(x) && pred(x) by {
        s.lemma_filter_contains_rev(pred, x);
        let i = choose|i: int| 0 <= i < s.filter(pred).len() && s.filter(pred)[i] == x;
    }
    assert forall|x: Seq<char>| s.contains(x) && pred(x) implies #[trigger] s.filter(pred).contains(x) by {
        let i = choose|i: int| 0 <= i < s.len() && s[i] == x;
    }
    if s.len() > 0 {
        let prev = s.drop_last();
        assert(prev.no_duplicates());
        lemma_filter_no_duplicates(prev, pred);
        assert(prev.push(s.last()) =~= s);
        prev.lemma_filter_push(s.last(), pred);
        if pred(s.last()) {
            assert(!prev.contains(s.last()));
            let f = prev.filter(pred).push(s.last());
            assert forall|i: int, j: int| 0 <= i < f.len() && 0 <= j < f.len() && i != j implies f[i] != f[j] by {
                if i < f.len() - 1 && j < f.len() - 1 {
                } else if i == f.len() - 1 && j < f.len() - 1 {
                    assert(prev.filter(pred).contains(f[j]));
                } else if j == f.len() - 1 && i < f.len() - 1 {
                    assert(prev.filter(pred).contains(f[i]));
                }
            }
        }
    }
}

/// Two duplicate-free lists of the same elements keep, filtered alike, the
/// same elements, each once.
proof fn lemma_same_elements_filter(x: Seq<Seq<char>>, y: Seq<Seq<char>>, pred: spec_fn(Seq<char>) -> bool)
    requires
        x.no_duplicates(),
        y.no_duplicates(),
        forall|a: Seq<char>| #[trigger] x.contains(a) == y.contains(a),
    ensures
        x.filter(pred).to_multiset() == y.filter(pred).to_multiset(),
{
    broadcast use vstd::seq_lib::to_multiset_contains;

    lemma_filter_no_duplicates(x, pred);
    lemma_filter_no_duplicates(y, pred);
    let (fx, fy) = (x.filter(pred), y.filter(pred));
    fx.lemma_multiset_has_no_duplicates();
    fy.lemma_multiset_has_no_duplicates();
    assert forall|a: Seq<char>| fx.to_multiset().count(a) == fy.to_multiset().count(a) by {
        assert(fx.contains(a) == fy.contains(a));
    }
    assert(fx.to_multiset() =~= fy.to_multiset());
}

/// Swapping ours and theirs changes neither whether the merge falls back,
/// nor whether it is clean, nor which items conflict (the conflicts may come
/// in another order).
pub proof fn law_merge_symmetric(r1: MergeView, r2: MergeView, base: Seq<char>, ours: Seq<char>, theirs: Seq<char>)
    requires
        merge_outcome(r1, base, ours, theirs),
        merge_outcome(r2, base, theirs, ours),
    ensures
        r1.fell_back == r2.fell_back,
        (r1.conflicts.len() == 0) == (r2.conflicts.len() == 0),
        conflict_keys(r1).to_multiset() == conflict_keys(r2).to_multiset(),
{
    broadcast use vstd::seq_lib::to_multiset_len;

    match (parsed_items(base), parsed_items(ours), parsed_items(theirs)) {
        (Some(b), Some(o), Some(t)) => {
            let (k1, k2) = (key_order(b, o, t), key_order(b, t, o));
            lemma_append_new(Seq::empty(), keys_of(b));
            lemma_append_new(append_new(Seq::empty(), keys_of(b)), keys_of(o));
            lemma_append_new(append_new(append_new(Seq::empty(), keys_of(b)), keys_of(o)), keys_of(t));
            lemma_append_new(append_new(Seq::empty(), keys_of(b)), keys_of(t));
            lemma_append_new(append_new(append_new(Seq::empty(), keys_of(b)), keys_of(t)), keys_of(o));
            let p1 = |k: Seq<char>| conflicts_on(b, o, t, k);
            let p2 = |k: Seq<char>| conflicts_on(b, t, o, k);
            assert(p1 =~= p2) by {
                assert forall|k: Seq<char>| #[trigger] p1(k) == p2(k) by {
                    let (bi, oi, ti) = (item_for_key(b, k), item_for_key(o, k), item_for_key(t, k));
                    lemma_conflict_iff_edited(bi, oi, ti);
                    lemma_conflict_iff_edited(bi, ti, oi);
                }
            }
            lemma_progress_conflict_keys(b, o, t, k1);
            lemma_progress_conflict_keys(b, t, o, k2);
            lemma_same_elements_filter(k1, k2, p1);
            assert(conflict_keys(r1) == k1.filter(p1));
            assert(conflict_keys(r2) == k2.filter(p2));
            assert(conflict_keys(r1).len() == r1.conflicts.len());
            assert(conflict_keys(r2).len() == r2.conflicts.len());
            assert(conflict_keys(r1).to_multiset().len() == conflict_keys(r1).len());
            assert(conflict_keys(r2).to_multiset().len() == conflict_keys(r2).len());
        },
        _ => {
            assert(fallback_outcome(r1, base, ours, theirs));
            assert(fallback_outcome(r2, base, theirs, ours));
            assert(conflict_keys(r1) =~= conflict_keys(r2));
        },
    }
}

/// When one side leaves an item as it was in base, the merge goes with the
/// other side: it keeps that side's version of the item (its text, or one
/// normalising to the same), or drops the item if that side deleted it.
pub proof fn law_one_sided_change_is_taken(b: ItemView, changed: Option<ItemView>, kept: ItemView)
    requires
        kept.norm == b.norm,
    ensures
        resolution(Some(b), changed, Some(kept)).0 == match changed {
            Some(c) => ResolvedView::Take(c.raw),
            None => ResolvedView::Remove,
        },
        match resolution(Some(b), Some(kept), changed).0 {
            ResolvedView::Take(text) => changed matches Some(c) && (text == c.raw || (text == kept.raw
                && kept.norm == c.norm)),
            ResolvedView::Remove => changed is None,
            ResolvedView::Conflict(_, _) => false,
        },
{
}

/// An item that both sides deleted stays deleted, whatever base held.
pub proof fn law_deleted_on_both_sides_stays_deleted(b: Option<ItemView>)
    ensures
        resolution(b, None, None).0 == ResolvedView::Remove,
{
}

/// The merge never brings back base's text: an item it keeps has the text of
/// ours' or theirs' version.
pub proof fn law_kept_text_comes_from_a_side(b: Option<ItemView>, o: Option<ItemView>, t: Option<ItemView>)
    ensures
        resolution(b, o, t).0 matches ResolvedView::Take(text) ==> (o matches Some(oi) && text == oi.raw)
            || (t matches Some(ti) && text == ti.raw),
{
}

proof fn lemma_item_for_key_is_an_item(items: Seq<ItemView>, key: Seq<char>)
    ensures
        item_for_key(items, key) matches Some(it) ==> items.contains(it),
    decreases items.len(),
{
    if items.len() > 0 && items.last().key != key {
        lemma_item_for_key_is_an_item(items.drop_last(), key);
        if let Some(it) = item_for_key(items, key) {
            let i = choose|i: int| 0 <= i < items.drop_last().len() && items.drop_last()[i] == it;
            assert(items[i] == it);
        }
    }
    if items.len() > 0 && items.last().key == key {
        assert(items[items.len() - 1] == items.last());
    }
}

/// `block` is the text of an item of ours or theirs, or a conflict block.
pub open spec fn block_from_a_side(block: Seq<char>, ours: Seq<ItemView>, theirs: Seq<ItemView>) -> bool {
    ||| exists|i: int| 0 <= i < ours.len() && #[trigger] ours[i].raw == block
    ||| exists|i: int| 0 <= i < theirs.len() && #[trigger] theirs[i].raw == block
    ||| exists|o: Option<Seq<char>>, t: Option<Seq<char>>| block == #[trigger] conflict_block_text(o, t)
}

proof fn lemma_blocks_from_the_sides(
    base: Seq<ItemView>,
    ours: Seq<ItemView>,
    theirs: Seq<ItemView>,
    keys: Seq<Seq<char>>,
    n: int,
)
    requires
        0 <= n < merge_progress(base, ours, theirs, keys).blocks.len(),
    ensures
        block_from_a_side(merge_progress(base, ours, theirs, keys).blocks[n], ours, theirs),
    decreases keys.len(),
{
    let prev = merge_progress(base, ours, theirs, keys.drop_last());
    let key = keys.last();
    let (bi, oi, ti) = (item_for_key(base, key), item_for_key(ours, key), item_for_key(theirs, key));
    if n < prev.blocks.len() {
        lemma_blocks_from_the_sides(base, ours, theirs, keys.drop_last(), n);
    } else {
        law_kept_text_comes_from_a_side(bi, oi, ti);
        lemma_item_for_key_is_an_item(ours, key);
        lemma_item_for_key_is_an_item(theirs, key);
        match resolution(bi, oi, ti).0 {
            ResolvedView::Take(text) => {
                if oi is Some && text == oi->0.raw {
                    let it = oi->0;
                    let i = choose|i: int| 0 <= i < ours.len() && ours[i] == it;
                    assert(ours[i].raw == text);
                } else {
                    let it = ti->0;
                    let i = choose|i: int| 0 <= i < theirs.len() && theirs[i] == it;
                    assert(theirs[i].raw == text);
                }
            },
            ResolvedView::Conflict(o, t) => {
                assert(merge_progress(base, ours, theirs, keys).blocks[n] == conflict_block_text(o, t));
            },
            ResolvedView::Remove => {},
        }
    }
}

/// Every block of a per-item merge's output is ours' or theirs' text of an
/// item, or a conflict block: nothing that both sides dropped comes back.
pub proof fn law_merged_blocks_come_from_the_sides(res: MergeView, base: Seq<ItemView>, ours: Seq<ItemView>, theirs: Seq<ItemView>)
    requires
        structural_outcome(res, base, ours, theirs),
    ensures
        exists|blocks: Seq<Seq<char>>|
            res.merged == merged_text(blocks) && forall|n: int|
                0 <= n < blocks.len() ==> block_from_a_side(#[trigger] blocks[n], ours, theirs),
{
    let blocks = merge_progress(base, ours, theirs, key_order(base, ours, theirs)).blocks;
    assert forall|n: int| 0 <= n < blocks.len() implies block_from_a_side(#[trigger] blocks[n], ours, theirs) by {
        lemma_blocks_from_the_sides(base, ours, theirs, key_order(base, ours, theirs), n);
    }
}

/// Every word is non-empty and holds no whitespace.
pub open spec fn plain_words(ws: Seq<Seq<char>>) -> bool {
    forall|k: int|
        0 <= k < ws.len() ==> #[trigger] ws[k].len() > 0 && forall|m: int|
            0 <= m < ws[k].len() ==> !is_ws(#[trigger] ws[k][m])
}

proof fn lemma_words_plain(s: Seq<char>)
    ensures
        plain_words(words(s)),
    decreases s.len(),
{
    if s.len() > 0 {
        lemma_words_plain(s.drop_last());
        let w = words(s.drop_last());
        let c = s.last();
        if !is_ws(c) && s.len() >= 2 && !is_ws(s[s.len() - 2]) {
            let n = words(s);
            assert forall|k: int| 0 <= k < n.len() implies #[trigger] n[k].len() > 0 && forall|m: int|
                0 <= m < n[k].len() ==> !is_ws(#[trigger] n[k][m]) by {
                if k < w.len() - 1 {
                    assert(n[k] == w[k]);
                } else {
                    assert(n[k] == w.last().push(c));
                    assert forall|m: int| 0 <= m < n[k].len() implies !is_ws(#[trigger] n[k][m]) by {
                        if m < w.last().len() {
                            assert(n[k][m] == w[w.len() - 1][m]);
                        }
                    }
                }
            }
        }
    }
}

/// The words of `a`, a space, then a plain word `w`: those of `a`, then `w`.
proof fn lemma_words_space_word(a: Seq<char>, w: Seq<char>)
    requires
        w.len() > 0,
        forall|m: int| 0 <= m < w.len() ==> !is_ws(#[trigger] w[m]),
    ensures
        words(a + seq![' '] + w) == words(a).push(w),
    decreases w.len(),
{
    let s = a + seq![' '] + w;
    assert(words(a + seq![' ']) == words(a)) by {
        assert((a + seq![' ']).drop_last() =~= a);
    }
    if w.len() == 1 {
        assert(s.drop_last() =~= a + seq![' ']);
        assert(s.last() == w[0]);
        assert(s[s.len() - 2] == ' ');
        assert(seq![w[0]] =~= w);
    } else {
        lemma_words_space_word(a, w.drop_last());
        assert(s.drop_last() =~= a + seq![' '] + w.drop_last());
        assert(s.last() == w.last());
        assert(s[s.len() - 2] == w[w.len() - 2]);
        assert(w.drop_last().push(w.last()) =~= w);
        assert(words(a).push(w.drop_last()).drop_last() =~= words(a));
    }
}

/// A plain word is its own single word.
proof fn lemma_words_single(w: Seq<char>)
    requires
        w.len() > 0,
        forall|m: int| 0 <= m < w.len() ==> !is_ws(#[trigger] w[m]),
    ensures
        words(w) == seq![w],
    decreases w.len(),
{
    let c = w.last();
    assert(!is_ws(c));
    if w.len() == 1 {
        assert(w.drop_last() =~= Seq::<char>::empty());
        assert(words(w.drop_last()) == Seq::<Seq<char>>::empty());
        assert(seq![c] =~= w);
        assert(Seq::<Seq<char>>::empty().push(w) =~= seq![w]);
    } else {
        let p = w.drop_last();
        assert forall|m: int| 0 <= m < p.len() implies !is_ws(#[trigger] p[m]) by {
            assert(p[m] == w[m]);
        }
        lemma_words_single(p);
        assert(!is_ws(w[w.len() - 2]));
        assert(p.push(c) =~= w);
        assert(seq![p].drop_last().push(p.push(c)) =~= seq![w]);
    }
}

proof fn lemma_words_of_joined(ws: Seq<Seq<char>>)
    requires
        plain_words(ws),
    ensures
        words(join(ws, seq![' '])) == ws,
    decreases ws.len(),
{
    if ws.len() == 0 {
    } else if ws.len() == 1 {
        assert(ws[0].len() > 0);
        lemma_words_single(ws[0]);
        assert(seq![ws[0]] =~= ws);
    } else {
        let prev = ws.drop_last();
        assert(plain_words(prev)) by {
            assert forall|k: int| 0 <= k < prev.len() implies #[trigger] prev[k].len() > 0 && forall|m: int|
                0 <= m < prev[k].len() ==> !is_ws(#[trigger] prev[k][m]) by {
                assert(prev[k] == ws[k]);
                assert(ws[k].len() > 0);
            }
        }
        lemma_words_of_joined(prev);
        assert(ws[ws.len() - 1].len() > 0);
        assert forall|m: int| 0 <= m < ws.last().len() implies !is_ws(#[trigger] ws.last()[m]) by {
            assert(ws.last() == ws[ws.len() - 1]);
        }
        lemma_words_space_word(join(prev, seq![' ']), ws.last());
        assert(prev.push(ws.last()) =~= ws);
    }
}

/// A text is in normal form: whitespace only as single spaces between
/// non-whitespace, none at either end.
pub open spec fn in_normal_form(n: Seq<char>) -> bool {
    &&& forall|i: int| 0 <= i < n.len() && is_ws(#[trigger] n[i]) ==> n[i] == ' '
    &&& forall|i: int| 0 <= i < n.len() - 1 && #[trigger] n[i] == ' ' ==> n[i + 1] != ' '
    &&& n.len() > 0 ==> !is_ws(n[0]) && !is_ws(n[n.len() - 1])
}

proof fn lemma_join_in_normal_form(ws: Seq<Seq<char>>)
    requires
        plain_words(ws),
    ensures
        in_normal_form(join(ws, seq![' '])),
    decreases ws.len(),
{
    let n = join(ws, seq![' ']);
    if ws.len() == 1 {
        assert(ws[0].len() > 0);
        assert forall|i: int| 0 <= i < n.len() implies !is_ws(#[trigger] n[i]) by {
            assert(!is_ws(ws[0][i]));
        }
    } else if ws.len() > 1 {
        let prev = ws.drop_last();
        assert(plain_words(prev)) by {
            assert forall|k: int| 0 <= k < prev.len() implies #[trigger] prev[k].len() > 0 && forall|m: int|
                0 <= m < prev[k].len() ==> !is_ws(#[trigger] prev[k][m]) by {
                assert(prev[k] == ws[k]);
                assert(ws[k].len() > 0);
            }
        }
        lemma_join_in_normal_form(prev);
        let a = join(prev, seq![' ']);
        let w = ws.last();
        assert(w == ws[ws.len() - 1]);
        assert(w.len() > 0);
        assert forall|m: int| 0 <= m < w.len() implies !is_ws(#[trigger] w[m]) by {
            assert(!is_ws(ws[ws.len() - 1][m]));
        }
        lemma_words_nonempty_join(prev);
        assert(n == a + seq![' '] + w);
        assert forall|i: int| 0 <= i < n.len() && is_ws(#[trigger] n[i]) implies n[i] == ' ' by {
            if i < a.len() {
                assert(n[i] == a[i]);
            } else if i > a.len() {
                assert(n[i] == w[i - a.len() - 1]);
            }
        }
        assert forall|i: int| 0 <= i < n.len() - 1 && #[trigger] n[i] == ' ' implies n[i + 1] != ' ' by {
            if i < a.len() - 1 {
                assert(n[i] == a[i] && n[i + 1] == a[i + 1]);
            } else if i == a.len() - 1 {
                assert(n[i] == a[a.len() - 1]);
            } else if i == a.len() {
                assert(n[i + 1] == w[0]);
            } else {
                assert(n[i] == w[i - a.len() - 1]);
            }
        }
        assert(n[0] == a[0]);
        assert(n[n.len() - 1] == w[w.len() - 1]);
    }
}

proof fn lemma_words_nonempty_join(ws: Seq<Seq<char>>)
    requires
        plain_words(ws),
        ws.len() > 0,
    ensures
        join(ws, seq![' ']).len() > 0,
    decreases ws.len(),
{
    assert(ws[0].len() > 0);
    if ws.len() > 1 {
        assert(ws.drop_last()[0] == ws[0]);
        assert(plain_words(ws.drop_last())) by {
            assert forall|k: int| 0 <= k < ws.drop_last().len() implies #[trigger] ws.drop_last()[k].len() > 0 && forall|m: int|
                0 <= m < ws.drop_last()[k].len() ==> !is_ws(#[trigger] ws.drop_last()[k][m]) by {
                assert(ws.drop_last()[k] == ws[k]);
                assert(ws[k].len() > 0);
            }
        }
        lemma_words_nonempty_join(ws.drop_last());
    }
}

/// Normalising gives the text's words joined by single spaces: the result is
/// in normal form, and its words are those of the input.
pub proof fn law_normalize_joins_words(s: Seq<char>)
    ensures
        normalized(s) == join(words(s), seq![' ']),
        in_normal_form(normalized(s)),
        words(normalized(s)) == words(s),
{
    lemma_words_plain(s);
    lemma_join_in_normal_form(words(s));
    lemma_words_of_joined(words(s));
}

/// Normalising is a canonical form: normalising a normalised text changes
/// nothing.
pub proof fn law_normalize_idempotent(s: Seq<char>)
    ensures
        normalized(normalized(s)) == normalized(s),
{
    lemma_words_plain(s);
    lemma_words_of_joined(words(s));
}

} // verus!
