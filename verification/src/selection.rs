//! What it means to keep some items of a sequence, and what `Seq::filter`
//! keeps.
use vstd::prelude::*;

verus! {

/// `part` holds the items of `whole` that `keep` accepts, each as often as
/// it stands in `whole` and in the same order: `picks` lists, rising, the
/// positions in `whole` of the items of `part`, and these are all the
/// positions at which `keep` accepts the item.
pub open spec fn selects<T>(
    part: Seq<T>,
    whole: Seq<T>,
    keep: spec_fn(T) -> bool,
    picks: Seq<int>,
) -> bool {
    &&& picks.len() == part.len()
    &&& forall|i: int|
        0 <= i < picks.len() ==> 0 <= #[trigger] picks[i] < whole.len() && part[i]
            == whole[picks[i]]
    &&& forall|i: int, j: int| 0 <= i < j < picks.len() ==> picks[i] < picks[j]
    &&& forall|k: int| 0 <= k < whole.len() ==> (keep(whole[k]) <==> #[trigger] picks.contains(k))
}

/// `part` is `whole` without the items that `keep` refuses, with nothing
/// moved.
pub open spec fn keeps_in_order<T>(part: Seq<T>, whole: Seq<T>, keep: spec_fn(T) -> bool) -> bool {
    exists|picks: Seq<int>| selects(part, whole, keep, picks)
}

/// `Seq::filter` keeps the accepted items in their order. Returns the
/// positions of the items kept.
pub proof fn lemma_filter_selects<T>(whole: Seq<T>, keep: spec_fn(T) -> bool) -> (picks: Seq<int>)
    ensures
        selects(whole.filter(keep), whole, keep, picks),
        keeps_in_order(whole.filter(keep), whole, keep),
    decreases whole.len(),
{
    reveal(Seq::filter);
    if whole.len() == 0 {
        Seq::empty()
    } else {
        let front = whole.drop_last();
        let last = whole.len() - 1;
        let front_picks = lemma_filter_selects(front, keep);
        let picks = if keep(whole.last()) {
            front_picks.push(last)
        } else {
            front_picks
        };
        // A position before the last is picked exactly if it was picked
        // in `front`; the last one is picked exactly if its item is kept.
        assert forall|k: int| 0 <= k < whole.len() implies (keep(whole[k])
            <==> #[trigger] picks.contains(k)) by {
            if k < last && front_picks.contains(k) {
                let i = choose|i: int| 0 <= i < front_picks.len() && front_picks[i] == k;
                assert(picks[i] == k);
            }
            if k == last && keep(whole[k]) {
                assert(picks[picks.len() - 1] == k);
            }
        }
        picks
    }
}

/// An item stands in what `Seq::filter` returns exactly if it stands in
/// the sequence and is accepted.
pub proof fn lemma_filter_members<T>(whole: Seq<T>, keep: spec_fn(T) -> bool)
    ensures
        forall|item: T| #[trigger]
            whole.filter(keep).contains(item) <==> whole.contains(item) && keep(item),
{
    let part = whole.filter(keep);
    let picks = lemma_filter_selects(whole, keep);
    assert forall|item: T| #[trigger] part.contains(item) <==> whole.contains(item) && keep(
        item,
    ) by {
        if part.contains(item) {
            let i = choose|i: int| 0 <= i < part.len() && part[i] == item;
            assert(whole[picks[i]] == item);
        }
        if whole.contains(item) && keep(item) {
            let k = choose|k: int| 0 <= k < whole.len() && whole[k] == item;
            assert(picks.contains(k));
        }
    }
}

/// Where every item is accepted, `Seq::filter` returns the sequence as it
/// is.
pub proof fn lemma_filter_keeps_all<T>(whole: Seq<T>, keep: spec_fn(T) -> bool)
    requires
        forall|k: int| 0 <= k < whole.len() ==> keep(#[trigger] whole[k]),
    ensures
        whole.filter(keep) == whole,
    decreases whole.len(),
{
    reveal(Seq::filter);
    if whole.len() > 0 {
        lemma_filter_keeps_all(whole.drop_last(), keep);
    }
}

} // verus!
