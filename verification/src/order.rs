//! Rearranging a sequence rearranges what is selected from it.

use vstd::multiset::Multiset;
use vstd::prelude::*;

verus! {

/// Puts what `pick` selects of `item`, if anything, into `bag`.
spec fn collect<A, B>(pick: spec_fn(A) -> Option<B>) -> spec_fn(Multiset<B>, A) -> Multiset<
    B,
> {
    |bag: Multiset<B>, item: A|
        match pick(item) {
            Some(found) => bag.insert(found),
            None => bag,
        }
}

proof fn lemma_filter_map_collects<A, B>(items: Seq<A>, pick: spec_fn(A) -> Option<B>)
    ensures
        items.filter_map(pick).to_multiset() == items.fold_left(Multiset::empty(), collect(pick)),
    decreases items.len(),
{
    if items.len() == 0 {
        items.filter_map(pick).to_multiset_ensures();
        assert(items.filter_map(pick).to_multiset() =~= Multiset::<B>::empty());
    } else {
        let before = items.drop_last();
        lemma_filter_map_collects(before, pick);
        match pick(items.last()) {
            Some(found) => {
                before.filter_map(pick).to_multiset_ensures();
                assert(before.filter_map(pick) + seq![found] =~= before.filter_map(pick).push(
                    found,
                ));
            },
            None => {},
        }
    }
}

/// Two sequences that hold the same items, each as often as the other, also
/// agree so in what a selection takes from them.
pub proof fn lemma_filter_map_any_order<A, B>(
    one: Seq<A>,
    other: Seq<A>,
    pick: spec_fn(A) -> Option<B>,
)
    requires
        one.to_multiset() == other.to_multiset(),
    ensures
        one.filter_map(pick).to_multiset() == other.filter_map(pick).to_multiset(),
        one.filter_map(pick).len() == other.filter_map(pick).len(),
{
    let step = collect(pick);
    assert forall|x: A, y: A, bag: Multiset<B>| #[trigger]
        step(step(bag, x), y) == step(step(bag, y), x) by {
        assert(step(step(bag, x), y) =~= step(step(bag, y), x));
    }
    lemma_filter_map_collects(one, pick);
    lemma_filter_map_collects(other, pick);
    vstd::seq_lib::lemma_fold_left_permutation(one, other, step, Multiset::empty());
    one.filter_map(pick).to_multiset_ensures();
    other.filter_map(pick).to_multiset_ensures();
}

} // verus!
