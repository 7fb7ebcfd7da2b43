//! The validator sets of the epochs seen lately.
use crate::order::{lemma_increasing_epochs, lemma_keys_are_ordered};
use crate::stakes::EpochStakes;
use std::collections::BTreeMap;
use vstd::prelude::*;

verus! {

/// The validator sets by epoch.
pub type EpochValidators = BTreeMap<u64, EpochStakes>;

/// How many epochs are kept.
pub const MAX_EPOCHS: usize = 1_000;

/// Whether `kept` is what is left of `all` when only the `limit` highest epochs stay.
pub open spec fn keeps_highest(
    all: Map<u64, EpochStakes>,
    kept: Map<u64, EpochStakes>,
    limit: nat,
) -> bool {
    &&& kept.submap_of(all)
    &&& kept.dom().len() == if all.dom().len() <= limit {
        all.dom().len()
    } else {
        limit
    }
    &&& forall|gone: u64, here: u64|
        all.contains_key(gone) && !kept.contains_key(gone) && kept.contains_key(here) ==> gone
            < here
}

/// The lowest epoch.
fn first_epoch(epochs: &EpochValidators) -> (first: Option<u64>)
    ensures
        match first {
            Some(epoch) => epochs@.contains_key(epoch) && forall|other: u64|
                epochs@.contains_key(other) ==> epoch <= other,
            None => epochs@.dom() == Set::<u64>::empty(),
        },
{
    broadcast use vstd::std_specs::btree::group_btree_axioms;

    proof {
        lemma_keys_are_ordered();
    }
    for epoch in it: epochs.keys()
        invariant
            it.index() == 0,
            it.seq().unref().to_set() == epochs@.dom(),
            vstd::std_specs::btree::increasing_seq(it.seq()),
    {
        proof {
            lemma_increasing_epochs(it.seq());
            assert(it.seq()[0] == epoch);
            assert(it.seq().unref()[0] == *epoch);
            assert forall|other: u64| epochs@.contains_key(other) implies *epoch <= other by {
                assert(it.seq().unref().to_set().contains(other));
                let j = choose|j: int|
                    0 <= j < it.seq().unref().len() && it.seq().unref()[j] == other;
                assert(*it.seq()[j] == other);
            }
        }
        return Some(*epoch);
    }
    None
}

/// Drops the lowest epochs until no more than `MAX_EPOCHS` are left.
pub fn prune_epochs(epochs: &mut EpochValidators)
    ensures
        keeps_highest(old(epochs)@, final(epochs)@, MAX_EPOCHS as nat),
{
    broadcast use vstd::std_specs::btree::group_btree_axioms;

    proof {
        lemma_keys_are_ordered();
    }
    while epochs.len() > MAX_EPOCHS
        invariant
            epochs@.submap_of(old(epochs)@),
            epochs@.dom().finite(),
            epochs@.dom().len() <= old(epochs)@.dom().len(),
            old(epochs)@.dom().len() <= MAX_EPOCHS ==> epochs@ == old(epochs)@,
            old(epochs)@.dom().len() > MAX_EPOCHS ==> epochs@.dom().len() >= MAX_EPOCHS,
            forall|gone: u64, here: u64|
                old(epochs)@.contains_key(gone) && !epochs@.contains_key(gone)
                    && epochs@.contains_key(here) ==> gone < here,
        decreases epochs@.dom().len(),
    {
        proof {
            lemma_keys_are_ordered();
        }
        if let Some(epoch) = first_epoch(epochs) {
            let ghost before = epochs@;
            epochs.remove(&epoch);
            proof {
                assert(epochs@ == before.remove(epoch));
                assert(epochs@.submap_of(before));
            }
        }
    }
    proof {
        lemma_keys_are_ordered();
    }
}

/// Which epochs are kept is determined.
pub proof fn law_highest_are_unique(
    all: Map<u64, EpochStakes>,
    a: Map<u64, EpochStakes>,
    b: Map<u64, EpochStakes>,
    limit: nat,
)
    requires
        all.dom().finite(),
        keeps_highest(all, a, limit),
        keeps_highest(all, b, limit),
    ensures
        a == b,
{
    vstd::set_lib::lemma_len_subset(a.dom(), all.dom());
    vstd::set_lib::lemma_len_subset(b.dom(), all.dom());
    if exists|k: u64| a.contains_key(k) && !b.contains_key(k) {
        let k = choose|k: u64| a.contains_key(k) && !b.contains_key(k);
        assert forall|j: u64| b.contains_key(j) implies a.contains_key(j) by {
            if !a.contains_key(j) {
                assert(k < j);
                assert(j < k);
            }
        }
        assert(b.dom().subset_of(a.dom()));
        vstd::set_lib::lemma_subset_equality(b.dom(), a.dom());
        assert(a.dom().contains(k));
    }
    assert(a.dom().subset_of(b.dom()));
    vstd::set_lib::lemma_subset_equality(a.dom(), b.dom());
    assert forall|k: u64| a.contains_key(k) implies a[k] == b[k] by {
        assert(b.contains_key(k));
        assert(a[k] == all[k]);
        assert(b[k] == all[k]);
    }
    assert(a =~= b);
}

/// What is left of the epochs of a monitor, said of their numbers.
pub(crate) proof fn lemma_kept_epochs(epochs: &EpochValidators, kept: Map<u64, EpochStakes>)
    requires
        keeps_highest(epochs@, kept, MAX_EPOCHS as nat),
    ensures
        kept.dom().len() <= 1000,
        epochs@.dom().len() <= 1000 ==> kept == epochs@,
        epochs@.dom().len() > 1000 ==> kept.dom().len() == 1000,
{
    broadcast use vstd::std_specs::btree::group_btree_axioms;

    lemma_keys_are_ordered();
    assert(epochs@.dom().finite());
    if epochs@.dom().len() <= 1000 {
        assert(kept.dom().subset_of(epochs@.dom()));
        vstd::set_lib::lemma_subset_equality(kept.dom(), epochs@.dom());
        assert forall|k: u64| kept.contains_key(k) implies kept[k] == epochs@[k] by {
            assert(epochs@.contains_key(k));
        }
        assert(kept =~= epochs@);
    }
}

/// The highest epoch is never dropped.
pub proof fn law_highest_epoch_is_kept(
    all: Map<u64, EpochStakes>,
    kept: Map<u64, EpochStakes>,
    limit: nat,
    epoch: u64,
)
    requires
        all.dom().finite(),
        keeps_highest(all, kept, limit),
        0 < limit,
        all.contains_key(epoch),
        forall|other: u64| all.contains_key(other) ==> other <= epoch,
    ensures
        kept.contains_key(epoch),
        kept[epoch] == all[epoch],
{
    vstd::set_lib::lemma_len_subset(kept.dom(), all.dom());
    if !kept.contains_key(epoch) {
        assert(all.dom().len() > 0) by {
            assert(all.dom().contains(epoch));
            if all.dom().len() == 0 {
                assert(all.dom() =~= Set::empty());
            }
        }
        let here = kept.dom().choose();
        assert(kept.contains_key(here));
        assert(all.contains_key(here));
    }
}

/// No more than a thousand epochs are kept: none is dropped if there are no more, and else as
/// many as are too many, each of them lower than all that stay.
pub proof fn law_lowest_epochs_are_dropped(epochs: &mut EpochValidators, result: ())
    requires
        call_ensures(prune_epochs, (epochs,), result),
    ensures
        ({
            let before = old(epochs)@;
            let after = final(epochs)@;
            &&& after.dom().len() <= 1000
            &&& before.dom().len() <= 1000 ==> after == before
            &&& before.dom().len() > 1000 ==> after.dom().len() == 1000
            &&& forall|epoch: u64| #[trigger]
                after.contains_key(epoch) ==> before.contains_key(epoch) && after[epoch]
                    == before[epoch]
            &&& forall|gone: u64, here: u64| #[trigger]
                before.contains_key(gone) && !after.contains_key(gone)
                    && #[trigger] after.contains_key(here) ==> gone < here
        }),
{
    lemma_kept_epochs(old(epochs), final(epochs)@);
}

} // verus!
