//! That the keys of the library's ordered maps are ordered as `std` promises.
use crate::types::NodeId;
use vstd::prelude::*;
use vstd::std_specs::cmp::OrdSpec;

verus! {

/// Node ids and epochs, as tuples of integers and as integers, are totally ordered.
pub proof fn lemma_keys_are_ordered()
    ensures
        vstd::laws_cmp::obeys_cmp::<NodeId>(),
        vstd::laws_cmp::obeys_cmp::<u64>(),
{
    broadcast use vstd::laws_cmp::group_laws_cmp;

}

/// What an increasing sequence of epochs is.
pub proof fn lemma_increasing_epochs(epochs: Seq<&u64>)
    requires
        vstd::std_specs::btree::increasing_seq(epochs),
    ensures
        forall|i: int, j: int| 0 <= i < j < epochs.len() ==> *epochs[i] < *epochs[j],
{
    broadcast use vstd::laws_cmp::group_laws_cmp;
    broadcast use vstd::std_specs::btree::group_btree_axioms;

    assert(vstd::laws_cmp::obeys_cmp::<&u64>());
    assert forall|i: int, j: int| 0 <= i < j < epochs.len() implies *epochs[i] < *epochs[j] by {
        assert(OrdSpec::cmp_spec(&epochs[i], &epochs[j]) is Less);
    }
}

} // verus!
