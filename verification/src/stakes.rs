//! The stake of each validator of an epoch.
use crate::order::lemma_keys_are_ordered;
use crate::types::NodeId;
use crate::u256::U256;
use std::collections::BTreeMap;
use vstd::prelude::*;

verus! {

/// The validators of an epoch with their stakes.
pub type EpochStakes = BTreeMap<NodeId, U256>;

/// The map that results when the pairs are inserted one after the other: of the pairs with
/// one and the same node, the last one counts.
pub open spec fn collected(pairs: Seq<(NodeId, U256)>) -> Map<NodeId, U256>
    decreases pairs.len(),
{
    if pairs.len() == 0 {
        Map::empty()
    } else {
        collected(pairs.drop_last()).insert(pairs.last().0, pairs.last().1)
    }
}

proof fn lemma_listed(pairs: Seq<(NodeId, U256)>, node: NodeId) -> (i: int)
    requires
        collected(pairs).contains_key(node),
    ensures
        0 <= i < pairs.len(),
        pairs[i].0 == node,
    decreases pairs.len(),
{
    if pairs.last().0 == node {
        pairs.len() - 1
    } else {
        lemma_listed(pairs.drop_last(), node)
    }
}

proof fn lemma_last_counts(pairs: Seq<(NodeId, U256)>, i: int)
    requires
        0 <= i < pairs.len(),
        forall|j: int| i < j < pairs.len() ==> (#[trigger] pairs[j]).0 != pairs[i].0,
    ensures
        collected(pairs).contains_key(pairs[i].0),
        collected(pairs)[pairs[i].0] == pairs[i].1,
    decreases pairs.len(),
{
    if i < pairs.len() - 1 {
        let fewer = pairs.drop_last();
        assert(pairs[pairs.len() - 1].0 != pairs[i].0);
        assert forall|j: int| i < j < fewer.len() implies (#[trigger] fewer[j]).0 != fewer[i].0 by {
            assert(pairs[j].0 != pairs[i].0);
        }
        lemma_last_counts(fewer, i);
    }
}

/// Every node of the list has the last stake that is given with it, and no other node has one.
pub(crate) proof fn lemma_collected(pairs: Seq<(NodeId, U256)>)
    ensures
        forall|node: NodeId| #[trigger]
            collected(pairs).contains_key(node) ==> exists|i: int|
                0 <= i < pairs.len() && (#[trigger] pairs[i]).0 == node,
        forall|i: int|
            0 <= i < pairs.len() && (forall|j: int|
                i < j < pairs.len() ==> (#[trigger] pairs[j]).0 != pairs[i].0) ==> collected(
                pairs,
            ).contains_key((#[trigger] pairs[i]).0) && collected(pairs)[pairs[i].0] == pairs[i].1,
{
    assert forall|node: NodeId| #[trigger]
        collected(pairs).contains_key(node) implies exists|i: int|
        0 <= i < pairs.len() && (#[trigger] pairs[i]).0 == node by {
        let i = lemma_listed(pairs, node);
        assert(pairs[i].0 == node);
    }
    assert forall|i: int|
        0 <= i < pairs.len() && (forall|j: int|
            i < j < pairs.len() ==> (#[trigger] pairs[j]).0 != pairs[i].0) implies collected(
        pairs,
    ).contains_key((#[trigger] pairs[i]).0) && collected(pairs)[pairs[i].0] == pairs[i].1 by {
        lemma_last_counts(pairs, i);
    }
}

/// The stakes of a validator set, given as a list, by node.
pub fn collect_stakes(pairs: &Vec<(NodeId, U256)>) -> (stakes: EpochStakes)
    ensures
        stakes@ == collected(pairs@),
{
    broadcast use vstd::std_specs::btree::group_btree_axioms;
    let mut stakes: EpochStakes = BTreeMap::new();
    for i in 0..pairs.len()
        invariant
            stakes@ == collected(pairs@.take(i as int)),
    {
        proof {
            lemma_keys_are_ordered();
        }
        let (node_id, stake) = pairs[i];
        stakes.insert(node_id, stake);
        proof {
            assert(pairs@.take(i + 1).drop_last() =~= pairs@.take(i as int));
        }
    }
    proof {
        assert(pairs@.take(pairs@.len() as int) =~= pairs@);
    }
    stakes
}

/// The sum of the stakes of `ids`.
pub open spec fn stake_of(stakes: Map<NodeId, U256>, ids: Set<NodeId>) -> nat
    decreases ids.len(),
{
    if ids.finite() && ids.len() > 0 {
        let id = ids.choose();
        stakes[id]@ + stake_of(stakes, ids.remove(id))
    } else {
        0
    }
}

/// The sum is the same in whichever order it is taken.
pub proof fn lemma_stake_of_remove(stakes: Map<NodeId, U256>, ids: Set<NodeId>, id: NodeId)
    requires
        ids.finite(),
        ids.contains(id),
    ensures
        stake_of(stakes, ids) == stakes[id]@ + stake_of(stakes, ids.remove(id)),
    decreases ids.len(),
{
    let chosen = ids.choose();
    if chosen != id {
        lemma_stake_of_remove(stakes, ids.remove(chosen), id);
        lemma_stake_of_remove(stakes, ids.remove(id), chosen);
        assert(ids.remove(chosen).remove(id) =~= ids.remove(id).remove(chosen));
    }
}

/// A sum over fewer nodes is not larger.
pub proof fn lemma_stake_of_subset(stakes: Map<NodeId, U256>, some: Set<NodeId>, all: Set<NodeId>)
    requires
        all.finite(),
        some.subset_of(all),
    ensures
        some.finite(),
        stake_of(stakes, some) <= stake_of(stakes, all),
    decreases all.len(),
{
    vstd::set_lib::lemma_len_subset(some, all);
    if some.len() > 0 {
        let id = some.choose();
        lemma_stake_of_remove(stakes, all, id);
        lemma_stake_of_subset(stakes, some.remove(id), all.remove(id));
    }
}

/// The stake of nobody is zero, and one more node adds its stake: this is the sum.
pub proof fn law_stake_of_is_the_sum(stakes: Map<NodeId, U256>, ids: Set<NodeId>, id: NodeId)
    requires
        ids.finite(),
        !ids.contains(id),
    ensures
        stake_of(stakes, Set::empty()) == 0,
        stake_of(stakes, ids.insert(id)) == stake_of(stakes, ids) + stakes[id]@,
{
    lemma_stake_of_remove(stakes, ids.insert(id), id);
    assert(ids.insert(id).remove(id) =~= ids);
}

/// Of a list, every node has the last stake that is given with it, and no other node has one.
pub proof fn law_last_stake_counts(pairs: &Vec<(NodeId, U256)>, stakes: EpochStakes)
    requires
        call_ensures(collect_stakes, (pairs,), stakes),
    ensures
        forall|node: NodeId| #[trigger]
            stakes@.contains_key(node) ==> exists|i: int|
                0 <= i < pairs@.len() && (#[trigger] pairs@[i]).0 == node,
        forall|i: int|
            0 <= i < pairs@.len() && (forall|j: int|
                i < j < pairs@.len() ==> (#[trigger] pairs@[j]).0 != pairs@[i].0)
                ==> stakes@.contains_key((#[trigger] pairs@[i]).0) && stakes@[pairs@[i].0]
                == pairs@[i].1,
{
    lemma_collected(pairs@);
}

} // verus!
