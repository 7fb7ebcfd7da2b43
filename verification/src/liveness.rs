//! How much stake is online, and how much would be if this node went away.
use crate::order::lemma_keys_are_ordered;
use crate::stakes::{lemma_stake_of_remove, lemma_stake_of_subset, stake_of, EpochStakes};
use crate::types::NodeId;
use crate::u256::{
    decimal, law_decimal_stands_for_its_number, lemma_in_range, modulus, to_decimal, to_u64, wide,
    wide_product, wide_quotient, wrapping_difference, wrapping_sum, written, U256,
};
use std::collections::BTreeMap;
use vstd::prelude::*;

verus! {

/// `10_000 * part / total`, rounded down. Zero if `total` is zero.
pub open spec fn bps(part: nat, total: nat) -> nat {
    if total == 0 {
        0
    } else {
        (part * 10_000) / total
    }
}

/// The basis points of `part` relative to `total`, as the two halves of a value of 512 bits.
fn wide_bps(part: U256, total: U256) -> (points: (U256, U256))
    requires
        total@ != 0,
    ensures
        wide(points.0, points.1) == bps(part@, total@),
{
    wide_quotient(wide_product(part, U256::from_u64(10_000)), total)
}

/// Basis points (0-10_000) of `part` relative to `total`; 0 if `total` is zero.
pub fn stake_bps(part: U256, total: U256) -> (points: u64)
    requires
        bps(part@, total@) <= u64::MAX,
    ensures
        points == bps(part@, total@),
{
    if total.is_zero() {
        return 0;
    }
    let (high, low) = wide_bps(part, total);
    proof {
        lemma_wide_fits(high, low);
    }
    to_u64(low)
}

/// Whether `stake_bps` has a result: whether the quotient fits into 64 bits.
pub fn stake_bps_fits(part: U256, total: U256) -> (fits: bool)
    ensures
        fits == (bps(part@, total@) <= u64::MAX),
{
    if total.is_zero() {
        return true;
    }
    let (high, low) = wide_bps(part, total);
    proof {
        lemma_wide_fits(high, low);
    }
    high.is_zero() && low.fits_u64()
}

proof fn lemma_wide_fits(high: U256, low: U256)
    ensures
        wide(high, low) <= u64::MAX <==> high@ == 0 && low@ <= u64::MAX,
        high@ == 0 ==> wide(high, low) == low@,
{
    assert(high@ == 0 ==> modulus() * high@ == 0) by (nonlinear_arith);
    assert(high@ > 0 ==> modulus() * high@ >= modulus()) by (nonlinear_arith);
}

/// A part of the whole has at most 10_000 basis points.
pub proof fn law_bps_of_a_part(part: nat, total: nat)
    requires
        part <= total,
    ensures
        bps(part, total) <= 10_000,
{
    if total > 0 {
        vstd::arithmetic::div_mod::lemma_div_is_ordered(
            (part * 10_000) as int,
            (total * 10_000) as int,
            total as int,
        );
        vstd::arithmetic::div_mod::lemma_div_multiples_vanish(10_000, total as int);
    }
}

/// The result is the ratio in basis points, rounded down; the whole has 10_000 of them and
/// nothing has none.
pub proof fn law_bps_is_the_ratio(part: nat, total: nat)
    requires
        0 < total,
    ensures
        bps(part, total) * total <= part * 10_000 < (bps(part, total) + 1) * total,
        part == 0 ==> bps(part, total) == 0,
        part == total ==> bps(part, total) == 10_000,
{
    vstd::arithmetic::div_mod::lemma_fundamental_div_mod((part * 10_000) as int, total as int);
    vstd::arithmetic::div_mod::lemma_div_multiples_vanish(10_000, total as int);
    assert((bps(part, total) + 1) * total == total * bps(part, total) + total) by (nonlinear_arith);
    assert(bps(part, total) * total == total * bps(part, total)) by (nonlinear_arith);
    if part == 0 {
        vstd::arithmetic::div_mod::lemma_div_of0(total as int);
    }
}

/// For how long a leader whose round was skipped counts as offline: ten minutes.
pub const LIVENESS_WINDOW_NS: u128 = 600_000_000_000;

/// Whether `node` counts as offline at the time `now_ns`: a round that it led was skipped, and
/// the last time was not longer ago than the window. A time in the future counts as now.
pub open spec fn offline(skipped: Map<NodeId, u128>, node: NodeId, now_ns: u128) -> bool {
    skipped.contains_key(node) && now_ns - skipped[node] <= LIVENESS_WINDOW_NS
}

/// Whether a validator counts as offline.
pub fn is_offline(
    last_skipped: &BTreeMap<NodeId, u128>,
    node_id: &NodeId,
    now_ns: u128,
) -> (is_offline: bool)
    ensures
        is_offline == offline(last_skipped@, *node_id, now_ns),
{
    broadcast use vstd::std_specs::btree::group_btree_axioms;

    proof {
        lemma_keys_are_ordered();
    }
    match last_skipped.get(node_id) {
        Some(skipped) => now_ns.saturating_sub(*skipped) <= LIVENESS_WINDOW_NS,
        None => false,
    }
}

/// The validators that count as offline.
pub open spec fn offline_nodes(
    stakes: Map<NodeId, U256>,
    skipped: Map<NodeId, u128>,
    now_ns: u128,
) -> Set<NodeId> {
    stakes.dom().filter(|id: NodeId| offline(skipped, id, now_ns))
}

/// The validators that count as online: all the others.
pub open spec fn online_nodes(
    stakes: Map<NodeId, U256>,
    skipped: Map<NodeId, u128>,
    now_ns: u128,
) -> Set<NodeId> {
    stakes.dom().filter(|id: NodeId| !offline(skipped, id, now_ns))
}

/// The stake of all validators, of those offline and of those online.
#[derive(Clone, Copy)]
pub struct StakeAmounts {
    pub total_stake: U256,
    pub offline_stake: U256,
    pub online_stake: U256,
}

/// Sums up the stakes. The sums wrap around at 256 bits.
pub fn stake_amounts(
    stakes: &EpochStakes,
    last_skipped: &BTreeMap<NodeId, u128>,
    now_ns: u128,
) -> (amounts: StakeAmounts)
    ensures
        amounts.total_stake@ == stake_of(stakes@, stakes@.dom()) % modulus(),
        amounts.offline_stake@ == stake_of(
            stakes@,
            offline_nodes(stakes@, last_skipped@, now_ns),
        ) % modulus(),
        amounts.online_stake@ == stake_of(
            stakes@,
            online_nodes(stakes@, last_skipped@, now_ns),
        ) % modulus(),
{
    broadcast use vstd::std_specs::btree::group_btree_axioms;

    proof {
        lemma_keys_are_ordered();
    }
    let mut total_stake = U256::zero();
    let mut offline_stake = U256::zero();
    let ghost skipped = last_skipped@;
    let ghost mut done: Set<NodeId> = Set::empty();
    for (node_id, stake) in it: stakes.iter()
        invariant
            skipped == last_skipped@,
            forall|k: NodeId|
                done.contains(k) <==> exists|j: int|
                    0 <= j < it.index() && *(#[trigger] it.seq()[j]).0 == k,
            done.finite(),
            it.seq().no_duplicates(),
            forall|j: int|
                0 <= j < it.seq().len() ==> stakes@.contains_key(*(#[trigger] it.seq()[j]).0)
                    && stakes@[*it.seq()[j].0] == *it.seq()[j].1,
            total_stake@ == stake_of(stakes@, done) % modulus(),
            offline_stake@ == stake_of(
                stakes@,
                done.filter(|id: NodeId| offline(skipped, id, now_ns)),
            ) % modulus(),
    {
        let ghost before = done;
        proof {
            assert(*it.seq()[it.index()].0 == *node_id);
            assert(!before.contains(*node_id)) by {
                if before.contains(*node_id) {
                    let j = choose|j: int|
                        0 <= j < it.index() && *(#[trigger] it.seq()[j]).0 == *node_id;
                    assert(it.seq()[j] == it.seq()[it.index()]);
                }
            }
            done = before.insert(*node_id);
            lemma_stake_of_insert(stakes@, before, *node_id);
        }
        total_stake = wrapping_sum(total_stake, *stake);
        if is_offline(last_skipped, node_id, now_ns) {
            proof {
                lemma_stake_of_insert(
                    stakes@,
                    before.filter(|id: NodeId| offline(skipped, id, now_ns)),
                    *node_id,
                );
                assert(done.filter(|id: NodeId| offline(skipped, id, now_ns)) =~= before.filter(
                    |id: NodeId| offline(skipped, id, now_ns),
                ).insert(*node_id));
            }
            offline_stake = wrapping_sum(offline_stake, *stake);
        } else {
            proof {
                assert(done.filter(|id: NodeId| offline(skipped, id, now_ns)) =~= before.filter(
                    |id: NodeId| offline(skipped, id, now_ns),
                ));
            }
        }
    }
    proof {
        assert(done =~= stakes@.dom());
        lemma_online_and_offline(stakes@, skipped, now_ns);
        lemma_wrapped_difference(
            stake_of(stakes@, stakes@.dom()),
            stake_of(stakes@, offline_nodes(stakes@, skipped, now_ns)),
        );
    }
    let online_stake = wrapping_difference(total_stake, offline_stake);
    StakeAmounts { total_stake, offline_stake, online_stake }
}

proof fn lemma_stake_of_insert(stakes: Map<NodeId, U256>, ids: Set<NodeId>, id: NodeId)
    requires
        ids.finite(),
        !ids.contains(id),
    ensures
        stake_of(stakes, ids.insert(id)) == stake_of(stakes, ids) + stakes[id]@,
        (stake_of(stakes, ids) % modulus() + stakes[id]@) % modulus() == stake_of(
            stakes,
            ids.insert(id),
        ) % modulus(),
{
    lemma_stake_of_remove(stakes, ids.insert(id), id);
    assert(ids.insert(id).remove(id) =~= ids);
    vstd::arithmetic::div_mod::lemma_add_mod_noop_right(
        stakes[id]@ as int,
        stake_of(stakes, ids) as int,
        modulus() as int,
    );
}

proof fn lemma_wrapped_difference(a: nat, b: nat)
    requires
        b <= a,
    ensures
        ((a % modulus()) - (b % modulus())) % (modulus() as int) == (a - b) % (modulus() as int),
{
    vstd::arithmetic::div_mod::lemma_sub_mod_noop(a as int, b as int, modulus() as int);
}

proof fn lemma_stake_of_union(stakes: Map<NodeId, U256>, a: Set<NodeId>, b: Set<NodeId>)
    requires
        a.finite(),
        b.finite(),
        a.disjoint(b),
    ensures
        stake_of(stakes, a + b) == stake_of(stakes, a) + stake_of(stakes, b),
    decreases a.len(),
{
    if a.len() == 0 {
        assert(a + b =~= b);
    } else {
        let id = a.choose();
        lemma_stake_of_union(stakes, a.remove(id), b);
        lemma_stake_of_remove(stakes, a + b, id);
        assert((a + b).remove(id) =~= a.remove(id) + b);
    }
}

proof fn lemma_online_and_offline(
    stakes: Map<NodeId, U256>,
    skipped: Map<NodeId, u128>,
    now_ns: u128,
)
    requires
        stakes.dom().finite(),
    ensures
        stake_of(stakes, stakes.dom()) == stake_of(stakes, online_nodes(stakes, skipped, now_ns))
            + stake_of(stakes, offline_nodes(stakes, skipped, now_ns)),
{
    let online = online_nodes(stakes, skipped, now_ns);
    let offline = offline_nodes(stakes, skipped, now_ns);
    lemma_stake_of_union(stakes, online, offline);
    assert(online + offline =~= stakes.dom());
}

/// The validators that would be online without the node `self_node`.
pub open spec fn online_nodes_without(
    stakes: Map<NodeId, U256>,
    skipped: Map<NodeId, u128>,
    now_ns: u128,
    self_node: Option<NodeId>,
) -> Set<NodeId> {
    match self_node {
        Some(id) => online_nodes(stakes, skipped, now_ns).remove(id),
        None => online_nodes(stakes, skipped, now_ns),
    }
}

/// The stake of this node, if it is one of the validators.
pub open spec fn own_stake(stakes: Map<NodeId, U256>, self_node: Option<NodeId>) -> Option<U256> {
    match self_node {
        Some(id) => if stakes.contains_key(id) {
            Some(stakes[id])
        } else {
            None
        },
        None => None,
    }
}

/// The share of the stake that is online, in basis points.
pub open spec fn online_share(
    stakes: Map<NodeId, U256>,
    skipped: Map<NodeId, u128>,
    now_ns: u128,
) -> nat {
    bps(
        stake_of(stakes, online_nodes(stakes, skipped, now_ns)) % modulus(),
        stake_of(stakes, stakes.dom()) % modulus(),
    )
}

/// The share of the stake that would be online without the node `self_node`, in basis points.
pub open spec fn online_share_without(
    stakes: Map<NodeId, U256>,
    skipped: Map<NodeId, u128>,
    now_ns: u128,
    self_node: Option<NodeId>,
) -> nat {
    bps(
        stake_of(stakes, online_nodes_without(stakes, skipped, now_ns, self_node)) % modulus(),
        stake_of(stakes, stakes.dom()) % modulus(),
    )
}

/// What is reported of the stakes. Amounts are given in decimal, shares in basis points.
pub struct StakeLiveness {
    pub epoch: u64,
    pub total_stake: String,
    pub online_stake: String,
    pub offline_stake: String,
    pub online_bps: u64,
    pub self_stake: Option<String>,
    /// The stake that goes offline if this node turns off.
    pub turn_off_stake: Option<String>,
    pub online_bps_after_turn_off: u64,
    pub now_ts_ms: u128,
}

/// Whether `text` is `amount` in decimal, or both are missing.
pub open spec fn is_amount_text(text: Option<String>, amount: Option<U256>) -> bool {
    match (text, amount) {
        (Some(t), Some(a)) => t@ == decimal(a@),
        (None, None) => true,
        _ => false,
    }
}

impl StakeLiveness {
    /// Whether this is the report on these stakes at the time `now_ns`.
    pub open spec fn reports(
        self,
        epoch: u64,
        stakes: Map<NodeId, U256>,
        skipped: Map<NodeId, u128>,
        now_ns: u128,
        self_node: Option<NodeId>,
    ) -> bool {
        &&& self.epoch == epoch
        &&& self.total_stake@ == decimal(stake_of(stakes, stakes.dom()) % modulus())
        &&& self.online_stake@ == decimal(
            stake_of(stakes, online_nodes(stakes, skipped, now_ns)) % modulus(),
        )
        &&& self.offline_stake@ == decimal(
            stake_of(stakes, offline_nodes(stakes, skipped, now_ns)) % modulus(),
        )
        &&& self.online_bps == online_share(stakes, skipped, now_ns)
        &&& is_amount_text(self.self_stake, own_stake(stakes, self_node))
        &&& is_amount_text(self.turn_off_stake, own_stake(stakes, self_node))
        &&& self.online_bps_after_turn_off == online_share_without(
            stakes,
            skipped,
            now_ns,
            self_node,
        )
        &&& self.now_ts_ms == now_ns / 1_000_000
    }
}

fn amount_text(amount: Option<U256>) -> (text: Option<String>)
    ensures
        is_amount_text(text, amount),
{
    match amount {
        Some(a) => Some(to_decimal(a)),
        None => None,
    }
}

/// Reports on the stakes of an epoch at the time `now_ns`, as seen from the node `self_node`.
///
/// There is no report if a share does not fit into 64 bits. That takes stakes whose sum wraps
/// around at 256 bits.
pub fn stake_liveness(
    epoch: u64,
    stakes: &EpochStakes,
    last_skipped: &BTreeMap<NodeId, u128>,
    self_node: Option<NodeId>,
    now_ns: u128,
) -> (report: Option<StakeLiveness>)
    ensures
        report is Some <==> {
            &&& online_share(stakes@, last_skipped@, now_ns) <= u64::MAX
            &&& online_share_without(stakes@, last_skipped@, now_ns, self_node) <= u64::MAX
        },
        report matches Some(r) ==> r.reports(
            epoch,
            stakes@,
            last_skipped@,
            now_ns,
            self_node,
        ),
{
    broadcast use vstd::std_specs::btree::group_btree_axioms;

    proof {
        lemma_keys_are_ordered();
    }
    let amounts = stake_amounts(stakes, last_skipped, now_ns);
    let mut self_stake: Option<U256> = None;
    let mut self_offline = false;
    if let Some(id) = self_node {
        if let Some(stake) = stakes.get(&id) {
            self_stake = Some(*stake);
        }
        self_offline = is_offline(last_skipped, &id, now_ns);
    }
    let turn_off_stake = match self_stake {
        Some(stake) => stake,
        None => U256::zero(),
    };
    let online_stake_after_turn_off = if self_offline {
        amounts.online_stake
    } else {
        wrapping_difference(amounts.online_stake, turn_off_stake)
    };
    proof {
        lemma_online_without(stakes@, last_skipped@, now_ns, self_node, amounts.online_stake);
    }
    if !stake_bps_fits(amounts.online_stake, amounts.total_stake) {
        return None;
    }
    if !stake_bps_fits(online_stake_after_turn_off, amounts.total_stake) {
        return None;
    }
    Some(
        StakeLiveness {
            epoch,
            total_stake: to_decimal(amounts.total_stake),
            online_stake: to_decimal(amounts.online_stake),
            offline_stake: to_decimal(amounts.offline_stake),
            online_bps: stake_bps(amounts.online_stake, amounts.total_stake),
            self_stake: amount_text(self_stake),
            turn_off_stake: amount_text(self_stake),
            online_bps_after_turn_off: stake_bps(
                online_stake_after_turn_off,
                amounts.total_stake,
            ),
            now_ts_ms: now_ns / 1_000_000,
        },
    )
}

proof fn lemma_online_without(
    stakes: Map<NodeId, U256>,
    skipped: Map<NodeId, u128>,
    now_ns: u128,
    self_node: Option<NodeId>,
    online_stake: U256,
)
    requires
        stakes.dom().finite(),
        online_stake@ == stake_of(stakes, online_nodes(stakes, skipped, now_ns)) % modulus(),
    ensures
        ({
            let without = online_nodes_without(stakes, skipped, now_ns, self_node);
            let left = stake_of(stakes, without) % modulus();
            match self_node {
                Some(id) => {
                    &&& offline(skipped, id, now_ns) ==> left == online_stake@
                    &&& !offline(skipped, id, now_ns) && stakes.contains_key(id) ==> left == (
                    online_stake@ - stakes[id]@) % (modulus() as int)
                    &&& !stakes.contains_key(id) ==> left == online_stake@ % modulus()
                },
                None => left == online_stake@ % modulus(),
            }
        }),
{
    let online = online_nodes(stakes, skipped, now_ns);
    vstd::arithmetic::div_mod::lemma_mod_twice(stake_of(stakes, online) as int, modulus() as int);
    if let Some(id) = self_node {
        if online.contains(id) {
            lemma_stake_of_remove(stakes, online, id);
            vstd::arithmetic::div_mod::lemma_sub_mod_noop(
                stake_of(stakes, online) as int,
                stakes[id]@ as int,
                modulus() as int,
            );
            lemma_in_range(stakes[id]);
            vstd::arithmetic::div_mod::lemma_small_mod(stakes[id]@, modulus());
        } else {
            assert(online.remove(id) =~= online);
        }
    }
}

/// Where the stakes do not add up to more than 256 bits can hold, what is online and what is
/// offline add up to the total.
pub proof fn law_online_and_offline_make_the_total(
    stakes: Map<NodeId, U256>,
    skipped: Map<NodeId, u128>,
    now_ns: u128,
)
    requires
        stakes.dom().finite(),
        stake_of(stakes, stakes.dom()) < modulus(),
    ensures
        stake_of(stakes, stakes.dom()) % modulus() == stake_of(
            stakes,
            online_nodes(stakes, skipped, now_ns),
        ) % modulus() + stake_of(stakes, offline_nodes(stakes, skipped, now_ns)) % modulus(),
{
    lemma_online_and_offline(stakes, skipped, now_ns);
    vstd::arithmetic::div_mod::lemma_small_mod(stake_of(stakes, stakes.dom()), modulus());
    vstd::arithmetic::div_mod::lemma_small_mod(
        stake_of(stakes, online_nodes(stakes, skipped, now_ns)),
        modulus(),
    );
    vstd::arithmetic::div_mod::lemma_small_mod(
        stake_of(stakes, offline_nodes(stakes, skipped, now_ns)),
        modulus(),
    );
}

/// Where the stakes do not add up to more than 256 bits can hold, both shares are at most
/// 10_000 basis points, so that there is a report, and turning off this node does not raise
/// the stake that is online.
pub proof fn law_shares_are_in_range(
    stakes: Map<NodeId, U256>,
    skipped: Map<NodeId, u128>,
    now_ns: u128,
    self_node: Option<NodeId>,
)
    requires
        stakes.dom().finite(),
        stake_of(stakes, stakes.dom()) < modulus(),
    ensures
        online_share(stakes, skipped, now_ns) <= 10_000,
        online_share_without(stakes, skipped, now_ns, self_node) <= 10_000,
        stake_of(stakes, online_nodes_without(stakes, skipped, now_ns, self_node)) <= stake_of(
            stakes,
            online_nodes(stakes, skipped, now_ns),
        ),
{
    let all = stake_of(stakes, stakes.dom());
    let online = online_nodes(stakes, skipped, now_ns);
    let without = online_nodes_without(stakes, skipped, now_ns, self_node);
    lemma_stake_of_subset(stakes, online, stakes.dom());
    lemma_stake_of_subset(stakes, without, online);
    vstd::arithmetic::div_mod::lemma_small_mod(all, modulus());
    vstd::arithmetic::div_mod::lemma_small_mod(stake_of(stakes, online), modulus());
    vstd::arithmetic::div_mod::lemma_small_mod(stake_of(stakes, without), modulus());
    law_bps_of_a_part(stake_of(stakes, online), all);
    law_bps_of_a_part(stake_of(stakes, without), all);
}

/// A node that counts as offline already, or is no validator, takes no stake away.
pub proof fn law_turning_off_an_offline_node(
    stakes: Map<NodeId, U256>,
    skipped: Map<NodeId, u128>,
    now_ns: u128,
    self_node: NodeId,
)
    requires
        offline(skipped, self_node, now_ns) || !stakes.contains_key(self_node),
    ensures
        online_share_without(stakes, skipped, now_ns, Some(self_node)) == online_share(
            stakes,
            skipped,
            now_ns,
        ),
{
    let online = online_nodes(stakes, skipped, now_ns);
    assert(online.remove(self_node) =~= online);
}

/// A leader whose round was skipped counts as offline until the window is over, and the others
/// count as they did. Without a skipped round a node counts as online.
pub proof fn law_skipped_leader_is_offline(
    skipped: Map<NodeId, u128>,
    leader: NodeId,
    skipped_ns: u128,
    node: NodeId,
    now_ns: u128,
)
    ensures
        offline(skipped.insert(leader, skipped_ns), leader, now_ns) <==> now_ns <= skipped_ns
            + LIVENESS_WINDOW_NS,
        node != leader ==> offline(skipped.insert(leader, skipped_ns), node, now_ns) == offline(
            skipped,
            node,
            now_ns,
        ),
        !skipped.contains_key(node) ==> !offline(skipped, node, now_ns),
{
}

proof fn lemma_points(part: nat, total: nat)
    requires
        0 < total,
    ensures
        bps(part, total) * total <= part * 10_000 < (bps(part, total) + 1) * total,
        bps(part, total) <= u64::MAX <==> part * 10_000 < 0x1_0000_0000_0000_0000 * total,
{
    law_bps_is_the_ratio(part, total);
    let points = bps(part, total);
    let limit = 0x1_0000_0000_0000_0000nat;
    if points + 1 <= limit {
        assert((points + 1) * total <= limit * total) by (nonlinear_arith)
            requires
                points + 1 <= limit,
        ;
    } else {
        assert(limit * total <= points * total) by (nonlinear_arith)
            requires
                limit <= points,
        ;
    }
}

/// The basis points of a part are its share of the total, rounded down, and none of a total of
/// zero. They fit into 64 bits exactly if the part is not too many times the total.
pub proof fn law_basis_points(part: U256, total: U256, points: u64, fits: bool)
    requires
        call_ensures(stake_bps, (part, total), points),
        call_ensures(stake_bps_fits, (part, total), fits),
    ensures
        total@ == 0 ==> points == 0 && fits,
        total@ > 0 ==> points * total@ <= part@ * 10_000 < (points + 1) * total@,
        total@ > 0 ==> (fits <==> part@ * 10_000 < 0x1_0000_0000_0000_0000 * total@),
{
    if total@ > 0 {
        lemma_points(part@, total@);
    }
}

/// A node is offline exactly if it was skipped and that was at most ten minutes ago.
pub proof fn law_offline_for_ten_minutes(
    last_skipped: &BTreeMap<NodeId, u128>,
    node_id: &NodeId,
    now_ns: u128,
    result: bool,
)
    requires
        call_ensures(is_offline, (last_skipped, node_id, now_ns), result),
    ensures
        result <==> last_skipped@.contains_key(*node_id) && now_ns <= last_skipped@[*node_id]
            + 10 * 60 * 1_000_000_000,
{
}

proof fn lemma_parts(
    stakes: &EpochStakes,
    skipped: Map<NodeId, u128>,
    now_ns: u128,
    online: Set<NodeId>,
)
    requires
        forall|id: NodeId| #[trigger]
            online.contains(id) <==> stakes@.contains_key(id) && !(skipped.contains_key(id)
                && now_ns <= skipped[id] + 10 * 60 * 1_000_000_000),
    ensures
        stakes@.dom().finite(),
        online.finite(),
        online_nodes(stakes@, skipped, now_ns) == online,
        offline_nodes(stakes@, skipped, now_ns) == stakes@.dom().difference(online),
        stake_of(stakes@, stakes@.dom()) == stake_of(stakes@, online) + stake_of(
            stakes@,
            stakes@.dom().difference(online),
        ),
{
    broadcast use vstd::std_specs::btree::group_btree_axioms;

    lemma_keys_are_ordered();
    assert(online_nodes(stakes@, skipped, now_ns) =~= online);
    assert(offline_nodes(stakes@, skipped, now_ns) =~= stakes@.dom().difference(online));
    lemma_online_and_offline(stakes@, skipped, now_ns);
}

/// The amounts are the stake of all validators, that of those who were not skipped within the
/// last ten minutes, and that of the others, each as far as 256 bits hold it. Where they hold
/// the total, the two parts add up to it.
pub proof fn law_amounts(
    stakes: &EpochStakes,
    last_skipped: &BTreeMap<NodeId, u128>,
    now_ns: u128,
    amounts: StakeAmounts,
    online: Set<NodeId>,
)
    requires
        call_ensures(stake_amounts, (stakes, last_skipped, now_ns), amounts),
        forall|id: NodeId| #[trigger]
            online.contains(id) <==> stakes@.contains_key(id) && !(last_skipped@.contains_key(id)
                && now_ns <= last_skipped@[id] + 10 * 60 * 1_000_000_000),
    ensures
        amounts.total_stake@ == stake_of(stakes@, stakes@.dom()) % modulus(),
        amounts.online_stake@ == stake_of(stakes@, online) % modulus(),
        amounts.offline_stake@ == stake_of(stakes@, stakes@.dom().difference(online)) % modulus(),
        stake_of(stakes@, stakes@.dom()) < modulus() ==> {
            &&& amounts.total_stake@ == stake_of(stakes@, stakes@.dom())
            &&& amounts.online_stake@ == stake_of(stakes@, online)
            &&& amounts.online_stake@ + amounts.offline_stake@ == amounts.total_stake@
        },
{
    lemma_parts(stakes, last_skipped@, now_ns, online);
    if stake_of(stakes@, stakes@.dom()) < modulus() {
        law_online_and_offline_make_the_total(stakes@, last_skipped@, now_ns);
        vstd::arithmetic::div_mod::lemma_small_mod(stake_of(stakes@, stakes@.dom()), modulus());
        vstd::arithmetic::div_mod::lemma_small_mod(stake_of(stakes@, online), modulus());
    }
}

/// Of every report: the total is the stake of all validators, what is online is the stake of
/// those who were not skipped within the last ten minutes, and what is offline that of the
/// others, each in decimal and as far as 256 bits hold it. Where they hold the total, there is a
/// report, and the numbers written as online and as offline add up to the one written as total.
pub proof fn law_reported_amounts(
    epoch: u64,
    stakes: &EpochStakes,
    last_skipped: &BTreeMap<NodeId, u128>,
    self_node: Option<NodeId>,
    now_ns: u128,
    report: Option<StakeLiveness>,
    online: Set<NodeId>,
)
    requires
        call_ensures(stake_liveness, (epoch, stakes, last_skipped, self_node, now_ns), report),
        forall|id: NodeId| #[trigger]
            online.contains(id) <==> stakes@.contains_key(id) && !(last_skipped@.contains_key(id)
                && now_ns <= last_skipped@[id] + 10 * 60 * 1_000_000_000),
    ensures
        report matches Some(r) ==> {
            &&& r.total_stake@ == decimal(stake_of(stakes@, stakes@.dom()) % modulus())
            &&& r.online_stake@ == decimal(stake_of(stakes@, online) % modulus())
            &&& r.offline_stake@ == decimal(
                stake_of(stakes@, stakes@.dom().difference(online)) % modulus(),
            )
            &&& r.epoch == epoch
            &&& r.now_ts_ms * 1_000_000 <= now_ns < (r.now_ts_ms + 1) * 1_000_000
        },
        stake_of(stakes@, stakes@.dom()) < modulus() ==> report is Some && {
            let r = report->0;
            &&& written(r.total_stake@) == stake_of(stakes@, stakes@.dom())
            &&& written(r.online_stake@) == stake_of(stakes@, online)
            &&& written(r.online_stake@) + written(r.offline_stake@) == written(r.total_stake@)
        },
{
    let all = stake_of(stakes@, stakes@.dom());
    let some = stake_of(stakes@, online);
    let rest = stake_of(stakes@, stakes@.dom().difference(online));
    lemma_parts(stakes, last_skipped@, now_ns, online);
    law_decimal_stands_for_its_number(all % modulus());
    law_decimal_stands_for_its_number(some % modulus());
    law_decimal_stands_for_its_number(rest % modulus());
    if all < modulus() {
        law_shares_are_in_range(stakes@, last_skipped@, now_ns, self_node);
        vstd::arithmetic::div_mod::lemma_small_mod(all, modulus());
        vstd::arithmetic::div_mod::lemma_small_mod(some, modulus());
        vstd::arithmetic::div_mod::lemma_small_mod(rest, modulus());
    }
}

/// Of every report: the share that is online is that of the online stake in the total, in basis
/// points and rounded down. If this node is an online validator, the share without it is that of
/// the stake of the others; else it is the same share. The stake of this node is reported, and
/// as what would be turned off too, exactly if it is a validator. There is no report exactly if
/// one of the shares does not fit into 64 bits.
pub proof fn law_reported_shares(
    epoch: u64,
    stakes: &EpochStakes,
    last_skipped: &BTreeMap<NodeId, u128>,
    self_node: Option<NodeId>,
    now_ns: u128,
    report: Option<StakeLiveness>,
    online: Set<NodeId>,
    others: Set<NodeId>,
)
    requires
        call_ensures(stake_liveness, (epoch, stakes, last_skipped, self_node, now_ns), report),
        forall|id: NodeId| #[trigger]
            online.contains(id) <==> stakes@.contains_key(id) && !(last_skipped@.contains_key(id)
                && now_ns <= last_skipped@[id] + 10 * 60 * 1_000_000_000),
        forall|id: NodeId| #[trigger]
            others.contains(id) <==> online.contains(id) && self_node != Some(id),
    ensures
        ({
            let total = stake_of(stakes@, stakes@.dom()) % modulus();
            let on = stake_of(stakes@, online) % modulus();
            let left = stake_of(stakes@, others) % modulus();
            &&& report is None <==> total > 0 && (on * 10_000 >= 0x1_0000_0000_0000_0000 * total
                || left * 10_000 >= 0x1_0000_0000_0000_0000 * total)
            &&& report matches Some(r) ==> {
                &&& total == 0 ==> r.online_bps == 0 && r.online_bps_after_turn_off == 0
                &&& total > 0 ==> r.online_bps * total <= on * 10_000 < (r.online_bps + 1) * total
                &&& total > 0 ==> r.online_bps_after_turn_off * total <= left * 10_000 < (
                r.online_bps_after_turn_off + 1) * total
                &&& (self_node is None || !online.contains(self_node->0))
                    ==> r.online_bps_after_turn_off == r.online_bps
                &&& self_node is Some && stakes@.contains_key(self_node->0) ==> {
                    &&& r.self_stake matches Some(text) && text@ == decimal(
                        stakes@[self_node->0]@,
                    )
                    &&& r.turn_off_stake matches Some(text) && text@ == decimal(
                        stakes@[self_node->0]@,
                    )
                }
                &&& self_node is None || !stakes@.contains_key(self_node->0) ==> r.self_stake
                    is None && r.turn_off_stake is None
            }
        }),
        self_node matches Some(id) ==> online.contains(id) ==> stake_of(stakes@, online)
            == stake_of(stakes@, others) + stakes@[id]@,
{
    let total = stake_of(stakes@, stakes@.dom()) % modulus();
    lemma_parts(stakes, last_skipped@, now_ns, online);
    assert(online_nodes_without(stakes@, last_skipped@, now_ns, self_node) =~= others);
    if total > 0 {
        lemma_points(stake_of(stakes@, online) % modulus(), total);
        lemma_points(stake_of(stakes@, others) % modulus(), total);
    }
    if let Some(id) = self_node {
        if online.contains(id) {
            lemma_stake_of_remove(stakes@, online, id);
            assert(online.remove(id) =~= others);
        } else {
            assert(online =~= others);
        }
    } else {
        assert(online =~= others);
    }
}

} // verus!
