//! What each step of a tip comes to, said of every call: of what goes into it and of what comes
//! out.
use crate::cache::{entry_map, holds, lemma_place};
use crate::epochs::lemma_kept_epochs;
use crate::finalize::{headers_oldest_first, lemma_places_of_final, open_chain};
use crate::liveness::{stake_liveness, StakeLiveness};
use crate::monitor::{
    AwaitBody, AwaitHeader, AwaitLeader, AwaitStakes, Commit, LivenessReport, Monitor, Propose,
    Rewind, Tip, TipStep,
};
use crate::peers::PeerAddresses;
use crate::records::{lemma_signers_is_the_sum, Record};
use crate::stakes::lemma_collected;
use crate::types::{
    BlockHeader, BlockId, HighExtend, NodeId, QuorumCertificate, RoundCertificate, TipRound,
};
use crate::u256::U256;
use vstd::prelude::*;

verus! {

/// On every tip, whether its certificate is new or not, the walk to older blocks starts at the
/// proposed head if that is of a later round than the high quorum certificate, and at the block
/// of that certificate otherwise. The time, and the quorum certificate if it is new, go along.
pub proof fn law_walk_starts_at_the_newest_block(
    monitor: &mut Monitor,
    tip: Tip,
    begun: (TipStep, Vec<Record>),
)
    requires
        tip.wf(),
        call_ensures(Monitor::begin, (monitor, tip), begun),
    ensures
        ({
            let head = tip.proposed_head;
            let qc = tip.high_qc;
            let context = match begun.0 {
                TipStep::Rewind(s) => s.context,
                TipStep::LoadStakes(s) => s.context,
                TipStep::ElectLeader(s) => s.context,
                _ => arbitrary(),
            };
            &&& begun.0 is Rewind || begun.0 is LoadStakes || begun.0 is ElectLeader
            &&& head.block_round > qc.round ==> context.start == head.id
            &&& head.block_round <= qc.round ==> context.start == qc.block_id
            &&& context.now_ns == tip.now_ns
            &&& context.new_qc is Some <==> tip.changed && tip.high_certificate is Qc
            &&& context.new_qc is Some ==> tip.high_certificate == RoundCertificate::Qc(
                context.new_qc->0,
            )
            &&& begun.0 matches TipStep::Rewind(s) ==> s.next_block_id == s.context.start
                && s.block_queue@.len() == 0
        }),
{
}

/// A tip with the certificate of the one before is walked back from at once and nothing is
/// reported. With a new certificate its epoch becomes the current one. Where the stakes of that
/// epoch are not known they have to be loaded; where they are, a quorum certificate is reported
/// and the walk begins, and after a timeout the leader is asked for. Nothing else changes.
pub proof fn law_begin(monitor: &mut Monitor, tip: Tip, begun: (TipStep, Vec<Record>))
    requires
        tip.wf(),
        call_ensures(Monitor::begin, (monitor, tip), begun),
    ensures
        ({
            let epoch = match tip.high_certificate {
                RoundCertificate::Qc(qc) => qc.epoch,
                RoundCertificate::Tc(tc) => tc.epoch,
            };
            let known = old(monitor).epoch_validators@.contains_key(epoch);
            &&& !tip.changed ==> begun.0 is Rewind && begun.1@.len() == 0
                && final(monitor).current_epoch == old(monitor).current_epoch
            &&& tip.changed ==> final(monitor).current_epoch == epoch
            &&& tip.changed && !known ==> {
                &&& begun.1@.len() == 0
                &&& begun.0 matches TipStep::LoadStakes(s) && s.certificate == tip.high_certificate
            }
            &&& tip.changed && known ==> (tip.high_certificate matches RoundCertificate::Qc(qc)
                ==> {
                &&& begun.0 is Rewind
                &&& begun.1@.len() == 1
                &&& begun.1@[0] matches Record::QuorumCertificate(r) && {
                    &&& r.round == qc.round
                    &&& r.epoch == qc.epoch
                    &&& r.block_id == qc.block_id
                    &&& r.num_signatures == qc.num_signatures
                    &&& r.now_ts_ms * 1_000_000 <= tip.now_ns < (r.now_ts_ms + 1) * 1_000_000
                }
            })
            &&& tip.changed && known ==> (tip.high_certificate matches RoundCertificate::Tc(tc)
                ==> {
                &&& begun.1@.len() == 0
                &&& begun.0 matches TipStep::ElectLeader(s) && s.tc == tc
            })
        }),
        final(monitor).visited_blocks == old(monitor).visited_blocks,
        final(monitor).epoch_validators == old(monitor).epoch_validators,
        final(monitor).last_skipped == old(monitor).last_skipped,
        final(monitor).self_node == old(monitor).self_node,
        final(monitor).addresses == old(monitor).addresses,
{
}

/// The stakes that were loaded are reported and kept under the epoch of the certificate, each
/// validator with the last stake that the list gives it. The other epochs stay. A quorum
/// certificate is then reported and the walk begins where it was to; after a timeout the leader
/// is asked for.
pub proof fn law_loaded_stakes(
    step: AwaitStakes,
    monitor: &mut Monitor,
    validators: &Vec<(NodeId, U256)>,
    resumed: (TipStep, Vec<Record>),
)
    requires
        step.wf(),
        call_ensures(AwaitStakes::resume, (step, monitor, validators), resumed),
    ensures
        ({
            let epoch = match step.certificate {
                RoundCertificate::Qc(qc) => qc.epoch,
                RoundCertificate::Tc(tc) => tc.epoch,
            };
            let kept = final(monitor).epoch_validators@;
            let loaded = resumed.1@[0]->ValidatorSet_0.validators@;
            &&& kept.contains_key(epoch)
            &&& kept[epoch]@ == loaded
            &&& forall|other: u64|
                other != epoch ==> (#[trigger] kept.contains_key(other) <==> old(
                    monitor,
                ).epoch_validators@.contains_key(other)) && (kept.contains_key(other)
                    ==> kept[other] == old(monitor).epoch_validators@[other])
            &&& forall|node: NodeId| #[trigger]
                loaded.contains_key(node) ==> exists|i: int|
                    0 <= i < validators@.len() && (#[trigger] validators@[i]).0 == node
            &&& forall|i: int|
                0 <= i < validators@.len() && (forall|j: int|
                    i < j < validators@.len() ==> (#[trigger] validators@[j]).0
                        != validators@[i].0) ==> loaded.contains_key(
                    (#[trigger] validators@[i]).0,
                ) && loaded[validators@[i].0] == validators@[i].1
            &&& resumed.1@.len() > 0
            &&& resumed.1@[0] matches Record::ValidatorSet(r) && r.epoch == epoch
            &&& step.certificate matches RoundCertificate::Qc(qc) ==> {
                &&& resumed.1@.len() == 2
                &&& resumed.1@[1] matches Record::QuorumCertificate(r) && {
                    &&& r.round == qc.round
                    &&& r.epoch == qc.epoch
                    &&& r.block_id == qc.block_id
                    &&& r.num_signatures == qc.num_signatures
                    &&& r.now_ts_ms * 1_000_000 <= step.context.now_ns < (r.now_ts_ms + 1)
                        * 1_000_000
                }
                &&& resumed.0 matches TipStep::Rewind(s) && s.context == step.context
                    && s.next_block_id == step.context.start && s.block_queue@.len() == 0
            }
            &&& step.certificate matches RoundCertificate::Tc(tc) ==> {
                &&& resumed.1@.len() == 1
                &&& resumed.0 matches TipStep::ElectLeader(s) && s.tc == tc && s.context
                    == step.context
            }
        }),
        final(monitor).visited_blocks == old(monitor).visited_blocks,
        final(monitor).last_skipped == old(monitor).last_skipped,
        final(monitor).current_epoch == old(monitor).current_epoch,
        final(monitor).self_node == old(monitor).self_node,
        final(monitor).addresses == old(monitor).addresses,
{
    lemma_collected(validators@);
    let records = resumed.1@;
    assert(records.skip(1).len() == records.len() - 1);
    if step.certificate is Qc {
        assert(records.skip(1)[0] == records[1]);
    }
}

/// A timeout is reported once: with its round and epoch, the leader and its address, for every
/// pair of rounds that was reported this pair and the number of signatures for it, in their
/// order, and as the number of signers the sum of these. What is to be extended is reported
/// with its kind and its certificate.
pub proof fn law_timeout_is_reported(
    step: AwaitLeader,
    monitor: &mut Monitor,
    leader: NodeId,
    resumed: (TipStep, Vec<Record>),
)
    requires
        step.wf(),
        call_ensures(AwaitLeader::resume, (step, monitor, leader), resumed),
    ensures
        resumed.1@.len() == 1,
        resumed.1@[0] is Timeout,
        ({
            let r = resumed.1@[0]->Timeout_0;
            let addresses = old(monitor).addresses@;
            &&& r.round == step.tc.round
            &&& r.epoch == step.tc.epoch
            &&& r.author == leader
            &&& addresses.contains_key(leader) ==> r.author_address@ == addresses[leader]@
            &&& !addresses.contains_key(leader) ==> r.author_address@.len() == 0
            &&& r.tip_round_buckets@.len() == step.tc.tip_rounds@.len()
            &&& forall|i: int|
                0 <= i < step.tc.tip_rounds@.len() ==> {
                    &&& (#[trigger] r.tip_round_buckets@[i]).0
                        == step.tc.tip_rounds@[i].high_qc_round
                    &&& r.tip_round_buckets@[i].1 == step.tc.tip_rounds@[i].high_tip_round
                    &&& r.tip_round_buckets@[i].2 == step.tc.tip_rounds@[i].num_signatures
                }
            &&& r.num_timeout_signers == step.tc.tip_rounds@.fold_left(
                0int,
                |sum: int, tip_round: TipRound| sum + tip_round.num_signatures,
            )
            &&& step.tc.high_extend is Qc ==> r.high_extend_kind@ == seq!['q', 'c']
            &&& step.tc.high_extend is Tip ==> r.high_extend_kind@ == seq!['t', 'i', 'p']
            &&& forall|qc|
                step.tc.high_extend == HighExtend::Qc(qc) || step.tc.high_extend
                    == HighExtend::Tip(qc) ==> r.high_extend_qc_round == qc.round
                    && r.high_extend_qc_epoch == qc.epoch && r.high_extend_qc_block_id
                    == #[trigger] qc.block_id
            &&& r.now_ts_ms * 1_000_000 <= step.context.now_ns < (r.now_ts_ms + 1) * 1_000_000
        }),
{
    lemma_signers_is_the_sum(
        step.tc.tip_rounds@,
        |sum: int, tip_round: TipRound| sum + tip_round.num_signatures,
    );
    reveal_strlit("qc");
    reveal_strlit("tip");
    assert("qc"@ =~= seq!['q', 'c']);
    assert("tip"@ =~= seq!['t', 'i', 'p']);
}

/// After a timeout the leader counts as skipped at the time of the tip, whatever was known of it
/// before. What is known of the others stays, as does everything else, and the walk begins where
/// it was to.
pub proof fn law_timeout_marks_its_leader(
    step: AwaitLeader,
    monitor: &mut Monitor,
    leader: NodeId,
    resumed: (TipStep, Vec<Record>),
    node: NodeId,
)
    requires
        step.wf(),
        call_ensures(AwaitLeader::resume, (step, monitor, leader), resumed),
    ensures
        final(monitor).last_skipped@.contains_key(leader),
        final(monitor).last_skipped@[leader] == step.context.now_ns,
        node != leader ==> {
            let before = old(monitor).last_skipped@;
            let after = final(monitor).last_skipped@;
            &&& after.contains_key(node) <==> before.contains_key(node)
            &&& after.contains_key(node) ==> after[node] == before[node]
        },
        final(monitor).visited_blocks == old(monitor).visited_blocks,
        final(monitor).epoch_validators == old(monitor).epoch_validators,
        final(monitor).current_epoch == old(monitor).current_epoch,
        final(monitor).self_node == old(monitor).self_node,
        final(monitor).addresses == old(monitor).addresses,
        resumed.0 matches TipStep::Rewind(s) && s.context == step.context && s.next_block_id
            == step.context.start && s.block_queue@.len() == 0,
{
}

/// The walk goes on, with what it has come to, exactly as long as the next block was not seen
/// before and no more than a hundred headers are in the queue. Else the blocks of the queue are
/// remembered.
pub proof fn law_walk_goes_on(rewind: Rewind, monitor: &Monitor, step: TipStep)
    requires
        call_ensures(Rewind::advance, (rewind, monitor), step),
    ensures
        ({
            let entries = monitor.visited_blocks.entries();
            let seen = exists|i: int|
                0 <= i < entries.len() && (#[trigger] entries[i]).0 == rewind.next_block_id;
            &&& step is ReadHeader <==> !seen && rewind.block_queue@.len() <= 100
            &&& step is ReadHeader || step is Propose
            &&& step matches TipStep::ReadHeader(s) ==> s.rewind == rewind
            &&& step matches TipStep::Propose(s) ==> s.context == rewind.context && s.block_queue@
                == rewind.block_queue@
        }),
{
}

/// A header that was read joins the queue at its end, and its parent is next. Without one the
/// walk is over and the queue stays.
pub proof fn law_header_joins_the_queue(
    wait: AwaitHeader,
    header: Option<BlockHeader>,
    step: TipStep,
)
    requires
        call_ensures(AwaitHeader::resume, (wait, header), step),
    ensures
        header matches Some(h) ==> (step matches TipStep::Rewind(s) && {
            let queue = wait.rewind.block_queue@;
            &&& s.context == wait.rewind.context
            &&& s.next_block_id == h.parent_id
            &&& s.block_queue@.len() == queue.len() + 1
            &&& s.block_queue@.last() == h
            &&& s.block_queue@.drop_last() == queue
        }),
        header is None ==> (step matches TipStep::Propose(s) && s.context == wait.rewind.context
            && s.block_queue@ == wait.rewind.block_queue@),
{
    if let Some(h) = header {
        assert(wait.rewind.block_queue@.push(h).drop_last() =~= wait.rewind.block_queue@);
    }
}

/// The queue is worked off from its end, the oldest block first. Only when it is empty what
/// became final is looked for.
pub proof fn law_oldest_block_is_next(propose: Propose, step: TipStep)
    requires
        call_ensures(Propose::advance, (propose,), step),
    ensures
        step is Commit <==> propose.block_queue@.len() == 0,
        step is Commit || step is ReadBody,
        step matches TipStep::Commit(s) ==> s.context == propose.context,
        step matches TipStep::ReadBody(s) ==> s.context == propose.context && propose.block_queue@
            == s.block_queue@.push(s.header),
{
    if step is ReadBody {
        let queue = propose.block_queue@;
        assert(queue =~= queue.drop_last().push(queue.last()));
    }
}

/// A block whose body was read is reported once: with what its header says, the number of
/// transactions that was read from its body, and the address of its author. Without a body
/// nothing is reported.
pub proof fn law_proposed_block_is_reported(
    step: AwaitBody,
    monitor: &mut Monitor,
    num_tx: Option<usize>,
    resumed: (TipStep, Vec<Record>),
)
    requires
        old(monitor).wf(),
        call_ensures(AwaitBody::resume, (step, monitor, num_tx), resumed),
    ensures
        num_tx is None ==> resumed.1@.len() == 0,
        num_tx matches Some(n) ==> {
            let r = resumed.1@[0]->ProposedBlock_0;
            let addresses = old(monitor).addresses@;
            &&& resumed.1@.len() == 1
            &&& resumed.1@[0] is ProposedBlock
            &&& r.num_tx == n
            &&& r.round == step.header.block_round
            &&& r.parent_round == step.header.qc.round
            &&& r.epoch == step.header.epoch
            &&& r.seq_num == step.header.seq_num
            &&& r.author == step.header.author
            &&& addresses.contains_key(step.header.author) ==> r.author_address@
                == addresses[step.header.author]@
            &&& !addresses.contains_key(step.header.author) ==> r.author_address@.len() == 0
            &&& r.block_ts_ms * 1_000_000 <= step.header.timestamp_ns < (r.block_ts_ms + 1)
                * 1_000_000
            &&& r.now_ts_ms * 1_000_000 <= step.context.now_ns < (r.now_ts_ms + 1) * 1_000_000
        },
{
}

/// Two bodies under one header give records that differ in the number of transactions, if the
/// bodies do, and in nothing else.
pub proof fn law_number_of_transactions_is_that_of_the_body(
    step: AwaitBody,
    one: &mut Monitor,
    other: &mut Monitor,
    n: usize,
    m: usize,
    first: (TipStep, Vec<Record>),
    second: (TipStep, Vec<Record>),
)
    requires
        old(one).wf(),
        *old(one) == *old(other),
        call_ensures(AwaitBody::resume, (step, one, Some(n)), first),
        call_ensures(AwaitBody::resume, (step, other, Some(m)), second),
    ensures
        first.1@.len() == 1,
        second.1@.len() == 1,
        ({
            let a = first.1@[0]->ProposedBlock_0;
            let b = second.1@[0]->ProposedBlock_0;
            &&& a.num_tx - b.num_tx == n - m
            &&& a.round == b.round
            &&& a.parent_round == b.parent_round
            &&& a.epoch == b.epoch
            &&& a.seq_num == b.seq_num
            &&& a.author == b.author
            &&& a.block_ts_ms == b.block_ts_ms
            &&& a.now_ts_ms == b.now_ts_ms
            &&& a.author_address@ == b.author_address@
        }),
        final(one).visited_blocks.entries() == final(other).visited_blocks.entries(),
{
}

/// A block whose body was read comes to stand first in the memory, under its id and not final.
/// The others stay in their order, but for an older entry of the same block, or else, where a
/// hundred blocks are held, the one that stands last. Without a body the memory stays as it is.
/// Nothing else changes, and the queue is worked off further.
pub proof fn law_proposed_block_is_remembered(
    step: AwaitBody,
    monitor: &mut Monitor,
    num_tx: Option<usize>,
    resumed: (TipStep, Vec<Record>),
    i: int,
)
    requires
        old(monitor).wf(),
        call_ensures(AwaitBody::resume, (step, monitor, num_tx), resumed),
    ensures
        ({
            let before = old(monitor).visited_blocks.entries();
            let after = final(monitor).visited_blocks.entries();
            let held = exists|k: int|
                0 <= k < before.len() && (#[trigger] before[k]).0 == step.header.id;
            &&& num_tx is None ==> after == before
            &&& num_tx is Some ==> {
                &&& after.len() > 0
                &&& after[0].0 == step.header.id
                &&& after[0].1.header == step.header
                &&& !after[0].1.is_finalized
                &&& 0 <= i < before.len() && before[i].0 == step.header.id ==> after.skip(1)
                    == before.remove(i)
                &&& !held && before.len() < 100 ==> after.skip(1) == before
                &&& !held && before.len() == 100 ==> after.skip(1) == before.drop_last()
                &&& before.len() <= 100
            }
        }),
        final(monitor).epoch_validators == old(monitor).epoch_validators,
        final(monitor).last_skipped == old(monitor).last_skipped,
        final(monitor).current_epoch == old(monitor).current_epoch,
        final(monitor).self_node == old(monitor).self_node,
        final(monitor).addresses == old(monitor).addresses,
        resumed.0 matches TipStep::Propose(s) && s.context == step.context && s.block_queue@
            == step.block_queue@,
{
    let before = old(monitor).visited_blocks.entries();
    let after = final(monitor).visited_blocks.entries();
    if num_tx is Some {
        assert(after.skip(1) =~= after.subrange(1, after.len() as int));
        if 0 <= i < before.len() && before[i].0 == step.header.id {
            lemma_place(before, i);
            assert(after.skip(1) =~= before.remove(i));
        } else if !holds(before, step.header.id) {
            if before.len() < 100 {
                assert(after.skip(1) =~= before);
            } else {
                assert(after.skip(1) =~= before.drop_last());
            }
        }
    }
}

/// The commit rule. Without a new quorum certificate, if the block that it certifies is not
/// held, or if its round is not exactly one more than that of the certificate which that block
/// carries, nothing becomes final and nothing is reported. Else the block named by the carried
/// certificate is final from then on, if it is held, and there is a report if it was not before.
pub proof fn law_commit_rule(commit: Commit, monitor: &mut Monitor, records: Vec<Record>, i: int)
    requires
        old(monitor).wf(),
        call_ensures(Commit::run, (commit, monitor), records),
    ensures
        ({
            let before = old(monitor).visited_blocks.entries();
            let after = final(monitor).visited_blocks.entries();
            let certified = commit.context.new_qc->0;
            &&& commit.context.new_qc is None ==> after == before && records@.len() == 0
            &&& commit.context.new_qc is Some && (forall|k: int|
                0 <= k < before.len() ==> (#[trigger] before[k]).0 != certified.block_id) ==> after
                == before && records@.len() == 0
            &&& commit.context.new_qc is Some && 0 <= i < before.len() && before[i].0
                == certified.block_id ==> {
                let carried = before[i].1.header.qc;
                &&& certified.round != carried.round + 1 ==> after == before && records@.len() == 0
                &&& certified.round == carried.round + 1 ==> forall|k: int|
                    0 <= k < before.len() && (#[trigger] before[k]).0 == carried.block_id ==> {
                        &&& after[k].0 == carried.block_id
                        &&& after[k].1.is_finalized
                        &&& !before[k].1.is_finalized ==> records@.len() > 0
                    }
            }
        }),
{
    let before = old(monitor).visited_blocks.entries();
    if commit.context.new_qc is Some {
        let certified = commit.context.new_qc->0;
        if 0 <= i < before.len() && before[i].0 == certified.block_id {
            lemma_place(before, i);
            let places = lemma_places_of_final(
                before,
                before[i].1.header.qc.block_id,
                Set::empty(),
            );
            let after = final(monitor).visited_blocks.entries();
            if certified.round == before[i].1.header.qc.round + 1 {
                assert forall|k: int|
                    0 <= k < before.len() && (#[trigger] before[k]).0
                        == before[i].1.header.qc.block_id implies {
                    &&& after[k].0 == before[i].1.header.qc.block_id
                    &&& after[k].1.is_finalized
                    &&& !before[k].1.is_finalized ==> records@.len() > 0
                } by {
                    assert(after[k].0 == before[k].0);
                    if !before[k].1.is_finalized {
                        assert(places.contains(k));
                    }
                }
            }
        }
    }
}

/// What becomes final when the commit rule passes, on the block `start`. No block leaves the
/// memory or changes but by becoming final. The blocks that do are reported, each one once and
/// none else, with their parents before them and `start` last; `places` says where they stand.
/// A held parent of such a block is final as well. And no block becomes final that does not
/// come from `start` by going to parents over held blocks that are not final: all of them are
/// in every set `reach` that holds `start` and is closed in this way.
pub proof fn law_final_blocks_are_reported(
    commit: Commit,
    monitor: &mut Monitor,
    records: Vec<Record>,
    reach: Set<BlockId>,
    i: int,
) -> (places: Seq<int>)
    requires
        old(monitor).wf(),
        call_ensures(Commit::run, (commit, monitor), records),
        commit.context.new_qc is Some,
        0 <= i < old(monitor).visited_blocks.entries().len(),
        ({
            let block = old(monitor).visited_blocks.entries()[i];
            &&& block.0 == commit.context.new_qc->0.block_id
            &&& commit.context.new_qc->0.round == block.1.header.qc.round + 1
        }),
    ensures
        ({
            let before = old(monitor).visited_blocks.entries();
            let after = final(monitor).visited_blocks.entries();
            let addresses = old(monitor).addresses@;
            let start = before[i].1.header.qc.block_id;
            &&& after.len() == before.len()
            &&& forall|k: int|
                0 <= k < before.len() ==> {
                    &&& (#[trigger] after[k]).0 == before[k].0
                    &&& after[k].1.header == before[k].1.header
                    &&& before[k].1.is_finalized ==> after[k].1.is_finalized
                    &&& after[k].1.is_finalized && !before[k].1.is_finalized ==> places.contains(k)
                }
            &&& places.len() == records@.len()
            &&& places.no_duplicates()
            &&& forall|n: int|
                0 <= n < places.len() ==> {
                    let header = before[places[n]].1.header;
                    let r = records@[n]->FinalizedBlock_0;
                    &&& 0 <= #[trigger] places[n] < before.len()
                    &&& !before[places[n]].1.is_finalized
                    &&& after[places[n]].1.is_finalized
                    &&& records@[n] is FinalizedBlock
                    &&& r.round == header.block_round
                    &&& r.parent_round == header.qc.round
                    &&& r.epoch == header.epoch
                    &&& r.seq_num == header.seq_num
                    &&& r.author == header.author
                    &&& addresses.contains_key(header.author) ==> r.author_address@
                        == addresses[header.author]@
                    &&& !addresses.contains_key(header.author) ==> r.author_address@.len() == 0
                    &&& r.block_ts_ms * 1_000_000 <= header.timestamp_ns < (r.block_ts_ms + 1)
                        * 1_000_000
                    &&& r.now_ts_ms * 1_000_000 <= commit.context.now_ns < (r.now_ts_ms + 1)
                        * 1_000_000
                }
            &&& forall|n: int, m: int|
                0 <= n && m == n + 1 && m < places.len()
                    ==> before[#[trigger] places[m]].1.header.parent_id == before[#[trigger]
                places[n]].0
            &&& places.len() > 0 ==> before[places.last()].0 == start
            &&& forall|k: int, m: int|
                0 <= k < before.len() && 0 <= m < before.len() && !before[k].1.is_finalized && (
                #[trigger] after[k]).1.is_finalized && before[k].1.header.parent_id == before[m].0
                    ==> (#[trigger] after[m]).1.is_finalized
            &&& reach.contains(start) && (forall|k: int|
                0 <= k < before.len() && reach.contains((#[trigger] before[k]).0)
                    && !before[k].1.is_finalized ==> reach.contains(before[k].1.header.parent_id))
                ==> forall|n: int|
                0 <= n < places.len() ==> reach.contains(before[#[trigger] places[n]].0)
        }),
{
    let before = old(monitor).visited_blocks.entries();
    let start = before[i].1.header.qc.block_id;
    lemma_place(before, i);
    let places = lemma_places_of_final(before, start, reach);
    let blocks = entry_map(before);
    let headers = headers_oldest_first(blocks, open_chain(blocks, start));
    assert forall|n: int| 0 <= n < places.len() implies records@[n] is FinalizedBlock && headers[n]
        == before[#[trigger] places[n]].1.header by {
        let record = records@[n];
    }
    places
}

/// The last step leaves everything but finality and the epochs as it is. No more than a thousand
/// epochs are kept: none is dropped if there are no more, and else as many as are too many, each
/// of them lower than all that stay. What is kept of an epoch does not change.
pub proof fn law_highest_epochs_are_kept(
    commit: Commit,
    monitor: &mut Monitor,
    records: Vec<Record>,
)
    requires
        old(monitor).wf(),
        call_ensures(Commit::run, (commit, monitor), records),
    ensures
        ({
            let before = old(monitor).epoch_validators@;
            let after = final(monitor).epoch_validators@;
            &&& after.dom().len() <= 1000
            &&& before.dom().len() <= 1000 ==> after == before
            &&& before.dom().len() > 1000 ==> after.dom().len() == 1000
            &&& forall|epoch: u64| #[trigger]
                after.contains_key(epoch) ==> before.contains_key(epoch) && after[epoch]
                    == before[epoch]
            &&& forall|gone: u64, here: u64| #[trigger]
                before.contains_key(gone) && !after.contains_key(gone)
                    && #[trigger] after.contains_key(here) ==> gone < here
        }),
        final(monitor).last_skipped == old(monitor).last_skipped,
        final(monitor).current_epoch == old(monitor).current_epoch,
        final(monitor).self_node == old(monitor).self_node,
        final(monitor).addresses == old(monitor).addresses,
{
    lemma_kept_epochs(&old(monitor).epoch_validators, final(monitor).epoch_validators@);
}

/// In every state at most a hundred blocks are remembered, each one once and under the id of its
/// header.
pub proof fn law_memory_is_in_order(monitor: Monitor)
    requires
        monitor.wf(),
    ensures
        ({
            let entries = monitor.visited_blocks.entries();
            &&& entries.len() <= 100
            &&& forall|i: int|
                0 <= i < entries.len() ==> (#[trigger] entries[i]).0 == entries[i].1.header.id
            &&& forall|i: int, j: int|
                0 <= i < j < entries.len() ==> (#[trigger] entries[i]).0 != (
                #[trigger] entries[j]).0
        }),
{
}

/// A new monitor has seen nothing, is at the first epoch, and knows what it was given.
pub proof fn law_new_monitor(
    self_node: Option<NodeId>,
    addresses: PeerAddresses,
    monitor: Monitor,
)
    requires
        call_ensures(Monitor::new, (self_node, addresses), monitor),
    ensures
        monitor.wf(),
        monitor.visited_blocks.entries().len() == 0,
        forall|epoch: u64| !#[trigger] monitor.epoch_validators@.contains_key(epoch),
        forall|node: NodeId| !#[trigger] monitor.last_skipped@.contains_key(node),
        monitor.current_epoch == 1,
        monitor.self_node == self_node,
        monitor.addresses == addresses,
{
}

/// The signers of a timeout can be counted exactly if their number fits into a machine word.
pub proof fn law_countable_signers(tip: &Tip, countable: bool)
    requires
        call_ensures(Tip::is_countable, (tip,), countable),
    ensures
        tip.high_certificate is Qc ==> countable,
        tip.high_certificate matches RoundCertificate::Tc(tc) ==> countable == (
        tc.tip_rounds@.fold_left(
            0int,
            |sum: int, tip_round: TipRound| sum + tip_round.num_signatures,
        ) <= usize::MAX),
{
    if let RoundCertificate::Tc(tc) = tip.high_certificate {
        lemma_signers_is_the_sum(
            tc.tip_rounds@,
            |sum: int, tip_round: TipRound| sum + tip_round.num_signatures,
        );
    }
}

/// The epoch of a certificate is that of its round, of whichever kind it is.
pub proof fn law_epoch_of_a_certificate(certificate: &RoundCertificate, epoch: u64)
    requires
        call_ensures(RoundCertificate::epoch, (certificate,), epoch),
    ensures
        *certificate matches RoundCertificate::Qc(qc) ==> epoch == qc.epoch,
        *certificate matches RoundCertificate::Tc(tc) ==> epoch == tc.epoch,
{
}

/// The certificate that is to be extended is the one within, of whichever kind it is.
pub proof fn law_certificate_to_extend(high_extend: HighExtend, qc: QuorumCertificate)
    requires
        call_ensures(HighExtend::qc, (high_extend,), qc),
    ensures
        high_extend == HighExtend::Qc(qc) || high_extend == HighExtend::Tip(qc),
{
}

/// The report of a monitor is the one on the stakes of the current epoch, with who was skipped
/// and as seen from its own node. Where these stakes are not known there is none.
pub proof fn law_report_is_on_the_current_epoch(
    monitor: &Monitor,
    now_ns: u128,
    report: LivenessReport,
    direct: Option<StakeLiveness>,
)
    requires
        call_ensures(Monitor::report, (monitor, now_ns), report),
        call_ensures(
            stake_liveness,
            (
                monitor.current_epoch,
                &monitor.epoch_validators@[monitor.current_epoch],
                &monitor.last_skipped,
                monitor.self_node,
                now_ns,
            ),
            direct,
        ),
    ensures
        report is NoValidatorSet <==> !monitor.epoch_validators@.contains_key(
            monitor.current_epoch,
        ),
        monitor.epoch_validators@.contains_key(monitor.current_epoch) ==> {
            &&& report is Stakes <==> direct is Some
            &&& report is Overflow <==> direct is None
        },
        report matches LivenessReport::Stakes(a) ==> {
            let b = direct->0;
            &&& a.epoch == b.epoch
            &&& a.total_stake@ == b.total_stake@
            &&& a.online_stake@ == b.online_stake@
            &&& a.offline_stake@ == b.offline_stake@
            &&& a.online_bps == b.online_bps
            &&& a.self_stake is Some <==> b.self_stake is Some
            &&& a.self_stake is Some ==> a.self_stake->0@ == b.self_stake->0@
            &&& a.turn_off_stake is Some <==> b.turn_off_stake is Some
            &&& a.turn_off_stake is Some ==> a.turn_off_stake->0@ == b.turn_off_stake->0@
            &&& a.online_bps_after_turn_off == b.online_bps_after_turn_off
            &&& a.now_ts_ms == b.now_ts_ms
        },
{
}

} // verus!
