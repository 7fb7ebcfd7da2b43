//! The state of the monitor, and what it does when a tip arrives.
//!
//! A tip is worked off in steps. Where a step needs something from outside (a file, or the
//! leader of a round), it says so, and goes on with the reply.
use crate::cache::{after_put, keyed_by_header_id, CachedBlock, CachedBlocks};
use crate::epochs::{keeps_highest, prune_epochs, EpochValidators, MAX_EPOCHS};
use crate::finalize::{finalize_block, headers_oldest_first, marked_final, open_chain};
use crate::liveness::{online_share, online_share_without, stake_liveness, StakeLiveness};
use crate::order::lemma_keys_are_ordered;
use crate::peers::{get_author_address, PeerAddresses};
use crate::records::{
    buckets, quorum_record, report_finalized, signers, FinalizedRecord, ProposedRecord,
    QuorumRecord, Record, TimeoutRecord, ValidatorSetRecord,
};
use crate::stakes::{collect_stakes, collected};
use crate::types::{
    BlockHeader, BlockId, HighExtend, NodeId, QuorumCertificate, RoundCertificate,
    TimeoutCertificate, TipRound,
};
use crate::u256::U256;
use std::collections::BTreeMap;
use vstd::prelude::*;

verus! {

/// How many blocks are remembered.
pub const VISITED_BLOCKS: usize = 100;

/// With more headers than this in the queue, no further one is read.
pub const MAX_REWIND_QUEUE_LEN: usize = 100;

/// The state of the monitor.
pub struct Monitor {
    pub visited_blocks: CachedBlocks,
    pub epoch_validators: EpochValidators,
    /// When each validator was last the leader of a round that timed out, in nanoseconds.
    pub last_skipped: BTreeMap<NodeId, u128>,
    pub current_epoch: u64,
    /// This node, if its key is known.
    pub self_node: Option<NodeId>,
    pub addresses: PeerAddresses,
}

/// A pair of a certificate and a proposed block, read at the time `now_ns`.
pub struct Tip {
    pub high_certificate: RoundCertificate,
    /// The quorum certificate within `high_certificate`.
    pub high_qc: QuorumCertificate,
    pub proposed_head: BlockHeader,
    pub now_ns: u128,
    /// Whether `high_certificate` differs from that of the tip before.
    pub changed: bool,
}

impl RoundCertificate {
    pub open spec fn spec_epoch(self) -> u64 {
        match self {
            RoundCertificate::Qc(qc) => qc.epoch,
            RoundCertificate::Tc(tc) => tc.epoch,
        }
    }

    /// The epoch of the round.
    pub fn epoch(&self) -> (epoch: u64)
        ensures
            epoch == self.spec_epoch(),
    {
        match self {
            RoundCertificate::Qc(qc) => qc.epoch,
            RoundCertificate::Tc(tc) => tc.epoch,
        }
    }
}

impl Tip {
    /// The number of signers of a timeout can be counted.
    pub open spec fn wf(self) -> bool {
        self.high_certificate matches RoundCertificate::Tc(tc) ==> signers(tc.tip_rounds@)
            <= usize::MAX
    }

    /// Whether the number of signers of a timeout can be counted.
    pub fn is_countable(&self) -> (countable: bool)
        ensures
            countable == self.wf(),
    {
        let tc = match &self.high_certificate {
            RoundCertificate::Qc(_) => {
                return true;
            },
            RoundCertificate::Tc(tc) => tc,
        };
        let ghost all = tc.tip_rounds@;
        let mut count: usize = 0;
        for i in 0..tc.tip_rounds.len()
            invariant
                all == tc.tip_rounds@,
                self.high_certificate == RoundCertificate::Tc(*tc),
                count == signers(all.take(i as int)),
        {
            proof {
                assert(all.take(i + 1).drop_last() =~= all.take(i as int));
                lemma_signers_of_some(all, i + 1);
            }
            match count.checked_add(tc.tip_rounds[i].num_signatures) {
                Some(more) => {
                    count = more;
                },
                None => {
                    return false;
                },
            }
        }
        proof {
            assert(all.take(all.len() as int) =~= all);
        }
        true
    }

    /// Where the walk to older blocks starts: at the certified block, unless the proposed one
    /// is of a later round.
    pub open spec fn spec_start(self) -> BlockId {
        if self.high_qc.round >= self.proposed_head.block_round {
            self.high_qc.block_id
        } else {
            self.proposed_head.id
        }
    }

    fn start(&self) -> (id: BlockId)
        ensures
            id == self.spec_start(),
    {
        if self.high_qc.round >= self.proposed_head.block_round {
            self.high_qc.block_id
        } else {
            self.proposed_head.id
        }
    }
}

/// What the later steps need to know of a tip.
#[derive(Clone, Copy)]
pub struct TipContext {
    /// Where the walk to older blocks starts.
    pub start: BlockId,
    pub now_ns: u128,
    /// The quorum certificate of the tip, if it is new.
    pub new_qc: Option<QuorumCertificate>,
}

/// The stakes of the epoch have to be loaded.
pub struct AwaitStakes {
    pub certificate: RoundCertificate,
    pub context: TipContext,
}

/// The leader of the round that timed out has to be elected.
pub struct AwaitLeader {
    pub tc: TimeoutCertificate,
    pub context: TipContext,
}

/// A walk to older blocks: the headers read so far, newest first, and the next one.
pub struct Rewind {
    pub context: TipContext,
    pub next_block_id: BlockId,
    pub block_queue: Vec<BlockHeader>,
}

/// The next header of the walk has to be read.
pub struct AwaitHeader {
    pub rewind: Rewind,
}

/// Headers that were read, newest first, whose blocks are to be remembered, oldest first.
pub struct Propose {
    pub context: TipContext,
    pub block_queue: Vec<BlockHeader>,
}

/// The body of the block `header` has to be read.
pub struct AwaitBody {
    pub context: TipContext,
    pub header: BlockHeader,
    pub block_queue: Vec<BlockHeader>,
}

/// All blocks are remembered; what became final is to be found.
pub struct Commit {
    pub context: TipContext,
}

/// What comes next for a tip.
pub enum TipStep {
    LoadStakes(AwaitStakes),
    ElectLeader(AwaitLeader),
    Rewind(Rewind),
    ReadHeader(AwaitHeader),
    Propose(Propose),
    ReadBody(AwaitBody),
    Commit(Commit),
}

impl Tip {
    pub open spec fn spec_context(self) -> TipContext {
        TipContext {
            start: self.spec_start(),
            now_ns: self.now_ns,
            new_qc: match self.high_certificate {
                RoundCertificate::Qc(qc) => if self.changed {
                    Some(qc)
                } else {
                    None
                },
                RoundCertificate::Tc(_) => None,
            },
        }
    }

    fn context(&self) -> (context: TipContext)
        ensures
            context == self.spec_context(),
    {
        let new_qc = match &self.high_certificate {
            RoundCertificate::Qc(qc) => if self.changed {
                Some(*qc)
            } else {
                None
            },
            RoundCertificate::Tc(_) => None,
        };
        TipContext { start: self.start(), now_ns: self.now_ns, new_qc }
    }
}

impl TipStep {
    /// Whether a walk is to start.
    pub open spec fn starts_rewind(self, context: TipContext) -> bool {
        self matches TipStep::Rewind(r) && r.context == context && r.next_block_id == context.start
            && r.block_queue@ == Seq::<BlockHeader>::empty()
    }

    /// Whether the blocks of a queue are to be remembered.
    pub open spec fn proposes(self, context: TipContext, block_queue: Seq<BlockHeader>) -> bool {
        self matches TipStep::Propose(p) && p.context == context && p.block_queue@ == block_queue
    }

    /// The number of signers of a timeout can be counted, and no queue is longer than a walk
    /// makes it.
    pub open spec fn wf(self) -> bool {
        match self {
            TipStep::LoadStakes(s) => s.wf(),
            TipStep::ElectLeader(s) => s.wf(),
            TipStep::Rewind(s) => s.block_queue@.len() <= MAX_REWIND_QUEUE_LEN + 1,
            TipStep::ReadHeader(s) => s.rewind.block_queue@.len() <= MAX_REWIND_QUEUE_LEN,
            TipStep::Propose(s) => s.block_queue@.len() <= MAX_REWIND_QUEUE_LEN + 1,
            TipStep::ReadBody(s) => s.block_queue@.len() <= MAX_REWIND_QUEUE_LEN,
            TipStep::Commit(_) => true,
        }
    }

    /// A bound on the number of steps that follow. Every step has a lower one than the step
    /// before, so that a tip is worked off after finitely many.
    pub open spec fn rank(self) -> int {
        let limit = MAX_REWIND_QUEUE_LEN + 1;
        match self {
            TipStep::LoadStakes(_) => 4 * limit + 4,
            TipStep::ElectLeader(_) => 4 * limit + 3,
            TipStep::Rewind(s) => 4 * limit + 2 - 2 * s.block_queue@.len(),
            TipStep::ReadHeader(s) => 4 * limit + 1 - 2 * s.rewind.block_queue@.len(),
            TipStep::Propose(s) => 2 * s.block_queue@.len() as int + 1,
            TipStep::ReadBody(s) => 2 * s.block_queue@.len() as int + 2,
            TipStep::Commit(_) => 0,
        }
    }

    /// Whether `next` can follow on this step without the tip going on for ever.
    pub open spec fn leads_to(self, next: TipStep) -> bool {
        self.wf() ==> next.wf() && 0 <= next.rank() < self.rank()
    }
}

impl AwaitStakes {
    pub open spec fn wf(self) -> bool {
        self.certificate matches RoundCertificate::Tc(tc) ==> signers(tc.tip_rounds@) <= usize::MAX
    }
}

impl AwaitLeader {
    pub open spec fn wf(self) -> bool {
        signers(self.tc.tip_rounds@) <= usize::MAX
    }
}

/// Whether this is the step, with these records, that follows once the stakes of the epoch are
/// there: a quorum certificate is reported and a walk starts, after a timeout the leader is
/// asked for.
pub open spec fn enters(
    certificate: RoundCertificate,
    context: TipContext,
    step: TipStep,
    records: Seq<Record>,
) -> bool {
    match certificate {
        RoundCertificate::Qc(qc) => {
            &&& step.starts_rewind(context)
            &&& records == seq![
                Record::QuorumCertificate(quorum_record(qc, context.now_ns)),
            ]
        },
        RoundCertificate::Tc(tc) => {
            &&& step == TipStep::ElectLeader(AwaitLeader { tc, context })
            &&& records == Seq::<Record>::empty()
        },
    }
}

fn start_rewind(context: TipContext) -> (step: TipStep)
    ensures
        step.starts_rewind(context),
{
    TipStep::Rewind(Rewind { context, next_block_id: context.start, block_queue: Vec::new() })
}

fn enter(certificate: RoundCertificate, context: TipContext) -> (entered: (TipStep, Vec<Record>))
    ensures
        enters(certificate, context, entered.0, entered.1@),
{
    let mut records: Vec<Record> = Vec::new();
    match certificate {
        RoundCertificate::Qc(qc) => {
            let record = QuorumRecord {
                round: qc.round,
                epoch: qc.epoch,
                block_id: qc.block_id,
                num_signatures: qc.num_signatures,
                now_ts_ms: context.now_ns / 1_000_000,
            };
            records.push(Record::QuorumCertificate(record));
            (start_rewind(context), records)
        },
        RoundCertificate::Tc(tc) => (TipStep::ElectLeader(AwaitLeader { tc, context }), records),
    }
}

impl Monitor {
    /// The memory of blocks is in order and of the size that it was made with, and holds every
    /// block under the id of its header.
    pub open spec fn wf(&self) -> bool {
        &&& self.visited_blocks.wf()
        &&& self.visited_blocks.capacity() == VISITED_BLOCKS
        &&& keyed_by_header_id(self.visited_blocks.entries())
    }

    /// A monitor that has seen nothing yet.
    pub fn new(self_node: Option<NodeId>, addresses: PeerAddresses) -> (monitor: Self)
        ensures
            monitor.wf(),
            monitor.visited_blocks.entries() == Seq::<(BlockId, CachedBlock)>::empty(),
            monitor.epoch_validators@ == Map::<u64, BTreeMap<NodeId, U256>>::empty(),
            monitor.last_skipped@ == Map::<NodeId, u128>::empty(),
            monitor.current_epoch == 1,
            monitor.self_node == self_node,
            monitor.addresses == addresses,
    {
        Monitor {
            visited_blocks: CachedBlocks::new(VISITED_BLOCKS),
            epoch_validators: BTreeMap::new(),
            last_skipped: BTreeMap::new(),
            current_epoch: 1,
            self_node,
            addresses,
        }
    }

    /// Takes up a tip. If its certificate is new, its epoch is the current one from now on, and
    /// unless the stakes of that epoch are known they have to be loaded.
    pub fn begin(&mut self, tip: Tip) -> (begun: (TipStep, Vec<Record>))
        requires
            tip.wf(),
        ensures
            final(self).visited_blocks == old(self).visited_blocks,
            final(self).epoch_validators == old(self).epoch_validators,
            final(self).last_skipped == old(self).last_skipped,
            final(self).self_node == old(self).self_node,
            final(self).addresses == old(self).addresses,
            final(self).current_epoch == if tip.changed {
                tip.high_certificate.spec_epoch()
            } else {
                old(self).current_epoch
            },
            begun.0.wf(),
            if !tip.changed {
                begun.0.starts_rewind(tip.spec_context()) && begun.1@ == Seq::<Record>::empty()
            } else if old(self).epoch_validators@.contains_key(
                tip.high_certificate.spec_epoch(),
            ) {
                enters(tip.high_certificate, tip.spec_context(), begun.0, begun.1@)
            } else {
                begun.0 == TipStep::LoadStakes(
                    (AwaitStakes {
                        certificate: tip.high_certificate,
                        context: tip.spec_context(),
                    }),
                ) && begun.1@ == Seq::<Record>::empty()
            },
    {
        broadcast use vstd::std_specs::btree::group_btree_axioms;

        proof {
            lemma_keys_are_ordered();
        }
        let context = tip.context();
        if !tip.changed {
            return (start_rewind(context), Vec::new());
        }
        self.current_epoch = tip.high_certificate.epoch();
        let certificate = tip.high_certificate;
        if self.epoch_validators.contains_key(&self.current_epoch) {
            enter(certificate, context)
        } else {
            (TipStep::LoadStakes(AwaitStakes { certificate, context }), Vec::new())
        }
    }

    /// Reports on the stakes of the current epoch, if they are known.
    pub fn report(&self, now_ns: u128) -> (report: LivenessReport)
        ensures
            match report {
                LivenessReport::NoValidatorSet => !self.epoch_validators@.contains_key(
                    self.current_epoch,
                ),
                LivenessReport::Overflow => {
                    &&& self.epoch_validators@.contains_key(self.current_epoch)
                    &&& !self.shares_fit(now_ns)
                },
                LivenessReport::Stakes(stakes) => {
                    &&& self.epoch_validators@.contains_key(self.current_epoch)
                    &&& self.shares_fit(now_ns)
                    &&& stakes.reports(
                        self.current_epoch,
                        self.epoch_validators@[self.current_epoch]@,
                        self.last_skipped@,
                        now_ns,
                        self.self_node,
                    )
                },
            },
    {
        broadcast use vstd::std_specs::btree::group_btree_axioms;

        proof {
            lemma_keys_are_ordered();
        }
        match self.epoch_validators.get(&self.current_epoch) {
            None => LivenessReport::NoValidatorSet,
            Some(stakes) => match stake_liveness(
                self.current_epoch,
                stakes,
                &self.last_skipped,
                self.self_node,
                now_ns,
            ) {
                Some(report) => LivenessReport::Stakes(report),
                None => LivenessReport::Overflow,
            },
        }
    }

    /// Whether the shares of the current epoch fit into 64 bits.
    pub open spec fn shares_fit(&self, now_ns: u128) -> bool {
        let stakes = self.epoch_validators@[self.current_epoch]@;
        &&& online_share(stakes, self.last_skipped@, now_ns) <= u64::MAX
        &&& online_share_without(stakes, self.last_skipped@, now_ns, self.self_node) <= u64::MAX
    }
}

/// What is to be said of the stakes.
pub enum LivenessReport {
    /// The stakes of the current epoch are not known.
    NoValidatorSet,
    /// A share does not fit into 64 bits.
    Overflow,
    Stakes(StakeLiveness),
}

impl AwaitStakes {
    /// Goes on with the stakes of the epoch, as they stand in its validator set.
    pub fn resume(
        self,
        monitor: &mut Monitor,
        validators: &Vec<(NodeId, U256)>,
    ) -> (resumed: (TipStep, Vec<Record>))
        requires
            self.wf(),
        ensures
            final(monitor).visited_blocks == old(monitor).visited_blocks,
            final(monitor).last_skipped == old(monitor).last_skipped,
            final(monitor).current_epoch == old(monitor).current_epoch,
            final(monitor).self_node == old(monitor).self_node,
            final(monitor).addresses == old(monitor).addresses,
            ({
                let epoch = self.certificate.spec_epoch();
                let stakes = final(monitor).epoch_validators@[epoch];
                &&& final(monitor).epoch_validators@ == old(monitor).epoch_validators@.insert(
                    epoch,
                    stakes,
                )
                &&& stakes@ == collected(validators@)
                &&& resumed.1@.len() > 0
                &&& resumed.1@[0] matches Record::ValidatorSet(r) && r.epoch == epoch
                    && r.validators@ == collected(validators@)
            }),
            TipStep::LoadStakes(self).leads_to(resumed.0),
            enters(self.certificate, self.context, resumed.0, resumed.1@.skip(1)),
    {
        broadcast use vstd::std_specs::btree::group_btree_axioms;

        proof {
            lemma_keys_are_ordered();
        }
        let epoch = self.certificate.epoch();
        let stakes = collect_stakes(validators);
        let record = ValidatorSetRecord { epoch, validators: stakes.clone() };
        monitor.epoch_validators.insert(epoch, stakes);
        let mut records: Vec<Record> = Vec::new();
        records.push(Record::ValidatorSet(record));
        let (step, mut more) = enter(self.certificate, self.context);
        let ghost new = more@;
        records.append(&mut more);
        proof {
            assert(records@.skip(1) =~= new);
        }
        (step, records)
    }
}

impl AwaitLeader {
    /// Goes on with the leader of the round that timed out. It counts as offline for a while.
    pub fn resume(
        self,
        monitor: &mut Monitor,
        leader: NodeId,
    ) -> (resumed: (TipStep, Vec<Record>))
        requires
            self.wf(),
        ensures
            final(monitor).visited_blocks == old(monitor).visited_blocks,
            final(monitor).epoch_validators == old(monitor).epoch_validators,
            final(monitor).current_epoch == old(monitor).current_epoch,
            final(monitor).self_node == old(monitor).self_node,
            final(monitor).addresses == old(monitor).addresses,
            final(monitor).last_skipped@ == old(monitor).last_skipped@.insert(
                leader,
                self.context.now_ns,
            ),
            TipStep::ElectLeader(self).leads_to(resumed.0),
            resumed.0.starts_rewind(self.context),
            resumed.1@.len() == 1,
            resumed.1@[0] matches Record::Timeout(r) && r.reports(
                self.tc,
                leader,
                old(monitor).addresses@,
                self.context.now_ns,
            ),
    {
        broadcast use vstd::std_specs::btree::group_btree_axioms;

        proof {
            lemma_keys_are_ordered();
        }
        let (tip_round_buckets, num_timeout_signers) = count_signers(&self.tc);
        monitor.last_skipped.insert(leader, self.context.now_ns);
        let high_extend_qc = self.tc.high_extend.qc();
        let high_extend_kind = match self.tc.high_extend {
            HighExtend::Qc(_) => "qc",
            HighExtend::Tip(_) => "tip",
        };
        let record = TimeoutRecord {
            round: self.tc.round,
            epoch: self.tc.epoch,
            author: leader,
            author_address: get_author_address(&monitor.addresses, &leader),
            num_timeout_signers,
            tip_round_buckets,
            high_extend_kind,
            high_extend_qc_round: high_extend_qc.round,
            high_extend_qc_epoch: high_extend_qc.epoch,
            high_extend_qc_block_id: high_extend_qc.block_id,
            now_ts_ms: self.context.now_ns / 1_000_000,
        };
        let mut records: Vec<Record> = Vec::new();
        records.push(Record::Timeout(record));
        (start_rewind(self.context), records)
    }
}

fn count_signers(tc: &TimeoutCertificate) -> (counted: (Vec<(u64, u64, usize)>, usize))
    requires
        signers(tc.tip_rounds@) <= usize::MAX,
    ensures
        counted.0@ == buckets(tc.tip_rounds@),
        counted.1 == signers(tc.tip_rounds@),
{
    let mut tip_round_buckets: Vec<(u64, u64, usize)> = Vec::new();
    let mut num_timeout_signers: usize = 0;
    let ghost all = tc.tip_rounds@;
    for i in 0..tc.tip_rounds.len()
        invariant
            all == tc.tip_rounds@,
            signers(all) <= usize::MAX,
            tip_round_buckets@ == buckets(all.take(i as int)),
            num_timeout_signers == signers(all.take(i as int)),
    {
        let bucket = tc.tip_rounds[i];
        proof {
            assert(all.take(i + 1).drop_last() =~= all.take(i as int));
            lemma_signers_of_some(all, i + 1);
        }
        tip_round_buckets.push((bucket.high_qc_round, bucket.high_tip_round, bucket.num_signatures));
        num_timeout_signers = num_timeout_signers + bucket.num_signatures;
        proof {
            assert(tip_round_buckets@ =~= buckets(all.take(i + 1)));
        }
    }
    proof {
        assert(all.take(all.len() as int) =~= all);
    }
    (tip_round_buckets, num_timeout_signers)
}

proof fn lemma_signers_of_some(tip_rounds: Seq<TipRound>, n: int)
    requires
        0 <= n <= tip_rounds.len(),
    ensures
        signers(tip_rounds.take(n)) <= signers(tip_rounds),
    decreases tip_rounds.len() - n,
{
    if n < tip_rounds.len() {
        lemma_signers_of_some(tip_rounds, n + 1);
        assert(tip_rounds.take(n + 1).drop_last() =~= tip_rounds.take(n));
    } else {
        assert(tip_rounds.take(n) =~= tip_rounds);
    }
}

impl Rewind {
    /// Whether the walk ends here: the next block was seen before, or the queue is full.
    pub open spec fn ends(self, visited: Map<BlockId, CachedBlock>) -> bool {
        visited.contains_key(self.next_block_id) || self.block_queue@.len() > MAX_REWIND_QUEUE_LEN
    }

    /// Goes on with the walk if it does not end here.
    pub fn advance(self, monitor: &Monitor) -> (step: TipStep)
        ensures
            TipStep::Rewind(self).leads_to(step),
            if self.ends(monitor.visited_blocks.blocks()) {
                step.proposes(self.context, self.block_queue@)
            } else {
                step == TipStep::ReadHeader(AwaitHeader { rewind: self })
            },
    {
        if monitor.visited_blocks.contains(&self.next_block_id) || self.block_queue.len()
            > MAX_REWIND_QUEUE_LEN {
            TipStep::Propose(Propose { context: self.context, block_queue: self.block_queue })
        } else {
            TipStep::ReadHeader(AwaitHeader { rewind: self })
        }
    }
}

impl AwaitHeader {
    /// Goes on with the header that was asked for, and then with its parent. Where there is no
    /// such header the walk ends.
    pub fn resume(self, header: Option<BlockHeader>) -> (step: TipStep)
        ensures
            TipStep::ReadHeader(self).leads_to(step),
            match header {
                Some(h) => step matches TipStep::Rewind(r) && r.context == self.rewind.context
                    && r.next_block_id == h.parent_id && r.block_queue@
                    == self.rewind.block_queue@.push(h),
                None => step.proposes(self.rewind.context, self.rewind.block_queue@),
            },
    {
        let rewind = self.rewind;
        let context = rewind.context;
        let mut block_queue = rewind.block_queue;
        match header {
            Some(h) => {
                block_queue.push(h);
                TipStep::Rewind(Rewind { context, next_block_id: h.parent_id, block_queue })
            },
            None => TipStep::Propose(Propose { context, block_queue }),
        }
    }
}

impl Propose {
    /// Goes on with the oldest block of the queue, if there is one.
    pub fn advance(self) -> (step: TipStep)
        ensures
            TipStep::Propose(self).leads_to(step),
            if self.block_queue@.len() == 0 {
                step == TipStep::Commit(Commit { context: self.context })
            } else {
                step matches TipStep::ReadBody(b) && b.context == self.context && b.header
                    == self.block_queue@.last() && b.block_queue@ == self.block_queue@.drop_last()
            },
    {
        let context = self.context;
        let mut block_queue = self.block_queue;
        match block_queue.pop() {
            Some(header) => TipStep::ReadBody(AwaitBody { context, header, block_queue }),
            None => TipStep::Commit(Commit { context }),
        }
    }
}

impl AwaitBody {
    /// Goes on with the number of transactions in the body that was asked for: the block is
    /// remembered as seen and not final, and reported. Where there is no such body the block
    /// is passed over.
    pub fn resume(
        self,
        monitor: &mut Monitor,
        num_tx: Option<usize>,
    ) -> (resumed: (TipStep, Vec<Record>))
        requires
            old(monitor).wf(),
        ensures
            final(monitor).wf(),
            final(monitor).epoch_validators == old(monitor).epoch_validators,
            final(monitor).last_skipped == old(monitor).last_skipped,
            final(monitor).current_epoch == old(monitor).current_epoch,
            final(monitor).self_node == old(monitor).self_node,
            final(monitor).addresses == old(monitor).addresses,
            TipStep::ReadBody(self).leads_to(resumed.0),
            resumed.0.proposes(self.context, self.block_queue@),
            match num_tx {
                Some(n) => {
                    &&& final(monitor).visited_blocks.entries() == after_put(
                        old(monitor).visited_blocks.entries(),
                        VISITED_BLOCKS as nat,
                        self.header.id,
                        (CachedBlock { header: self.header, is_finalized: false }),
                    )
                    &&& resumed.1@.len() == 1
                    &&& resumed.1@[0] matches Record::ProposedBlock(r) && r.reports(
                        self.header,
                        n,
                        old(monitor).addresses@,
                        self.context.now_ns,
                    )
                },
                None => {
                    &&& final(monitor).visited_blocks == old(monitor).visited_blocks
                    &&& resumed.1@ == Seq::<Record>::empty()
                },
            },
    {
        let header = self.header;
        let now_ns = self.context.now_ns;
        let mut records: Vec<Record> = Vec::new();
        if let Some(n) = num_tx {
            monitor.visited_blocks.put(header.id, CachedBlock::new(header));
            let record = ProposedRecord {
                round: header.block_round,
                parent_round: header.qc.round,
                epoch: header.epoch,
                seq_num: header.seq_num,
                num_tx: n,
                author: header.author,
                block_ts_ms: header.timestamp_ns / 1_000_000,
                now_ts_ms: now_ns / 1_000_000,
                author_address: get_author_address(&monitor.addresses, &header.author),
            };
            records.push(Record::ProposedBlock(record));
        }
        let step = TipStep::Propose(
            Propose { context: self.context, block_queue: self.block_queue },
        );
        (step, records)
    }
}

/// The block that becomes final with a new quorum certificate, if one does: the certified block
/// was seen, and its parent was certified in the round right before. The parent is then final.
pub open spec fn committed(
    visited: Map<BlockId, CachedBlock>,
    new_qc: Option<QuorumCertificate>,
) -> Option<BlockId> {
    match new_qc {
        Some(qc) => if visited.contains_key(qc.block_id) && qc.round
            == visited[qc.block_id].header.qc.round + 1 {
            Some(visited[qc.block_id].header.qc.block_id)
        } else {
            None
        },
        None => None,
    }
}

fn committed_block(visited: &CachedBlocks, new_qc: Option<QuorumCertificate>) -> (id: Option<
    BlockId,
>)
    ensures
        id == committed(visited.blocks(), new_qc),
{
    let qc = match new_qc {
        Some(qc) => qc,
        None => {
            return None;
        },
    };
    match visited.peek(&qc.block_id) {
        Some(parent_block) => {
            let parent_qc = parent_block.header.qc;
            if parent_qc.round < u64::MAX && qc.round == parent_qc.round + 1 {
                Some(parent_qc.block_id)
            } else {
                None
            }
        },
        None => None,
    }
}

impl Commit {
    /// Marks what became final, reports it oldest first, and forgets the epochs that are too
    /// many. This is the last step of a tip.
    pub fn run(self, monitor: &mut Monitor) -> (records: Vec<Record>)
        requires
            old(monitor).wf(),
        ensures
            final(monitor).wf(),
            final(monitor).last_skipped == old(monitor).last_skipped,
            final(monitor).current_epoch == old(monitor).current_epoch,
            final(monitor).self_node == old(monitor).self_node,
            final(monitor).addresses == old(monitor).addresses,
            keeps_highest(
                old(monitor).epoch_validators@,
                final(monitor).epoch_validators@,
                MAX_EPOCHS as nat,
            ),
            ({
                let visited = old(monitor).visited_blocks;
                match committed(visited.blocks(), self.context.new_qc) {
                    Some(id) => {
                        &&& final(monitor).visited_blocks.entries() == marked_final(
                            visited.entries(),
                            open_chain(visited.blocks(), id),
                        )
                        &&& report_finalized(
                            records@,
                            headers_oldest_first(
                                visited.blocks(),
                                open_chain(visited.blocks(), id),
                            ),
                            old(monitor).addresses@,
                            self.context.now_ns,
                        )
                    },
                    None => {
                        &&& final(monitor).visited_blocks == visited
                        &&& records@ == Seq::<Record>::empty()
                    },
                }
            }),
    {
        let mut records: Vec<Record> = Vec::new();
        if let Some(id) = committed_block(&monitor.visited_blocks, self.context.new_qc) {
            let headers = finalize_block(&mut monitor.visited_blocks, &id);
            let ghost addresses = monitor.addresses@;
            for i in 0..headers.len()
                invariant
                    addresses == monitor.addresses@,
                    report_finalized(
                        records@,
                        headers@.take(i as int),
                        addresses,
                        self.context.now_ns,
                    ),
            {
                let header = headers[i];
                let record = FinalizedRecord {
                    round: header.block_round,
                    parent_round: header.qc.round,
                    epoch: header.epoch,
                    seq_num: header.seq_num,
                    author: header.author,
                    block_ts_ms: header.timestamp_ns / 1_000_000,
                    now_ts_ms: self.context.now_ns / 1_000_000,
                    author_address: get_author_address(&monitor.addresses, &header.author),
                };
                records.push(Record::FinalizedBlock(record));
            }
            proof {
                assert(headers@.take(headers@.len() as int) =~= headers@);
            }
        }
        prune_epochs(&mut monitor.epoch_validators);
        records
    }
}

} // verus!
