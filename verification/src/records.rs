//! What the monitor reports of a tip.
use crate::peers::author_address;
use crate::stakes::EpochStakes;
use crate::types::{
    BlockHeader, BlockId, HighExtend, NodeId, QuorumCertificate, TimeoutCertificate, TipRound,
};
use vstd::prelude::*;

verus! {

/// The validators of an epoch, on the first certificate of it.
pub struct ValidatorSetRecord {
    pub epoch: u64,
    pub validators: EpochStakes,
}

/// A round that ended with a quorum certificate.
#[derive(Clone, Copy)]
pub struct QuorumRecord {
    pub round: u64,
    pub epoch: u64,
    pub block_id: BlockId,
    pub num_signatures: usize,
    pub now_ts_ms: u128,
}

/// A round that timed out.
pub struct TimeoutRecord {
    pub round: u64,
    pub epoch: u64,
    /// The leader of the round.
    pub author: NodeId,
    pub author_address: String,
    pub num_timeout_signers: usize,
    /// High qc round, high tip round and number of signatures.
    pub tip_round_buckets: Vec<(u64, u64, usize)>,
    pub high_extend_kind: &'static str,
    pub high_extend_qc_round: u64,
    pub high_extend_qc_epoch: u64,
    pub high_extend_qc_block_id: BlockId,
    pub now_ts_ms: u128,
}

/// A block that was proposed.
pub struct ProposedRecord {
    pub round: u64,
    pub parent_round: u64,
    pub epoch: u64,
    pub seq_num: u64,
    pub num_tx: usize,
    pub author: NodeId,
    pub block_ts_ms: u128,
    pub now_ts_ms: u128,
    pub author_address: String,
}

/// A block that became final.
pub struct FinalizedRecord {
    pub round: u64,
    pub parent_round: u64,
    pub epoch: u64,
    pub seq_num: u64,
    pub author: NodeId,
    pub block_ts_ms: u128,
    pub now_ts_ms: u128,
    pub author_address: String,
}

/// One line of the report.
pub enum Record {
    ValidatorSet(ValidatorSetRecord),
    QuorumCertificate(QuorumRecord),
    Timeout(TimeoutRecord),
    ProposedBlock(ProposedRecord),
    FinalizedBlock(FinalizedRecord),
}

/// The report on a quorum certificate.
pub open spec fn quorum_record(qc: QuorumCertificate, now_ns: u128) -> QuorumRecord {
    QuorumRecord {
        round: qc.round,
        epoch: qc.epoch,
        block_id: qc.block_id,
        num_signatures: qc.num_signatures,
        now_ts_ms: now_ns / 1_000_000,
    }
}

/// How many nodes signed a timeout, over all pairs of rounds.
pub open spec fn signers(tip_rounds: Seq<TipRound>) -> nat
    decreases tip_rounds.len(),
{
    if tip_rounds.len() == 0 {
        0
    } else {
        signers(tip_rounds.drop_last()) + tip_rounds.last().num_signatures as nat
    }
}

/// The number of signers is the sum of the numbers of signatures.
pub(crate) proof fn lemma_signers_is_the_sum(
    tip_rounds: Seq<TipRound>,
    sum: spec_fn(int, TipRound) -> int,
)
    requires
        forall|n: int, tip_round: TipRound| #[trigger]
            sum(n, tip_round) == n + tip_round.num_signatures,
    ensures
        signers(tip_rounds) == tip_rounds.fold_left(0int, sum),
    decreases tip_rounds.len(),
{
    if tip_rounds.len() > 0 {
        lemma_signers_is_the_sum(tip_rounds.drop_last(), sum);
    }
}

/// The pairs of rounds with the number of signatures for each.
pub open spec fn buckets(tip_rounds: Seq<TipRound>) -> Seq<(u64, u64, usize)> {
    Seq::new(
        tip_rounds.len(),
        |i: int|
            (
                tip_rounds[i].high_qc_round,
                tip_rounds[i].high_tip_round,
                tip_rounds[i].num_signatures,
            ),
    )
}

impl TimeoutRecord {
    /// Whether this is the report on the timeout `tc` of a round that `leader` led.
    pub open spec fn reports(
        self,
        tc: TimeoutCertificate,
        leader: NodeId,
        addresses: Map<NodeId, String>,
        now_ns: u128,
    ) -> bool {
        &&& self.round == tc.round
        &&& self.epoch == tc.epoch
        &&& self.author == leader
        &&& self.author_address@ == author_address(addresses, leader)
        &&& self.num_timeout_signers == signers(tc.tip_rounds@)
        &&& self.tip_round_buckets@ == buckets(tc.tip_rounds@)
        &&& self.high_extend_kind@ == match tc.high_extend {
            HighExtend::Qc(_) => "qc"@,
            HighExtend::Tip(_) => "tip"@,
        }
        &&& self.high_extend_qc_round == tc.high_extend.qc().round
        &&& self.high_extend_qc_epoch == tc.high_extend.qc().epoch
        &&& self.high_extend_qc_block_id == tc.high_extend.qc().block_id
        &&& self.now_ts_ms == now_ns / 1_000_000
    }
}

impl ProposedRecord {
    /// Whether this is the report on a proposed block with `num_tx` transactions.
    pub open spec fn reports(
        self,
        header: BlockHeader,
        num_tx: usize,
        addresses: Map<NodeId, String>,
        now_ns: u128,
    ) -> bool {
        &&& self.round == header.block_round
        &&& self.parent_round == header.qc.round
        &&& self.epoch == header.epoch
        &&& self.seq_num == header.seq_num
        &&& self.num_tx == num_tx
        &&& self.author == header.author
        &&& self.block_ts_ms == header.timestamp_ns / 1_000_000
        &&& self.now_ts_ms == now_ns / 1_000_000
        &&& self.author_address@ == author_address(addresses, header.author)
    }
}

impl FinalizedRecord {
    /// Whether this is the report on a block that became final.
    pub open spec fn reports(
        self,
        header: BlockHeader,
        addresses: Map<NodeId, String>,
        now_ns: u128,
    ) -> bool {
        &&& self.round == header.block_round
        &&& self.parent_round == header.qc.round
        &&& self.epoch == header.epoch
        &&& self.seq_num == header.seq_num
        &&& self.author == header.author
        &&& self.block_ts_ms == header.timestamp_ns / 1_000_000
        &&& self.now_ts_ms == now_ns / 1_000_000
        &&& self.author_address@ == author_address(addresses, header.author)
    }
}

/// Whether the records report the headers, one each and in the same order, as final.
pub open spec fn report_finalized(
    records: Seq<Record>,
    headers: Seq<BlockHeader>,
    addresses: Map<NodeId, String>,
    now_ns: u128,
) -> bool {
    &&& records.len() == headers.len()
    &&& forall|i: int|
        0 <= i < headers.len() ==> ((#[trigger] records[i]) matches Record::FinalizedBlock(r)
            && r.reports(headers[i], addresses, now_ns))
}

} // verus!
