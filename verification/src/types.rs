//! The consensus values that the monitor reads, as plain data.
use vstd::prelude::*;

verus! {

/// The 32 bytes of a block's hash (or of a block body's hash), as two big-endian integers.
pub type BlockId = (u128, u128);

/// The 33 bytes of a compressed public key, as three big-endian integers.
///
/// The order of these tuples is the lexicographic order of the bytes.
pub type NodeId = (u8, u128, u128);

/// What a quorum certificate says of the block it certifies.
#[derive(Clone, Copy)]
pub struct QuorumCertificate {
    pub round: u64,
    pub epoch: u64,
    pub block_id: BlockId,
    pub num_signatures: usize,
}

/// A block header.
#[derive(Clone, Copy)]
pub struct BlockHeader {
    /// The hash of this header.
    pub id: BlockId,
    /// The hash of the header that this one extends.
    pub parent_id: BlockId,
    pub block_round: u64,
    /// The certificate of the parent.
    pub qc: QuorumCertificate,
    pub epoch: u64,
    pub seq_num: u64,
    pub author: NodeId,
    pub timestamp_ns: u128,
    pub block_body_id: BlockId,
}

/// How many of the nodes that timed out reported one pair of rounds.
#[derive(Clone, Copy)]
pub struct TipRound {
    pub high_qc_round: u64,
    pub high_tip_round: u64,
    pub num_signatures: usize,
}

/// What the proposal after a timeout has to extend, with the quorum certificate found there.
#[derive(Clone, Copy)]
pub enum HighExtend {
    Qc(QuorumCertificate),
    Tip(QuorumCertificate),
}

impl HighExtend {
    pub open spec fn spec_qc(self) -> QuorumCertificate {
        match self {
            HighExtend::Qc(qc) => qc,
            HighExtend::Tip(qc) => qc,
        }
    }

    /// The quorum certificate of either variant.
    #[verifier::when_used_as_spec(spec_qc)]
    pub fn qc(self) -> (qc: QuorumCertificate)
        ensures
            qc == self.spec_qc(),
    {
        match self {
            HighExtend::Qc(qc) => qc,
            HighExtend::Tip(qc) => qc,
        }
    }
}

/// A certificate that a round ended without a proposal.
pub struct TimeoutCertificate {
    pub epoch: u64,
    pub round: u64,
    pub tip_rounds: Vec<TipRound>,
    pub high_extend: HighExtend,
}

/// The certificate with which a round was entered.
pub enum RoundCertificate {
    Qc(QuorumCertificate),
    Tc(TimeoutCertificate),
}

} // verus!
