use monad_monitor::monitor::{
    AwaitBody, AwaitHeader, AwaitLeader, AwaitStakes, Commit, LivenessReport, Monitor, Rewind, Tip,
    TipStep,
};
use monad_monitor::peers::{peer_addresses, Peer};
use monad_monitor::records::Record;
use monad_monitor::types::{
    BlockHeader, BlockId, HighExtend, NodeId, QuorumCertificate, RoundCertificate,
    TimeoutCertificate, TipRound,
};
use monad_monitor::u256::U256;
use std::collections::BTreeMap;

const A: NodeId = (2, 0, 1);
const B: NodeId = (2, 0, 2);

fn qc(round: u64, id: u128) -> QuorumCertificate {
    QuorumCertificate { round, epoch: 3, block_id: (0, id), num_signatures: 4 }
}

/// Block `id` of round `id`, on top of block `id - 1`.
fn header(id: u128) -> BlockHeader {
    BlockHeader {
        id: (0, id),
        parent_id: (0, id - 1),
        block_round: id as u64,
        qc: qc(id as u64 - 1, id - 1),
        epoch: 3,
        seq_num: 10 + id as u64,
        author: A,
        timestamp_ns: 2_999_999,
        block_body_id: (1, id),
    }
}

fn monitor() -> Monitor {
    let peers = vec![Peer { pubkey: A, ip: String::from("10.0.0.1"), tcp_port: 80 }];
    Monitor::new(Some(B), peer_addresses(Some(peers)))
}

fn qc_tip(round: u64, id: u128, head: u128, changed: bool) -> Tip {
    Tip {
        high_certificate: RoundCertificate::Qc(qc(round, id)),
        high_qc: qc(round, id),
        proposed_head: header(head),
        now_ns: 5_000_000,
        changed,
    }
}

fn timeout(signatures: &[usize]) -> TimeoutCertificate {
    TimeoutCertificate {
        epoch: 3,
        round: 9,
        tip_rounds: signatures
            .iter()
            .enumerate()
            .map(|(i, n)| TipRound {
                high_qc_round: i as u64,
                high_tip_round: 7,
                num_signatures: *n,
            })
            .collect(),
        high_extend: HighExtend::Tip(qc(8, 8)),
    }
}

fn tc_tip(signatures: &[usize]) -> Tip {
    Tip {
        high_certificate: RoundCertificate::Tc(timeout(signatures)),
        high_qc: qc(8, 8),
        proposed_head: header(8),
        now_ns: 5_000_000,
        changed: true,
    }
}

fn load(step: TipStep) -> AwaitStakes {
    match step {
        TipStep::LoadStakes(s) => s,
        _ => panic!("stakes are loaded"),
    }
}

fn elect(step: TipStep) -> AwaitLeader {
    match step {
        TipStep::ElectLeader(s) => s,
        _ => panic!("a leader is elected"),
    }
}

fn rewind(step: TipStep) -> Rewind {
    match step {
        TipStep::Rewind(s) => s,
        _ => panic!("a walk goes on"),
    }
}

fn read_header(step: TipStep) -> AwaitHeader {
    match step {
        TipStep::ReadHeader(s) => s,
        _ => panic!("a header is read"),
    }
}

fn read_body(step: TipStep) -> AwaitBody {
    match step {
        TipStep::ReadBody(s) => s,
        _ => panic!("a body is read"),
    }
}

fn commit(step: TipStep) -> Commit {
    match step {
        TipStep::Commit(s) => s,
        _ => panic!("blocks are committed"),
    }
}

struct Ledger {
    headers: BTreeMap<BlockId, BlockHeader>,
    bodies: BTreeMap<BlockId, usize>,
}

fn ledger(ids: &[u128]) -> Ledger {
    Ledger {
        headers: ids.iter().map(|id| ((0, *id), header(*id))).collect(),
        bodies: ids.iter().map(|id| ((1, *id), *id as usize)).collect(),
    }
}

/// Works off a tip with the stakes 1 and 2 and with `A` as the leader of every round.
fn run(monitor: &mut Monitor, ledger: &Ledger, tip: Tip) -> (Vec<Record>, Vec<BlockId>) {
    let mut asked = Vec::new();
    let (mut step, mut records) = monitor.begin(tip);
    loop {
        let mut more = Vec::new();
        step = match step {
            TipStep::LoadStakes(s) => {
                let stakes = vec![(A, U256::from_u64(1)), (B, U256::from_u64(2))];
                let (step, new) = s.resume(monitor, &stakes);
                more = new;
                step
            }
            TipStep::ElectLeader(s) => {
                let (step, new) = s.resume(monitor, A);
                more = new;
                step
            }
            TipStep::Rewind(s) => s.advance(monitor),
            TipStep::ReadHeader(s) => {
                let id = s.rewind.next_block_id;
                asked.push(id);
                s.resume(ledger.headers.get(&id).copied())
            }
            TipStep::Propose(s) => s.advance(),
            TipStep::ReadBody(s) => {
                let num_tx = ledger.bodies.get(&s.header.block_body_id).copied();
                let (step, new) = s.resume(monitor, num_tx);
                more = new;
                step
            }
            TipStep::Commit(s) => {
                records.extend(s.run(monitor));
                return (records, asked);
            }
        };
        records.extend(more);
    }
}

fn proposed(records: &[Record]) -> Vec<u64> {
    records
        .iter()
        .filter_map(|r| match r {
            Record::ProposedBlock(r) => Some(r.round),
            _ => None,
        })
        .collect()
}

fn finalized(records: &[Record]) -> Vec<u64> {
    records
        .iter()
        .filter_map(|r| match r {
            Record::FinalizedBlock(r) => Some(r.round),
            _ => None,
        })
        .collect()
}

#[test]
fn new_monitor_is_empty() {
    let m = monitor();
    assert_eq!(m.current_epoch, 1);
    assert!(m.epoch_validators.is_empty());
    assert!(m.last_skipped.is_empty());
    assert!(!m.visited_blocks.contains(&(0, 1)));
    assert!(matches!(m.report(0), LivenessReport::NoValidatorSet));
}

#[test]
fn first_certificate_of_an_epoch_loads_stakes() {
    let mut m = monitor();
    let (step, records) = m.begin(qc_tip(5, 5, 5, true));
    assert!(records.is_empty());
    assert_eq!(m.current_epoch, 3);
    let stakes = vec![(A, U256::from_u64(1)), (B, U256::from_u64(2)), (A, U256::from_u64(4))];
    let (step, records) = load(step).resume(&mut m, &stakes);
    assert_eq!(m.epoch_validators[&3][&A], U256::from_u64(4));
    assert_eq!(records.len(), 2);
    let Record::ValidatorSet(set) = &records[0] else {
        panic!("the validator set comes first");
    };
    assert_eq!(set.epoch, 3);
    assert_eq!(set.validators.len(), 2);
    let Record::QuorumCertificate(record) = &records[1] else {
        panic!("the certificate comes second");
    };
    assert_eq!(record.round, 5);
    assert_eq!(record.epoch, 3);
    assert_eq!(record.block_id, (0, 5));
    assert_eq!(record.num_signatures, 4);
    assert_eq!(record.now_ts_ms, 5);
    let r = rewind(step);
    assert_eq!(r.next_block_id, (0, 5));
    assert!(r.block_queue.is_empty());
}

#[test]
fn known_epoch_is_not_loaded_again() {
    let mut m = monitor();
    let l = ledger(&[]);
    run(&mut m, &l, qc_tip(5, 5, 5, true));
    let (step, records) = m.begin(qc_tip(6, 6, 6, true));
    rewind(step);
    assert_eq!(records.len(), 1);
    assert!(matches!(records[0], Record::QuorumCertificate(_)));
}

#[test]
fn old_certificate_is_not_reported() {
    let mut m = monitor();
    let (step, records) = m.begin(qc_tip(5, 5, 5, false));
    assert!(records.is_empty());
    assert_eq!(m.current_epoch, 1);
    assert_eq!(rewind(step).context.start, (0, 5));
}

#[test]
fn walk_starts_at_the_later_block() {
    let mut m = monitor();
    let (step, _) = m.begin(qc_tip(5, 5, 6, false));
    assert_eq!(rewind(step).next_block_id, (0, 6));
    let (step, _) = m.begin(qc_tip(6, 20, 6, false));
    assert_eq!(rewind(step).next_block_id, (0, 20));
    let (step, _) = m.begin(qc_tip(7, 21, 6, false));
    assert_eq!(rewind(step).next_block_id, (0, 21));
}

#[test]
fn timeout_is_reported_and_marks_the_leader() {
    let mut m = monitor();
    let (step, _) = m.begin(tc_tip(&[3, 4]));
    let stakes = vec![(A, U256::from_u64(1)), (B, U256::from_u64(2))];
    let (step, records) = load(step).resume(&mut m, &stakes);
    assert_eq!(records.len(), 1);
    let s = elect(step);
    assert_eq!(s.tc.round, 9);
    let (step, records) = s.resume(&mut m, A);
    rewind(step);
    assert_eq!(m.last_skipped[&A], 5_000_000);
    assert_eq!(records.len(), 1);
    let Record::Timeout(record) = &records[0] else {
        panic!("a timeout is reported");
    };
    assert_eq!(record.round, 9);
    assert_eq!(record.epoch, 3);
    assert_eq!(record.author, A);
    assert_eq!(record.author_address, "10.0.0.1:80");
    assert_eq!(record.num_timeout_signers, 7);
    assert_eq!(record.tip_round_buckets, vec![(0, 7, 3), (1, 7, 4)]);
    assert_eq!(record.high_extend_kind, "tip");
    assert_eq!(record.high_extend_qc_round, 8);
    assert_eq!(record.high_extend_qc_epoch, 3);
    assert_eq!(record.high_extend_qc_block_id, (0, 8));
    assert_eq!(record.now_ts_ms, 5);
}

#[test]
fn unknown_leader_has_no_address() {
    let mut m = monitor();
    let mut tc = timeout(&[]);
    tc.high_extend = HighExtend::Qc(qc(2, 2));
    let tip = Tip { high_certificate: RoundCertificate::Tc(tc), ..tc_tip(&[]) };
    let (step, _) = m.begin(tip);
    let (step, _) = load(step).resume(&mut m, &vec![]);
    let (_, records) = elect(step).resume(&mut m, B);
    let Record::Timeout(record) = &records[0] else {
        panic!("a timeout is reported");
    };
    assert_eq!(record.author_address, "");
    assert_eq!(record.num_timeout_signers, 0);
    assert_eq!(record.high_extend_kind, "qc");
}

#[test]
fn signers_that_cannot_be_counted() {
    assert!(tc_tip(&[3, 4]).is_countable());
    assert!(tc_tip(&[usize::MAX]).is_countable());
    assert!(!tc_tip(&[usize::MAX, 0, 1]).is_countable());
    assert!(qc_tip(1, 1, 1, true).is_countable());
}

#[test]
fn blocks_are_proposed_oldest_first() {
    let mut m = monitor();
    let l = ledger(&[3, 4, 5]);
    let (records, asked) = run(&mut m, &l, qc_tip(5, 5, 5, true));
    assert_eq!(asked, vec![(0, 5), (0, 4), (0, 3), (0, 2)]);
    assert_eq!(proposed(&records), vec![3, 4, 5]);
    assert!(m.visited_blocks.contains(&(0, 3)));
    let Some(Record::ProposedBlock(record)) =
        records.iter().find(|r| matches!(r, Record::ProposedBlock(_)))
    else {
        panic!("a block is proposed");
    };
    assert_eq!(record.parent_round, 2);
    assert_eq!(record.epoch, 3);
    assert_eq!(record.seq_num, 13);
    assert_eq!(record.num_tx, 3);
    assert_eq!(record.author, A);
    assert_eq!(record.author_address, "10.0.0.1:80");
    assert_eq!(record.block_ts_ms, 2);
    assert_eq!(record.now_ts_ms, 5);
}

#[test]
fn walk_ends_at_a_visited_block() {
    let mut m = monitor();
    let l = ledger(&[3, 4, 5, 6, 7]);
    run(&mut m, &l, qc_tip(5, 5, 5, true));
    let (records, asked) = run(&mut m, &l, qc_tip(7, 7, 7, true));
    assert_eq!(asked, vec![(0, 7), (0, 6)]);
    assert_eq!(proposed(&records), vec![6, 7]);
}

#[test]
fn walk_ends_with_a_full_queue() {
    let mut m = monitor();
    let ids: Vec<u128> = (1..=300).collect();
    let l = ledger(&ids);
    let (records, asked) = run(&mut m, &l, qc_tip(300, 300, 300, true));
    assert_eq!(asked.len(), 101);
    assert_eq!(asked[100], (0, 200));
    assert_eq!(proposed(&records), (200..=300).collect::<Vec<u64>>());
    // The memory holds one block less than the queue.
    assert!(!m.visited_blocks.contains(&(0, 200)));
    assert!(m.visited_blocks.contains(&(0, 201)));
}

#[test]
fn block_without_body_is_passed_over() {
    let mut m = monitor();
    let mut l = ledger(&[3, 4, 5]);
    l.bodies.remove(&(1, 4));
    let (records, _) = run(&mut m, &l, qc_tip(5, 5, 5, true));
    assert_eq!(proposed(&records), vec![3, 5]);
    assert!(!m.visited_blocks.contains(&(0, 4)));
}

#[test]
fn consecutive_certificates_commit() {
    let mut m = monitor();
    let l = ledger(&[1, 2, 3, 4]);
    // Block 4 is certified in round 4 and its parent in round 3.
    let (records, _) = run(&mut m, &l, qc_tip(4, 4, 4, true));
    assert_eq!(proposed(&records), vec![1, 2, 3, 4]);
    assert_eq!(finalized(&records), vec![1, 2, 3]);
    let Some(Record::FinalizedBlock(record)) = records.last() else {
        panic!("a block is final");
    };
    assert_eq!(record.round, 3);
    assert_eq!(record.parent_round, 2);
    assert_eq!(record.epoch, 3);
    assert_eq!(record.seq_num, 13);
    assert_eq!(record.author, A);
    assert_eq!(record.block_ts_ms, 2);
    assert_eq!(record.now_ts_ms, 5);
    assert_eq!(record.author_address, "10.0.0.1:80");
    assert!(m.visited_blocks.peek(&(0, 3)).unwrap().is_finalized);
    assert!(!m.visited_blocks.peek(&(0, 4)).unwrap().is_finalized);
}

#[test]
fn no_block_is_final_twice() {
    let mut m = monitor();
    let l = ledger(&[1, 2, 3, 4, 5]);
    run(&mut m, &l, qc_tip(4, 4, 4, true));
    let (records, _) = run(&mut m, &l, qc_tip(4, 4, 4, true));
    assert!(finalized(&records).is_empty());
    let (records, _) = run(&mut m, &l, qc_tip(5, 5, 5, true));
    assert_eq!(finalized(&records), vec![4]);
}

#[test]
fn gap_between_rounds_does_not_commit() {
    let mut m = monitor();
    let l = ledger(&[1, 2, 3, 4]);
    let (records, _) = run(&mut m, &l, qc_tip(5, 4, 4, true));
    assert!(finalized(&records).is_empty());
    assert!(!m.visited_blocks.peek(&(0, 3)).unwrap().is_finalized);
}

#[test]
fn old_certificate_does_not_commit() {
    let mut m = monitor();
    let l = ledger(&[1, 2, 3, 4]);
    let (records, _) = run(&mut m, &l, qc_tip(4, 4, 4, false));
    assert_eq!(proposed(&records), vec![1, 2, 3, 4]);
    assert!(finalized(&records).is_empty());
}

#[test]
fn timeout_does_not_commit() {
    let mut m = monitor();
    let l = ledger(&[6, 7, 8]);
    let (records, _) = run(&mut m, &l, tc_tip(&[1]));
    assert_eq!(proposed(&records), vec![6, 7, 8]);
    assert!(finalized(&records).is_empty());
}

#[test]
fn last_round_does_not_commit() {
    let mut m = monitor();
    let mut l = ledger(&[4]);
    l.headers.get_mut(&(0, 4)).unwrap().qc.round = u64::MAX;
    let (records, _) = run(&mut m, &l, qc_tip(u64::MAX, 4, 4, true));
    assert!(finalized(&records).is_empty());
}

#[test]
fn epochs_are_pruned_with_every_tip() {
    let mut m = monitor();
    for epoch in 10..1_010u64 {
        m.epoch_validators.insert(epoch, BTreeMap::new());
    }
    let (step, _) = m.begin(qc_tip(4, 4, 4, true));
    load(step);
    m.epoch_validators.insert(2_000, BTreeMap::new());
    let l = ledger(&[]);
    run(&mut m, &l, qc_tip(4, 4, 4, false));
    assert_eq!(m.epoch_validators.len(), 1_000);
    assert!(!m.epoch_validators.contains_key(&10));
    assert!(m.epoch_validators.contains_key(&2_000));
}

#[test]
fn commit_follows_an_empty_queue() {
    let mut m = monitor();
    let (step, _) = m.begin(qc_tip(5, 5, 5, false));
    let step = read_header(rewind(step).advance(&m)).resume(None);
    let TipStep::Propose(propose) = step else {
        panic!("the queue is worked off");
    };
    assert!(commit(propose.advance()).run(&mut m).is_empty());
}

#[test]
fn oldest_header_is_proposed_next() {
    let mut m = monitor();
    let (step, _) = m.begin(qc_tip(5, 5, 5, false));
    let step = read_header(rewind(step).advance(&m)).resume(Some(header(5)));
    let step = read_header(rewind(step).advance(&m)).resume(Some(header(4)));
    let step = read_header(rewind(step).advance(&m)).resume(None);
    let TipStep::Propose(propose) = step else {
        panic!("the queue is worked off");
    };
    let body = read_body(propose.advance());
    assert_eq!(body.header.id, (0, 4));
    assert_eq!(body.block_queue.len(), 1);
    assert_eq!(body.block_queue[0].id, (0, 5));
}

#[test]
fn skipped_leader_lowers_the_online_share() {
    let mut m = monitor();
    let l = ledger(&[]);
    run(&mut m, &l, qc_tip(4, 4, 4, true));
    let LivenessReport::Stakes(report) = m.report(5_000_000) else {
        panic!("stakes are known");
    };
    assert_eq!(report.epoch, 3);
    assert_eq!(report.online_bps, 10_000);
    assert_eq!(report.self_stake.as_deref(), Some("2"));
    assert_eq!(report.online_bps_after_turn_off, 3_333);
    run(&mut m, &l, tc_tip(&[1]));
    let LivenessReport::Stakes(report) = m.report(5_000_000) else {
        panic!("stakes are known");
    };
    assert_eq!(report.online_bps, 6_666);
    assert_eq!(report.offline_stake, "1");
    assert_eq!(report.online_bps_after_turn_off, 0);
}

#[test]
fn shares_that_do_not_fit_are_no_report() {
    let mut m = monitor();
    let max = U256 { l0: u64::MAX, l1: u64::MAX, l2: u64::MAX, l3: u64::MAX };
    let (step, _) = m.begin(qc_tip(4, 4, 4, true));
    load(step).resume(&mut m, &vec![(A, max), (B, U256::from_u64(3))]);
    m.last_skipped.insert(B, 0);
    assert!(matches!(m.report(0), LivenessReport::Overflow));
}
