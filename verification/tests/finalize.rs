use monad_monitor::cache::{CachedBlock, CachedBlocks};
use monad_monitor::finalize::finalize_block;
use monad_monitor::types::{BlockHeader, BlockId, QuorumCertificate};

fn header(id: u128, parent: u128) -> BlockHeader {
    BlockHeader {
        id: (0, id),
        parent_id: (0, parent),
        block_round: 0,
        qc: QuorumCertificate { round: 0, epoch: 1, block_id: (0, parent), num_signatures: 0 },
        epoch: 1,
        seq_num: 0,
        author: (2, 0, 0),
        timestamp_ns: 0,
        block_body_id: (0, 0),
    }
}

fn chain(pairs: &[(u128, u128)]) -> CachedBlocks {
    let mut blocks = CachedBlocks::new(100);
    for (id, parent) in pairs {
        blocks.put((0, *id), CachedBlock::new(header(*id, *parent)));
    }
    blocks
}

fn ids(headers: &[BlockHeader]) -> Vec<BlockId> {
    headers.iter().map(|h| h.id).collect()
}

#[test]
fn finalizes_ancestors_oldest_first() {
    let mut blocks = chain(&[(1, 0), (2, 1), (3, 2), (4, 3)]);
    let finalized = finalize_block(&mut blocks, &(0, 3));
    assert_eq!(ids(&finalized), vec![(0, 1), (0, 2), (0, 3)]);
    assert_eq!(finalized[1].parent_id, finalized[0].id);
    assert_eq!(finalized[2].parent_id, finalized[1].id);
    assert!(blocks.peek(&(0, 1)).unwrap().is_finalized);
    assert!(blocks.peek(&(0, 3)).unwrap().is_finalized);
    assert!(!blocks.peek(&(0, 4)).unwrap().is_finalized);
}

#[test]
fn stops_at_a_final_block() {
    let mut blocks = chain(&[(1, 0), (2, 1), (3, 2), (4, 3)]);
    finalize_block(&mut blocks, &(0, 2));
    assert_eq!(ids(&finalize_block(&mut blocks, &(0, 4))), vec![(0, 3), (0, 4)]);
}

#[test]
fn finalizing_again_reports_nothing() {
    let mut blocks = chain(&[(1, 0), (2, 1)]);
    assert_eq!(finalize_block(&mut blocks, &(0, 2)).len(), 2);
    assert_eq!(finalize_block(&mut blocks, &(0, 2)).len(), 0);
    assert!(blocks.peek(&(0, 2)).unwrap().is_finalized);
}

#[test]
fn unknown_block_finalizes_nothing() {
    let mut blocks = chain(&[(1, 0)]);
    assert_eq!(finalize_block(&mut blocks, &(0, 8)).len(), 0);
    assert!(!blocks.peek(&(0, 1)).unwrap().is_finalized);
}

#[test]
fn stops_where_a_parent_is_missing() {
    let mut blocks = chain(&[(1, 0), (3, 2), (4, 3)]);
    assert_eq!(ids(&finalize_block(&mut blocks, &(0, 4))), vec![(0, 3), (0, 4)]);
    assert!(!blocks.peek(&(0, 1)).unwrap().is_finalized);
}

#[test]
fn a_circle_ends() {
    let mut blocks = chain(&[(1, 2), (2, 1), (5, 5)]);
    assert_eq!(ids(&finalize_block(&mut blocks, &(0, 1))), vec![(0, 2), (0, 1)]);
    assert_eq!(ids(&finalize_block(&mut blocks, &(0, 5))), vec![(0, 5)]);
}

#[test]
fn forks_share_their_trunk_once() {
    let mut blocks = chain(&[(1, 0), (2, 1), (3, 1)]);
    assert_eq!(ids(&finalize_block(&mut blocks, &(0, 2))), vec![(0, 1), (0, 2)]);
    assert_eq!(ids(&finalize_block(&mut blocks, &(0, 3))), vec![(0, 3)]);
}
