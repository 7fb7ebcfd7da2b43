use monad_monitor::cache::{CachedBlock, CachedBlocks};
use monad_monitor::types::{BlockHeader, QuorumCertificate};

fn block(id: u128, parent: u128) -> CachedBlock {
    CachedBlock::new(BlockHeader {
        id: (0, id),
        parent_id: (0, parent),
        block_round: 7,
        qc: QuorumCertificate { round: 6, epoch: 1, block_id: (0, parent), num_signatures: 3 },
        epoch: 1,
        seq_num: 5,
        author: (2, 0, 9),
        timestamp_ns: 1_500_000,
        block_body_id: (1, id),
    })
}

#[test]
fn new_block_is_not_final() {
    let b = block(4, 3);
    assert!(!b.is_finalized);
    assert_eq!(b.header.id, (0, 4));
    assert_eq!(b.header.parent_id, (0, 3));
}

#[test]
fn put_block_is_held_and_the_oldest_makes_room() {
    let mut blocks = CachedBlocks::new(2);
    assert!(!blocks.contains(&(0, 1)));
    assert!(blocks.put((0, 1), block(1, 0)).is_none());
    assert!(blocks.put((0, 2), block(2, 1)).is_none());
    assert!(blocks.contains(&(0, 1)));
    assert!(blocks.put((0, 3), block(3, 2)).is_none());
    assert!(!blocks.contains(&(0, 1)));
    assert!(blocks.contains(&(0, 2)));
    assert!(blocks.contains(&(0, 3)));
    assert_eq!(blocks.peek(&(0, 3)).unwrap().header.parent_id, (0, 2));
    assert!(blocks.peek(&(0, 1)).is_none());
}

#[test]
fn put_again_replaces_and_renews() {
    let mut blocks = CachedBlocks::new(2);
    blocks.put((0, 1), block(1, 0));
    blocks.put((0, 2), block(2, 1));
    let replaced = blocks.put((0, 1), block(1, 9)).unwrap();
    assert_eq!(replaced.header.parent_id, (0, 0));
    assert_eq!(blocks.peek(&(0, 1)).unwrap().header.parent_id, (0, 9));
    // The second block is the one put longest ago now.
    blocks.put((0, 3), block(3, 2));
    assert!(blocks.contains(&(0, 1)));
    assert!(!blocks.contains(&(0, 2)));
}

#[test]
fn looking_does_not_renew() {
    let mut blocks = CachedBlocks::new(2);
    blocks.put((0, 1), block(1, 0));
    blocks.put((0, 2), block(2, 1));
    assert!(blocks.contains(&(0, 1)));
    assert!(blocks.peek(&(0, 1)).is_some());
    blocks.peek_mut(&(0, 1)).unwrap().is_finalized = true;
    assert!(blocks.peek(&(0, 1)).unwrap().is_finalized);
    assert!(!blocks.peek(&(0, 2)).unwrap().is_finalized);
    blocks.put((0, 3), block(3, 2));
    assert!(!blocks.contains(&(0, 1)));
    assert!(blocks.peek_mut(&(0, 1)).is_none());
}
