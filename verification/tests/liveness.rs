use monad_monitor::liveness::{
    is_offline, stake_amounts, stake_bps, stake_bps_fits, stake_liveness, LIVENESS_WINDOW_NS,
};
use monad_monitor::stakes::collect_stakes;
use monad_monitor::types::NodeId;
use monad_monitor::u256::U256;
use std::collections::BTreeMap;

const A: NodeId = (2, 0, 1);
const B: NodeId = (2, 0, 2);
const C: NodeId = (3, 7, 7);

fn n(value: u64) -> U256 {
    U256::from_u64(value)
}

const MAX: U256 = U256 { l0: u64::MAX, l1: u64::MAX, l2: u64::MAX, l3: u64::MAX };

#[test]
fn basis_points() {
    assert_eq!(stake_bps(n(1), n(3)), 3_333);
    assert_eq!(stake_bps(n(2), n(3)), 6_666);
    assert_eq!(stake_bps(n(3), n(3)), 10_000);
    assert_eq!(stake_bps(n(0), n(3)), 0);
    assert_eq!(stake_bps(n(7), n(1)), 70_000);
}

#[test]
fn basis_points_of_nothing() {
    assert_eq!(stake_bps(n(5), U256::zero()), 0);
    assert_eq!(stake_bps(n(0), n(0)), 0);
}

#[test]
fn basis_points_of_large_stakes() {
    let eth = U256 { l0: 0, l1: 1, l2: 0, l3: 0 };
    let four = U256 { l0: 0, l1: 4, l2: 0, l3: 0 };
    assert_eq!(stake_bps(eth, four), 2_500);
}

#[test]
fn basis_points_of_the_largest_stakes() {
    let half = U256 { l0: 0, l1: 0, l2: 0, l3: 1 << 63 };
    assert_eq!(stake_bps(MAX, MAX), 10_000);
    // 2^255 of 2^256 - 1 is a little more than a half.
    assert_eq!(stake_bps(half, MAX), 5_000);
    assert_eq!(stake_bps(MAX, half), 19_999);
    assert_eq!(stake_bps(n(1), MAX), 0);
    assert!(!stake_bps_fits(half, n(3)));
    assert!(stake_bps_fits(half, MAX));
}

#[test]
fn basis_points_that_do_not_fit() {
    let big = U256 { l0: 0, l1: 1, l2: 0, l3: 0 };
    assert!(!stake_bps_fits(big, n(1)));
    assert!(stake_bps_fits(big, big));
    assert!(stake_bps_fits(big, n(0)));
    assert!(!stake_bps_fits(MAX, n(1)));
    assert!(stake_bps_fits(n(u64::MAX / 10_000), n(1)));
    assert!(!stake_bps_fits(n(u64::MAX / 10_000 + 1), n(1)));
}

#[test]
fn last_stake_of_a_node_counts() {
    let stakes = collect_stakes(&vec![(B, n(5)), (A, n(1)), (B, n(7))]);
    assert_eq!(stakes.len(), 2);
    assert_eq!(stakes[&A], n(1));
    assert_eq!(stakes[&B], n(7));
    let order: Vec<NodeId> = stakes.keys().copied().collect();
    assert_eq!(order, vec![A, B]);
}

#[test]
fn skipped_leader_is_offline_for_ten_minutes() {
    let mut skipped = BTreeMap::new();
    assert!(!is_offline(&skipped, &A, 5));
    skipped.insert(A, 1_000);
    assert!(is_offline(&skipped, &A, 1_000));
    assert!(is_offline(&skipped, &A, 0));
    assert!(is_offline(&skipped, &A, 1_000 + LIVENESS_WINDOW_NS));
    assert!(!is_offline(&skipped, &A, 1_001 + LIVENESS_WINDOW_NS));
    assert!(!is_offline(&skipped, &B, 1_000));
    assert_eq!(LIVENESS_WINDOW_NS, 10 * 60 * 1_000_000_000);
}

#[test]
fn online_and_offline_make_the_total() {
    let stakes = collect_stakes(&vec![(A, n(10)), (B, n(20)), (C, n(30))]);
    let mut skipped = BTreeMap::new();
    skipped.insert(B, 50);
    skipped.insert((9, 9, 9), 50);
    let amounts = stake_amounts(&stakes, &skipped, 60);
    assert_eq!(amounts.total_stake, n(60));
    assert_eq!(amounts.offline_stake, n(20));
    assert_eq!(amounts.online_stake, n(40));
}

#[test]
fn sums_wrap_around() {
    let stakes = collect_stakes(&vec![(A, MAX), (B, n(3))]);
    let mut skipped = BTreeMap::new();
    skipped.insert(B, 0);
    let amounts = stake_amounts(&stakes, &skipped, 0);
    assert_eq!(amounts.total_stake, n(2));
    assert_eq!(amounts.offline_stake, n(3));
    assert_eq!(amounts.online_stake, MAX);
    // 10_000 * (2^256 - 1) / 2 is far beyond 64 bits.
    assert!(stake_liveness(1, &stakes, &skipped, None, 0).is_none());
}

#[test]
fn report_without_own_node() {
    let stakes = collect_stakes(&vec![(A, n(10)), (B, n(20)), (C, n(30))]);
    let mut skipped = BTreeMap::new();
    skipped.insert(C, 0);
    let report = stake_liveness(4, &stakes, &skipped, None, 7_999_999).unwrap();
    assert_eq!(report.epoch, 4);
    assert_eq!(report.total_stake, "60");
    assert_eq!(report.online_stake, "30");
    assert_eq!(report.offline_stake, "30");
    assert_eq!(report.online_bps, 5_000);
    assert_eq!(report.self_stake, None);
    assert_eq!(report.turn_off_stake, None);
    assert_eq!(report.online_bps_after_turn_off, 5_000);
    assert_eq!(report.now_ts_ms, 7);
}

#[test]
fn report_with_own_node_online() {
    let stakes = collect_stakes(&vec![(A, n(10)), (B, n(20)), (C, n(30))]);
    let mut skipped = BTreeMap::new();
    skipped.insert(C, 0);
    let report = stake_liveness(4, &stakes, &skipped, Some(B), 0).unwrap();
    assert_eq!(report.online_bps, 5_000);
    assert_eq!(report.self_stake.as_deref(), Some("20"));
    assert_eq!(report.turn_off_stake.as_deref(), Some("20"));
    assert_eq!(report.online_bps_after_turn_off, 1_666);
}

#[test]
fn report_with_own_node_offline() {
    let stakes = collect_stakes(&vec![(A, n(10)), (B, n(20)), (C, n(30))]);
    let mut skipped = BTreeMap::new();
    skipped.insert(C, 0);
    let report = stake_liveness(4, &stakes, &skipped, Some(C), 0).unwrap();
    assert_eq!(report.self_stake.as_deref(), Some("30"));
    assert_eq!(report.online_bps_after_turn_off, report.online_bps);
}

#[test]
fn report_with_own_node_no_validator() {
    let stakes = collect_stakes(&vec![(A, n(10))]);
    let report = stake_liveness(1, &stakes, &BTreeMap::new(), Some(B), 0).unwrap();
    assert_eq!(report.self_stake, None);
    assert_eq!(report.online_bps, 10_000);
    assert_eq!(report.online_bps_after_turn_off, 10_000);
}

#[test]
fn report_without_validators() {
    let report = stake_liveness(1, &BTreeMap::new(), &BTreeMap::new(), None, 0).unwrap();
    assert_eq!(report.total_stake, "0");
    assert_eq!(report.online_bps, 0);
}

#[test]
fn amounts_are_written_in_decimal() {
    let stakes = collect_stakes(&vec![(A, MAX)]);
    let report = stake_liveness(1, &stakes, &BTreeMap::new(), Some(A), 0).unwrap();
    let max = "115792089237316195423570985008687907853269984665640564039457584007913129639935";
    assert_eq!(report.total_stake, max);
    assert_eq!(report.online_bps, 10_000);
    assert_eq!(report.online_bps_after_turn_off, 0);
    assert_eq!(report.self_stake.as_deref(), Some(max));
}
