use monad_monitor::epochs::{prune_epochs, EpochValidators};
use std::collections::BTreeMap;

#[test]
fn lowest_epochs_are_dropped() {
    let mut epochs: EpochValidators = BTreeMap::new();
    for epoch in 0..1_003u64 {
        epochs.insert(epoch, BTreeMap::new());
    }
    prune_epochs(&mut epochs);
    assert_eq!(epochs.len(), 1_000);
    assert!(!epochs.contains_key(&2));
    assert!(epochs.contains_key(&3));
    assert!(epochs.contains_key(&1_002));
}

#[test]
fn a_thousand_epochs_stay() {
    let mut epochs: EpochValidators = BTreeMap::new();
    for epoch in 5..1_005u64 {
        epochs.insert(epoch, BTreeMap::new());
    }
    prune_epochs(&mut epochs);
    assert_eq!(epochs.len(), 1_000);
    assert!(epochs.contains_key(&5));
}
