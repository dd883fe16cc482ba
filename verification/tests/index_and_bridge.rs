use vecnod_core::errors::{EventType, IndexError, StoreError};
use vecnod_core::processor::{ConsensusNotification, Notification, Processor};
use vecnod_core::utxoindex::{
    ConsensusSource, Store, UtxoDiff, UtxoEntry, UtxoIndex, RESYNC_CHUNK_SIZE,
};

fn entry(amount: u64, spk: u64) -> UtxoEntry {
    UtxoEntry { amount, script_public_key: spk }
}

fn source(utxos: Vec<(u64, UtxoEntry)>, tips: Vec<u64>) -> ConsensusSource {
    ConsensusSource { utxos, virtual_parents: tips }
}

#[test]
fn new_on_empty_store_resyncs() {
    let src = source(vec![(1, entry(40, 9)), (2, entry(60, 9))], vec![77]);
    let ix = UtxoIndex::new(Store::empty(), &src).unwrap();
    assert_eq!(ix.get_circulating_supply(), 100);
    assert_eq!(ix.get_utxo_index_tips().unwrap(), vec![77]);
    assert_eq!(ix.get_all_outpoints(), vec![1, 2]);
    assert!(ix.is_synced(&src).unwrap());
}

#[test]
fn resync_pages_through_large_utxo_sets() {
    // more than one full page, plus a remainder
    let n = RESYNC_CHUNK_SIZE as u64 * 2 + 3;
    let utxos: Vec<(u64, UtxoEntry)> = (0..n).map(|k| (k + 1, entry(2, 1))).collect();
    let src = source(utxos, vec![5]);
    let ix = UtxoIndex::new(Store::empty(), &src).unwrap();
    assert_eq!(ix.get_circulating_supply(), 2 * n);
    assert_eq!(ix.get_all_outpoints().len(), n as usize);
}

#[test]
fn resync_twice_is_idempotent() {
    let src = source(vec![(3, entry(10, 1)), (8, entry(5, 2))], vec![42, 43]);
    let mut a = UtxoIndex::new(Store::empty(), &src).unwrap();
    a.resync(&src).unwrap();
    let first_outpoints = a.get_all_outpoints();
    let first_supply = a.get_circulating_supply();
    let first_tips = a.get_utxo_index_tips().unwrap();
    a.resync(&src).unwrap();
    assert_eq!(a.get_all_outpoints(), first_outpoints);
    assert_eq!(a.get_circulating_supply(), first_supply);
    assert_eq!(a.get_utxo_index_tips().unwrap(), first_tips);
}

#[test]
fn update_applies_diff_and_keeps_supply_monotone() {
    let src = source(vec![(1, entry(100, 1)), (2, entry(50, 2))], vec![7]);
    let mut ix = UtxoIndex::new(Store::empty(), &src).unwrap();
    assert_eq!(ix.get_circulating_supply(), 150);

    // a diff that removes more than it adds: persisted supply drops,
    // the tracked value does not
    let diff = UtxoDiff { add: vec![(3, entry(10, 3))], remove: vec![(1, entry(100, 1))] };
    let ch = ix.update(&diff, &vec![8]).unwrap();
    assert_eq!(ch.added.len(), 1);
    assert_eq!(ch.removed.len(), 1);
    assert_eq!(ix.get_circulating_supply(), 150, "tracked supply must not decrease");
    let mut outs = ix.get_all_outpoints();
    outs.sort();
    assert_eq!(outs, vec![2, 3]);
    assert_eq!(ix.get_utxo_index_tips().unwrap(), vec![8]);

    // a diff that adds more: the tracked value follows upward
    let diff = UtxoDiff { add: vec![(4, entry(1000, 3))], remove: vec![] };
    ix.update(&diff, &vec![9]).unwrap();
    assert_eq!(ix.get_circulating_supply(), 1060);
}

#[test]
fn update_without_persisted_supply_fails() {
    let mut ix = UtxoIndex { store: Store::empty(), monotonic_circulating_supply: 0 };
    assert_eq!(ix.get_utxo_index_tips().unwrap_err(), StoreError::KeyNotFound);
    let diff = UtxoDiff { add: vec![], remove: vec![] };
    let err = ix.update(&diff, &vec![1]).unwrap_err();
    assert_eq!(err, IndexError::StoreAccessError(StoreError::KeyNotFound));
}

#[test]
fn is_synced_compares_tip_sets_and_missing_reads_as_unsynced() {
    let src = source(vec![], vec![5, 6]);
    let ix = UtxoIndex { store: Store::empty(), monotonic_circulating_supply: 0 };
    assert!(!ix.is_synced(&src).unwrap());
    let synced = UtxoIndex {
        store: Store { utxos: vec![], supply: Some(0), tips: Some(vec![6, 5]) },
        monotonic_circulating_supply: 0,
    };
    // tip sets compare as sets, not as ordered lists
    assert!(synced.is_synced(&src).unwrap());
}

#[test]
fn balances_group_by_script_public_key() {
    let src = source(
        vec![(1, entry(10, 7)), (2, entry(20, 8)), (3, entry(30, 7))],
        vec![1],
    );
    let ix = UtxoIndex::new(Store::empty(), &src).unwrap();
    let utxos = ix.get_utxos_by_script_public_keys(&vec![7]);
    assert_eq!(utxos.len(), 2);
    let balances = ix.get_balance_by_script_public_keys(&vec![7, 8, 9]);
    assert_eq!(balances, vec![(7, 40), (8, 20), (9, 0)]);
}

#[test]
fn start_twice_spawns_exactly_one_loop() {
    let mut p = Processor::new(None);
    let first = p.start();
    let second = p.start();
    assert!(first, "the first start must win the transition");
    assert!(!second, "the second start must be a no-op");
}

#[test]
fn bridge_counts_no_duplicate_processing_after_double_start() {
    // two start attempts, then a stream of notifications processed by
    // the single active loop: every event is handled exactly once
    let src = source(vec![(1, entry(5, 1))], vec![3]);
    let ix = UtxoIndex::new(Store::empty(), &src).unwrap();
    let mut p = Processor::new(Some(ix));
    let starts = [p.start(), p.start()];
    assert_eq!(starts.iter().filter(|s| **s).count(), 1);
    let mut processed: usize = 0;
    for k in 0..4u64 {
        let diff = UtxoDiff { add: vec![(10 + k, entry(1, 1))], remove: vec![] };
        let n = ConsensusNotification::UtxosChanged(diff, vec![3]);
        if p.process_notification(n).is_ok() {
            processed += 1;
        }
    }
    assert_eq!(processed, 4);
    assert_eq!(p.utxoindex.as_ref().unwrap().get_circulating_supply(), 9);
}

#[test]
fn bridge_routes_notifications_by_kind() {
    let src = source(vec![(1, entry(5, 1))], vec![3]);
    let ix = UtxoIndex::new(Store::empty(), &src).unwrap();
    let mut p = Processor::new(Some(ix));

    let diff = UtxoDiff { add: vec![(2, entry(7, 1))], remove: vec![] };
    match p.process_notification(ConsensusNotification::UtxosChanged(diff, vec![4])) {
        Ok(Notification::UtxosChanged(ch)) => {
            assert_eq!(ch.added.len(), 1);
            assert_eq!(ch.removed.len(), 0);
        },
        other => panic!("unexpected result: {:?}", other.is_ok()),
    }
    assert_eq!(p.utxoindex.as_ref().unwrap().get_circulating_supply(), 12);

    match p.process_notification(ConsensusNotification::PruningPointUtxoSetOverride) {
        Ok(Notification::PruningPointUtxoSetOverride) => {},
        _ => panic!("override must republish a zero-payload event"),
    }
    // the override must not touch the store
    assert_eq!(p.utxoindex.as_ref().unwrap().get_circulating_supply(), 12);

    let err = p.process_notification(ConsensusNotification::BlockAdded).unwrap_err();
    assert_eq!(err, IndexError::NotSupported(EventType::BlockAdded));
}

#[test]
fn bridge_without_index_rejects_utxo_changes() {
    let mut p = Processor::new(None);
    let diff = UtxoDiff { add: vec![], remove: vec![] };
    let err = p
        .process_notification(ConsensusNotification::UtxosChanged(diff, vec![]))
        .unwrap_err();
    assert_eq!(err, IndexError::NotSupported(EventType::UtxosChanged));
}
