use vecnod_core::errors::ProtocolError;
use vecnod_core::model::{Block, GhostdagData, Header, TrustedGhostdagData, TrustedHeader, ORIGIN};
use vecnod_core::trusted::{TrustedDataEntry, TrustedDataPackage};

fn header(hash: u64, blue_work: u64) -> Header {
    Header { hash, parents: vec![], daa_score: 0, blue_score: 0, blue_work }
}

fn gd(selected_parent: u64, blues: Vec<u64>, reds: Vec<u64>) -> GhostdagData {
    GhostdagData {
        selected_parent,
        mergeset_blues: blues.clone(),
        mergeset_reds: reds,
        blues_anticone_sizes: blues.into_iter().map(|h| (h, 1)).collect(),
    }
}

fn block(hash: u64, blue_work: u64) -> Block {
    Block { header: header(hash, blue_work), transactions: vec![] }
}

#[test]
fn build_single_entry_returns_it_unchanged() {
    let a = block(7, 10);
    let gw = vec![TrustedGhostdagData { hash: 7, ghostdag: gd(ORIGIN, vec![], vec![]) }];
    let pkg = TrustedDataPackage::new(vec![], gw);
    let out = pkg.build_trusted_subdag(vec![TrustedDataEntry::new(a)]).unwrap();
    assert_eq!(out.len(), 1);
    assert_eq!(out[0].block.header.hash, 7);
    assert_eq!(out[0].block.header.blue_work, 10);
    assert_eq!(out[0].ghostdag.selected_parent, ORIGIN);
    assert!(out[0].ghostdag.mergeset_blues.is_empty());
}

#[test]
fn build_missing_ghostdag_data_fails() {
    let a = block(7, 10);
    let pkg = TrustedDataPackage::new(vec![], vec![]);
    let err = pkg.build_trusted_subdag(vec![TrustedDataEntry::new(a)]).unwrap_err();
    assert_eq!(err, ProtocolError::MissingGhostdagData);
}

#[test]
fn daa_window_wins_hash_collision() {
    // the same hash carries different data in the two windows
    let gw = vec![TrustedGhostdagData { hash: 5, ghostdag: gd(111, vec![], vec![]) }];
    let dw = vec![TrustedHeader { header: header(5, 20), ghostdag: gd(222, vec![], vec![]) }];
    let pkg = TrustedDataPackage::new(dw, gw);
    let a = block(5, 20);
    let out = pkg.build_trusted_subdag(vec![TrustedDataEntry::new(a)]).unwrap();
    assert_eq!(out.len(), 1);
    // 222 is outside the seen set, so precedence shows as the origin
    // sentinel replacing the daa window's parent, not the ghostdag
    // window's 111 either way; use seen parents to observe precedence.
    assert_eq!(out[0].ghostdag.selected_parent, ORIGIN);

    // now make both candidate parents part of the package
    let gw = vec![
        TrustedGhostdagData { hash: 5, ghostdag: gd(111, vec![], vec![]) },
        TrustedGhostdagData { hash: 111, ghostdag: gd(ORIGIN, vec![], vec![]) },
        TrustedGhostdagData { hash: 222, ghostdag: gd(ORIGIN, vec![], vec![]) },
    ];
    let dw = vec![TrustedHeader { header: header(5, 20), ghostdag: gd(222, vec![], vec![]) }];
    let pkg = TrustedDataPackage::new(dw, gw);
    let entries = vec![
        TrustedDataEntry::new(block(5, 20)),
        TrustedDataEntry::new(block(111, 5)),
        TrustedDataEntry::new(block(222, 6)),
    ];
    let out = pkg.build_trusted_subdag(entries).unwrap();
    let five = out.iter().find(|tb| tb.block.header.hash == 5).unwrap();
    assert_eq!(five.ghostdag.selected_parent, 222);
}

#[test]
fn build_dedups_entries_and_appends_daa_headers() {
    let gw = vec![TrustedGhostdagData { hash: 1, ghostdag: gd(ORIGIN, vec![], vec![]) }];
    let dw = vec![TrustedHeader { header: header(2, 50), ghostdag: gd(1, vec![], vec![]) }];
    let pkg = TrustedDataPackage::new(dw, gw);
    let entries = vec![
        TrustedDataEntry::new(block(1, 10)),
        TrustedDataEntry::new(block(1, 10)), // duplicate, dropped
    ];
    let out = pkg.build_trusted_subdag(entries).unwrap();
    assert_eq!(out.len(), 2);
    // ascending blue work
    assert_eq!(out[0].block.header.hash, 1);
    assert_eq!(out[1].block.header.hash, 2);
    // the daa block is header-only
    assert!(out[1].block.transactions.is_empty());
    // its parent 1 is seen, so it survives
    assert_eq!(out[1].ghostdag.selected_parent, 1);
}

#[test]
fn build_prunes_unseen_references_and_sorts() {
    let gw = vec![
        TrustedGhostdagData { hash: 10, ghostdag: gd(99, vec![11, 77], vec![88, 11]) },
        TrustedGhostdagData { hash: 11, ghostdag: gd(ORIGIN, vec![], vec![]) },
    ];
    let pkg = TrustedDataPackage::new(vec![], gw);
    let entries = vec![
        TrustedDataEntry::new(block(10, 30)),
        TrustedDataEntry::new(block(11, 20)),
    ];
    let out = pkg.build_trusted_subdag(entries).unwrap();
    assert_eq!(out.len(), 2);
    // sorted ascending by blue work
    assert_eq!(out[0].block.header.hash, 11);
    assert_eq!(out[1].block.header.hash, 10);
    let ten = &out[1];
    // 99 never seen: replaced by the origin sentinel
    assert_eq!(ten.ghostdag.selected_parent, ORIGIN);
    // 77 and 88 never seen: pruned from the mergesets and anticone map
    assert_eq!(ten.ghostdag.mergeset_blues, vec![11]);
    assert_eq!(ten.ghostdag.mergeset_reds, vec![11]);
    assert_eq!(ten.ghostdag.blues_anticone_sizes, vec![(11, 1)]);
}
