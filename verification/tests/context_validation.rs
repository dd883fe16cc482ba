use vecnod_core::errors::{RuleError, TxRuleError};
use vecnod_core::model::{Block, Header, Transaction, TransactionOutput};
use vecnod_core::validator::{
    deserialize_coinbase_payload, BlockBodyProcessor, GhostdagK, SubsidyPolicy,
    LOCK_TIME_THRESHOLD,
};

fn payload(blue_score: u64, subsidy: u64) -> Vec<u8> {
    let mut p = Vec::new();
    p.extend_from_slice(&blue_score.to_le_bytes());
    p.extend_from_slice(&subsidy.to_le_bytes());
    p
}

fn coinbase(blue_score: u64, subsidy: u64, outputs: usize) -> Transaction {
    Transaction {
        id: 1,
        lock_time: 0,
        outputs: vec![TransactionOutput { value: 1, script_public_key: 1 }; outputs],
        payload: payload(blue_score, subsidy),
    }
}

fn processor() -> BlockBodyProcessor {
    BlockBodyProcessor {
        // parents 100 and 101 have bodies; 102 is known but bodyless
        statuses_store: vec![(100, true), (101, true), (102, false)],
        // block 1 selects parent 100
        ghostdag_store: vec![(1, 100)],
        // the selected parent's daa score is 500
        headers_store: vec![(100, 500)],
        median_time_store: vec![(1, 1_000_000_000_000)],
        // k is 10 before activation at 1000, 18 after
        ghostdag_k: GhostdagK {
            activation_daa_score: 1000,
            pre_activation_k: 10,
            post_activation_k: 18,
        },
        // subsidy is 50 before the deflationary phase at 10_000, then 25
        subsidy_policy: SubsidyPolicy {
            deflationary_phase_daa_score: 10_000,
            pre_deflationary_subsidy: 50,
            deflationary_subsidy: 25,
        },
    }
}

fn block(parents: Vec<u64>, txs: Vec<Transaction>) -> Block {
    Block {
        header: Header { hash: 1, parents, daa_score: 600, blue_score: 77, blue_work: 5 },
        transactions: txs,
    }
}

#[test]
fn coinbase_payload_decodes_little_endian() {
    let mut p = vec![0u8; 16];
    p[0] = 0x11;
    p[1] = 0x01; // blue score 0x0111 = 273
    p[8] = 0x02;
    p[9] = 0x03; // subsidy 0x0302 = 770
    let d = deserialize_coinbase_payload(&p).unwrap();
    assert_eq!(d.blue_score, 273);
    assert_eq!(d.subsidy, 770);
    assert!(deserialize_coinbase_payload(&vec![0u8; 15]).is_none());
}

#[test]
fn valid_block_passes_all_checks() {
    let p = processor();
    let b = block(vec![100, 101], vec![coinbase(77, 50, 3)]);
    assert!(p.validate_body_in_context(&b).is_ok());
}

#[test]
fn missing_single_parent_reported_exactly() {
    let p = processor();
    // 102 has no body, 103 is unknown; 100 is fine
    let b = block(vec![100, 102, 103], vec![coinbase(77, 50, 1)]);
    match p.validate_body_in_context(&b) {
        Err(RuleError::MissingParents(missing)) => assert_eq!(missing, vec![102, 103]),
        other => panic!("expected missing parents, got ok={}", other.is_ok()),
    }
    // exactly one missing parent yields exactly that one hash
    let b = block(vec![100, 102], vec![coinbase(77, 50, 1)]);
    match p.validate_body_in_context(&b) {
        Err(RuleError::MissingParents(missing)) => assert_eq!(missing, vec![102]),
        other => panic!("expected missing parents, got ok={}", other.is_ok()),
    }
}

#[test]
fn coinbase_output_limit_is_k_plus_two() {
    let p = processor();
    // selected parent daa score 500 is before activation: k = 10, limit 12
    let ok = block(vec![100], vec![coinbase(77, 50, 12)]);
    assert!(p.validate_body_in_context(&ok).is_ok());
    let over = block(vec![100], vec![coinbase(77, 50, 13)]);
    match p.validate_body_in_context(&over) {
        Err(RuleError::TxInIsolationValidationFailed(
            id,
            TxRuleError::CoinbaseTooManyOutputs(count, limit),
        )) => {
            assert_eq!(id, 1);
            assert_eq!(count, 13);
            assert_eq!(limit, 12);
        },
        other => panic!("expected output-limit failure, got ok={}", other.is_ok()),
    }
}

#[test]
fn coinbase_payload_errors_are_distinct() {
    let p = processor();
    // undecodable: shorter than sixteen bytes
    let mut short = coinbase(77, 50, 1);
    short.payload = vec![1, 2, 3];
    match p.validate_body_in_context(&block(vec![100], vec![short])) {
        Err(RuleError::BadCoinbasePayload) => {},
        other => panic!("expected decode failure, got ok={}", other.is_ok()),
    }
    // declared blue score differs from the header's 77
    match p.validate_body_in_context(&block(vec![100], vec![coinbase(76, 50, 1)])) {
        Err(RuleError::BadCoinbasePayloadBlueScore(declared, header)) => {
            assert_eq!(declared, 76);
            assert_eq!(header, 77);
        },
        other => panic!("expected blue-score failure, got ok={}", other.is_ok()),
    }
    // declared subsidy differs from the expected 50 at daa score 600
    match p.validate_body_in_context(&block(vec![100], vec![coinbase(77, 49, 1)])) {
        Err(RuleError::WrongSubsidy(expected, declared)) => {
            assert_eq!(expected, 50);
            assert_eq!(declared, 49);
        },
        other => panic!("expected subsidy failure, got ok={}", other.is_ok()),
    }
}

#[test]
fn lock_times_check_daa_score_and_median_time() {
    let p = processor();
    let tx = |id: u64, lock_time: u64| Transaction {
        id,
        lock_time,
        outputs: vec![],
        payload: vec![],
    };
    // daa-bound: 599 < 600 passes, 600 does not
    let ok = block(vec![100], vec![coinbase(77, 50, 1), tx(2, 599)]);
    assert!(p.validate_body_in_context(&ok).is_ok());
    let not_final = block(vec![100], vec![coinbase(77, 50, 1), tx(2, 600)]);
    match p.validate_body_in_context(&not_final) {
        Err(RuleError::TxInContextFailed(id, TxRuleError::NotFinalized(lt))) => {
            assert_eq!(id, 2);
            assert_eq!(lt, 600);
        },
        other => panic!("expected lock-time failure, got ok={}", other.is_ok()),
    }
    // time-bound: compared against the past median time 1_000_000_000_000
    let time_ok = block(
        vec![100],
        vec![coinbase(77, 50, 1), tx(3, LOCK_TIME_THRESHOLD), tx(4, 999_999_999_999)],
    );
    assert!(p.validate_body_in_context(&time_ok).is_ok());
    let time_bad = block(vec![100], vec![coinbase(77, 50, 1), tx(3, 1_000_000_000_000)]);
    match p.validate_body_in_context(&time_bad) {
        Err(RuleError::TxInContextFailed(id, TxRuleError::NotFinalized(lt))) => {
            assert_eq!(id, 3);
            assert_eq!(lt, 1_000_000_000_000);
        },
        other => panic!("expected lock-time failure, got ok={}", other.is_ok()),
    }
}

#[test]
fn activation_raises_the_limit_retroactively() {
    let mut p = processor();
    // move the selected parent past activation: k = 18, limit 20
    p.headers_store = vec![(100, 2000)];
    let b = block(vec![100], vec![coinbase(77, 50, 20)]);
    assert!(p.validate_body_in_context(&b).is_ok());
    let over = block(vec![100], vec![coinbase(77, 50, 21)]);
    assert!(p.validate_body_in_context(&over).is_err());
}
