//! Context-dependent validation of a block body.
//!
//! The checks run in a fixed order and stop at the first failure:
//! parent-body presence, the activation-dependent coinbase output
//! bound, the coinbase's declared blue score and subsidy, and each
//! transaction's lock time against the block's daa score or the past
//! median time of its ancestry. The validator only reads state the
//! engine owns; it is pure and safe to run concurrently for distinct
//! blocks.

use vstd::prelude::*;
use crate::assoc::{assoc_get, map_of};
use crate::errors::{RuleError, TxRuleError};
use crate::model::{Block, Transaction};

verus! {

/// Below this value a lock time is a daa score; at or above it, a
/// millisecond timestamp.
pub const LOCK_TIME_THRESHOLD: u64 = 500_000_000_000;

/// The lock-time mode of a transaction.
#[derive(Debug, Clone, Copy, PartialEq, Eq, Structural)]
pub enum LockTimeType {
    Finalized,
    DaaScore,
    Time,
}

/// The mode a lock time falls in.
pub open spec fn lock_time_type_of(lock_time: u64) -> LockTimeType {
    if lock_time == 0 {
        LockTimeType::Finalized
    } else if lock_time < LOCK_TIME_THRESHOLD {
        LockTimeType::DaaScore
    } else {
        LockTimeType::Time
    }
}

/// Classifies a transaction's lock time.
pub fn get_lock_time_type(tx: &Transaction) -> (r: LockTimeType)
    ensures
        r == lock_time_type_of(tx.lock_time),
{
    if tx.lock_time == 0 {
        LockTimeType::Finalized
    } else if tx.lock_time < LOCK_TIME_THRESHOLD {
        LockTimeType::DaaScore
    } else {
        LockTimeType::Time
    }
}

/// A transaction is final in its block's context when its lock time
/// lies strictly below the bound its mode selects.
pub open spec fn tx_final(tx: Transaction, daa_score: u64, median_time: u64) -> bool {
    match lock_time_type_of(tx.lock_time) {
        LockTimeType::Finalized => true,
        LockTimeType::DaaScore => tx.lock_time < daa_score,
        LockTimeType::Time => tx.lock_time < median_time,
    }
}

/// The dag-width parameter `k` as a pure, activation-dependent
/// function of a daa score.
#[derive(Debug, Clone, Copy, PartialEq, Eq, Structural)]
pub struct GhostdagK {
    pub activation_daa_score: u64,
    pub pre_activation_k: u16,
    pub post_activation_k: u16,
}

impl GhostdagK {
    /// The parameter in force at a daa score.
    pub open spec fn k_of(self, daa_score: u64) -> u16 {
        if daa_score < self.activation_daa_score {
            self.pre_activation_k
        } else {
            self.post_activation_k
        }
    }

    pub fn get(&self, daa_score: u64) -> (r: u16)
        ensures
            r == self.k_of(daa_score),
    {
        if daa_score < self.activation_daa_score {
            self.pre_activation_k
        } else {
            self.post_activation_k
        }
    }
}

/// The expected block subsidy as a pure, activation-dependent function
/// of a daa score.
#[derive(Debug, Clone, Copy, PartialEq, Eq, Structural)]
pub struct SubsidyPolicy {
    pub deflationary_phase_daa_score: u64,
    pub pre_deflationary_subsidy: u64,
    pub deflationary_subsidy: u64,
}

impl SubsidyPolicy {
    /// The subsidy owed at a daa score.
    pub open spec fn subsidy_of(self, daa_score: u64) -> u64 {
        if daa_score < self.deflationary_phase_daa_score {
            self.pre_deflationary_subsidy
        } else {
            self.deflationary_subsidy
        }
    }

    pub fn calc_block_subsidy(&self, daa_score: u64) -> (r: u64)
        ensures
            r == self.subsidy_of(daa_score),
    {
        if daa_score < self.deflationary_phase_daa_score {
            self.pre_deflationary_subsidy
        } else {
            self.deflationary_subsidy
        }
    }
}

/// The little-endian 64-bit integer at `off` in a payload.
pub open spec fn le64_at(p: Seq<u8>, off: int) -> int {
    p[off] as int + p[off + 1] as int * 0x100 + p[off + 2] as int * 0x10000 + p[off + 3] as int
        * 0x1000000 + p[off + 4] as int * 0x100000000 + p[off + 5] as int * 0x10000000000 + p[off
        + 6] as int * 0x1000000000000 + p[off + 7] as int * 0x100000000000000
}

/// Reads the little-endian 64-bit integer at `off`.
fn read_le64(p: &Vec<u8>, off: usize) -> (r: u64)
    requires
        off + 8 <= p@.len(),
    ensures
        r as int == le64_at(p@, off as int),
{
    let n = p.len();
    assert(off + 8 <= n);
    let r: u64 = p[off] as u64 + (p[off + 1] as u64) * 0x100 + (p[off + 2] as u64) * 0x10000 + (p[off
        + 3] as u64) * 0x1000000 + (p[off + 4] as u64) * 0x100000000 + (p[off + 5] as u64)
        * 0x10000000000 + (p[off + 6] as u64) * 0x1000000000000 + (p[off + 7] as u64)
        * 0x100000000000000;
    r
}

/// A decoded coinbase payload: its declared blue score and subsidy.
#[derive(Debug, Clone, Copy, PartialEq, Eq, Structural)]
pub struct CoinbaseData {
    pub blue_score: u64,
    pub subsidy: u64,
}

/// Decodes a coinbase payload: the declared blue score and subsidy
/// stand little-endian in its first sixteen bytes; anything shorter is
/// undecodable.
pub fn deserialize_coinbase_payload(payload: &Vec<u8>) -> (r: Option<CoinbaseData>)
    ensures
        match r {
            Some(d) => {
                &&& payload@.len() >= 16
                &&& d.blue_score as int == le64_at(payload@, 0)
                &&& d.subsidy as int == le64_at(payload@, 8)
            },
            None => payload@.len() < 16,
        },
{
    if payload.len() < 16 {
        None
    } else {
        Some(CoinbaseData { blue_score: read_le64(payload, 0), subsidy: read_le64(payload, 8) })
    }
}

/// A parent is missing when the status store has no record of an
/// accepted body for it.
pub open spec fn missing_pred(statuses: Map<u64, bool>) -> spec_fn(u64) -> bool {
    |h: u64| !(statuses.contains_key(h) && statuses[h])
}

/// When every direct parent's body is present, the missing list is
/// empty — so a block whose coinbase also matches expectations
/// validates successfully, by the validator's contract.
pub proof fn lemma_no_missing_parents(parents: Seq<u64>, statuses: Map<u64, bool>)
    requires
        forall|j: int|
            0 <= j < parents.len() ==> statuses.contains_key(#[trigger] parents[j])
                && statuses[parents[j]],
    ensures
        parents.filter(missing_pred(statuses)).len() == 0,
    decreases parents.len(),
{
    reveal_with_fuel(Seq::filter, 1);
    if parents.len() > 0 {
        assert forall|j: int|
            0 <= j < parents.drop_last().len() implies statuses.contains_key(
            #[trigger] parents.drop_last()[j],
        ) && statuses[parents.drop_last()[j]] by {
            assert(parents.drop_last()[j] == parents[j]);
        }
        lemma_no_missing_parents(parents.drop_last(), statuses);
        assert(!missing_pred(statuses)(parents.last()));
    }
}

/// When exactly one direct parent's body is missing, the missing list
/// holds exactly that one hash — so validation fails with it alone,
/// by the validator's contract.
pub proof fn lemma_missing_single_parent(parents: Seq<u64>, statuses: Map<u64, bool>, m: int)
    requires
        0 <= m < parents.len(),
        missing_pred(statuses)(parents[m]),
        forall|j: int|
            0 <= j < parents.len() && j != m ==> !missing_pred(statuses)(#[trigger] parents[j]),
    ensures
        parents.filter(missing_pred(statuses)) =~= seq![parents[m]],
    decreases parents.len(),
{
    reveal_with_fuel(Seq::filter, 1);
    if m == parents.len() - 1 {
        assert forall|j: int|
            0 <= j < parents.drop_last().len() implies !missing_pred(statuses)(
            #[trigger] parents.drop_last()[j],
        ) by {
            assert(parents.drop_last()[j] == parents[j]);
        }
        assert forall|j: int|
            0 <= j < parents.drop_last().len() implies statuses.contains_key(
            #[trigger] parents.drop_last()[j],
        ) && statuses[parents.drop_last()[j]] by {
            assert(parents.drop_last()[j] == parents[j]);
            assert(!missing_pred(statuses)(parents[j]));
        }
        lemma_no_missing_parents(parents.drop_last(), statuses);
        assert(parents.filter(missing_pred(statuses)) =~= parents.drop_last().filter(
            missing_pred(statuses),
        ).push(parents.last()));
    } else {
        assert(parents.drop_last()[m] == parents[m]);
        assert forall|j: int|
            0 <= j < parents.drop_last().len() && j != m implies !missing_pred(statuses)(
            #[trigger] parents.drop_last()[j],
        ) by {
            assert(parents.drop_last()[j] == parents[j]);
        }
        lemma_missing_single_parent(parents.drop_last(), statuses, m);
        assert(!missing_pred(statuses)(parents.last()));
    }
}

/// The block's transactions all pass the lock-time check.
pub open spec fn lock_times_ok(txs: Seq<Transaction>, daa_score: u64, median_time: u64) -> bool {
    forall|i: int| 0 <= i < txs.len() ==> tx_final(#[trigger] txs[i], daa_score, median_time)
}

/// Validates block bodies against rules that depend on ancestor state.
/// The stores hold what the engine has already persisted: per-hash
/// body-presence flags, selected parents, daa scores, and past median
/// times, plus the activation-dependent parameters.
#[derive(Debug)]
pub struct BlockBodyProcessor {
    /// Per-hash flag: the hash is known and its body is accepted.
    pub statuses_store: Vec<(u64, bool)>,
    /// Per-hash selected parent.
    pub ghostdag_store: Vec<(u64, u64)>,
    /// Per-hash daa score.
    pub headers_store: Vec<(u64, u64)>,
    /// Per-hash past median time of the block's ancestry.
    pub median_time_store: Vec<(u64, u64)>,
    pub ghostdag_k: GhostdagK,
    pub subsidy_policy: SubsidyPolicy,
}

impl BlockBodyProcessor {
    /// The selected parent and its daa score resolve for the block;
    /// guaranteed by the engine for every non-trusted block.
    pub open spec fn context_resolvable(self, block: Block) -> bool {
        &&& map_of(self.ghostdag_store@).contains_key(block.header.hash)
        &&& map_of(self.headers_store@).contains_key(
            map_of(self.ghostdag_store@)[block.header.hash],
        )
    }

    /// The daa score of the block's selected parent.
    pub open spec fn selected_parent_daa_score(self, block: Block) -> u64 {
        map_of(self.headers_store@)[map_of(self.ghostdag_store@)[block.header.hash]]
    }

    /// The coinbase output-count limit in the block's context.
    pub open spec fn coinbase_outputs_limit(self, block: Block) -> int {
        self.ghostdag_k.k_of(self.selected_parent_daa_score(block)) + 2
    }

    /// The past median time the window manager would answer for the
    /// block, where it can answer at all.
    pub open spec fn median_time_of(self, block: Block) -> u64 {
        map_of(self.median_time_store@)[block.header.hash]
    }

    /// Whether some transaction of the block needs the past median
    /// time.
    pub open spec fn needs_median_time(block: Block) -> bool {
        exists|i: int|
            0 <= i < block.transactions@.len() && lock_time_type_of(
                (#[trigger] block.transactions@[i]).lock_time,
            ) == LockTimeType::Time
    }

    /// Every direct parent's body is already accepted; otherwise the
    /// error lists every missing parent, in parent order.
    pub fn check_parent_bodies_exist(&self, block: &Block) -> (r: Result<(), RuleError>)
        ensures
            ({
                let missing = block.header.parents@.filter(
                    missing_pred(map_of(self.statuses_store@)),
                );
                match r {
                    Ok(()) => missing.len() == 0,
                    Err(e) => missing.len() > 0 && (e matches RuleError::MissingParents(v) && v@
                        == missing),
                }
            }),
    {
        let mut missing: Vec<u64> = Vec::new();
        let mut i: usize = 0;
        proof {
            reveal_with_fuel(Seq::filter, 1);
            assert(block.header.parents@.take(0).filter(missing_pred(map_of(self.statuses_store@)))
                =~= Seq::<u64>::empty());
        }
        while i < block.header.parents.len()
            invariant
                i <= block.header.parents@.len(),
                missing@ == block.header.parents@.take(i as int).filter(
                    missing_pred(map_of(self.statuses_store@)),
                ),
            decreases block.header.parents@.len() - i,
        {
            let parent = block.header.parents[i];
            proof {
                reveal_with_fuel(Seq::filter, 1);
                assert(block.header.parents@.take(i + 1).drop_last() =~= block.header.parents@.take(
                    i as int,
                ));
                assert(block.header.parents@.take(i + 1).last() == block.header.parents@[i as int]);
                assert(missing_pred(map_of(self.statuses_store@))(parent) == !(map_of(
                    self.statuses_store@,
                ).contains_key(parent) && map_of(self.statuses_store@)[parent]));
            }
            let present = match assoc_get(&self.statuses_store, parent) {
                Some(has_body) => *has_body,
                None => false,
            };
            if !present {
                missing.push(parent);
            }
            i = i + 1;
        }
        proof {
            assert(block.header.parents@.take(block.header.parents@.len() as int)
                =~= block.header.parents@);
        }
        if missing.len() > 0 {
            Err(RuleError::MissingParents(missing))
        } else {
            Ok(())
        }
    }

    /// The coinbase may carry at most `k + 2` outputs, with `k` looked
    /// up at the selected parent's daa score — the parameter activates
    /// retroactively along the selected chain.
    pub fn check_coinbase_outputs_limit(&self, block: &Block) -> (r: Result<(), RuleError>)
        requires
            self.context_resolvable(*block),
            block.transactions@.len() >= 1,
        ensures
            ({
                let tx = block.transactions@[0];
                let limit = self.coinbase_outputs_limit(*block);
                match r {
                    Ok(()) => tx.outputs@.len() <= limit,
                    Err(e) => {
                        &&& tx.outputs@.len() > limit
                        &&& (e matches RuleError::TxInIsolationValidationFailed(
                            id,
                            TxRuleError::CoinbaseTooManyOutputs(count, lim),
                        ) && id == tx.id && count == tx.outputs@.len() && lim == limit)
                    },
                }
            }),
    {
        let selected_parent = match assoc_get(&self.ghostdag_store, block.header.hash) {
            Some(sp) => *sp,
            None => {
                proof {
                    assert(false);
                }
                0
            },
        };
        let selected_parent_daa_score = match assoc_get(&self.headers_store, selected_parent) {
            Some(s) => *s,
            None => {
                proof {
                    assert(false);
                }
                0
            },
        };
        let limit = self.ghostdag_k.get(selected_parent_daa_score) as u64 + 2;
        let tx = &block.transactions[0];
        if tx.outputs.len() as u64 > limit {
            Err(RuleError::TxInIsolationValidationFailed(
                tx.id,
                TxRuleError::CoinbaseTooManyOutputs(tx.outputs.len() as u64, limit),
            ))
        } else {
            Ok(())
        }
    }

    /// The coinbase payload must decode, declare the header's blue
    /// score, and declare the subsidy owed at the header's daa score.
    pub fn check_coinbase_blue_score_and_subsidy(&self, block: &Block) -> (r: Result<
        (),
        RuleError,
    >)
        requires
            block.transactions@.len() >= 1,
        ensures
            ({
                let p = block.transactions@[0].payload@;
                let expected = self.subsidy_policy.subsidy_of(block.header.daa_score);
                match r {
                    Ok(()) => {
                        &&& p.len() >= 16
                        &&& le64_at(p, 0) == block.header.blue_score
                        &&& le64_at(p, 8) == expected
                    },
                    Err(e) => {
                        if p.len() < 16 {
                            e matches RuleError::BadCoinbasePayload
                        } else if le64_at(p, 0) != block.header.blue_score {
                            e matches RuleError::BadCoinbasePayloadBlueScore(declared, header)
                                && declared == le64_at(p, 0) && header == block.header.blue_score
                        } else {
                            &&& le64_at(p, 8) != expected
                            &&& (e matches RuleError::WrongSubsidy(exp, declared) && exp == expected
                                && declared == le64_at(p, 8))
                        }
                    },
                }
            }),
    {
        match deserialize_coinbase_payload(&block.transactions[0].payload) {
            Some(data) => {
                if data.blue_score != block.header.blue_score {
                    return Err(RuleError::BadCoinbasePayloadBlueScore(
                        data.blue_score,
                        block.header.blue_score,
                    ));
                }
                let expected_subsidy = self.subsidy_policy.calc_block_subsidy(
                    block.header.daa_score,
                );
                if data.subsidy != expected_subsidy {
                    return Err(RuleError::WrongSubsidy(expected_subsidy, data.subsidy));
                }
                Ok(())
            },
            None => Err(RuleError::BadCoinbasePayload),
        }
    }

    /// Every transaction must be final in the block's context. The
    /// past median time is computed at most once, only if some
    /// transaction is time-bound — a pure optimization with no
    /// observable effect.
    pub fn check_block_transactions_in_context(&self, block: &Block) -> (r: Result<(), RuleError>)
        requires
            Self::needs_median_time(*block) ==> map_of(self.median_time_store@).contains_key(
                block.header.hash,
            ),
        ensures
            ({
                let txs = block.transactions@;
                let daa = block.header.daa_score;
                let pmt = self.median_time_of(*block);
                match r {
                    Ok(()) => lock_times_ok(txs, daa, pmt),
                    Err(e) => exists|i: int|
                        {
                            &&& 0 <= i < txs.len()
                            &&& !tx_final(#[trigger] txs[i], daa, pmt)
                            &&& (forall|j: int| 0 <= j < i ==> tx_final(txs[j], daa, pmt))
                            &&& (e matches RuleError::TxInContextFailed(
                                id,
                                TxRuleError::NotFinalized(lt),
                            ) && id == txs[i].id && lt == txs[i].lock_time)
                        },
                }
            }),
    {
        let mut cached_pmt: Option<u64> = None;
        let mut i: usize = 0;
        while i < block.transactions.len()
            invariant
                i <= block.transactions@.len(),
                Self::needs_median_time(*block) ==> map_of(self.median_time_store@).contains_key(
                    block.header.hash,
                ),
                cached_pmt matches Some(t) ==> t == self.median_time_of(*block),
                forall|j: int|
                    0 <= j < i ==> tx_final(
                        #[trigger] block.transactions@[j],
                        block.header.daa_score,
                        self.median_time_of(*block),
                    ),
            decreases block.transactions@.len() - i,
    {
            let tx = &block.transactions[i];
            let final_here: bool = match get_lock_time_type(tx) {
                LockTimeType::Finalized => true,
                LockTimeType::DaaScore => tx.lock_time < block.header.daa_score,
                LockTimeType::Time => {
                    let pmt = match cached_pmt {
                        Some(t) => t,
                        None => {
                            proof {
                                assert(Self::needs_median_time(*block)) by {
                                    assert(lock_time_type_of(
                                        block.transactions@[i as int].lock_time,
                                    ) == LockTimeType::Time);
                                }
                            }
                            let t = match assoc_get(&self.median_time_store, block.header.hash) {
                                Some(t) => *t,
                                None => {
                                    proof {
                                        assert(false);
                                    }
                                    0
                                },
                            };
                            cached_pmt = Some(t);
                            t
                        },
                    };
                    tx.lock_time < pmt
                },
            };
            if !final_here {
                proof {
                    assert(!tx_final(
                        block.transactions@[i as int],
                        block.header.daa_score,
                        self.median_time_of(*block),
                    ));
                }
                return Err(RuleError::TxInContextFailed(
                    tx.id,
                    TxRuleError::NotFinalized(tx.lock_time),
                ));
            }
            i = i + 1;
        }
        Ok(())
    }

    /// Validates a block body against every contextual rule, in fixed
    /// order, stopping at the first failure: parent bodies, coinbase
    /// output bound, coinbase blue score and subsidy, and per-
    /// transaction lock times.
    pub fn validate_body_in_context(&self, block: &Block) -> (r: Result<(), RuleError>)
        requires
            self.context_resolvable(*block),
            block.transactions@.len() >= 1,
            Self::needs_median_time(*block) ==> map_of(self.median_time_store@).contains_key(
                block.header.hash,
            ),
        ensures
            ({
                let missing = block.header.parents@.filter(
                    missing_pred(map_of(self.statuses_store@)),
                );
                let tx = block.transactions@[0];
                let limit = self.coinbase_outputs_limit(*block);
                let p = tx.payload@;
                let expected = self.subsidy_policy.subsidy_of(block.header.daa_score);
                let daa = block.header.daa_score;
                let pmt = self.median_time_of(*block);
                if missing.len() > 0 {
                    r matches Err(e) && (e matches RuleError::MissingParents(v) && v@ == missing)
                } else if tx.outputs@.len() > limit {
                    r matches Err(e) && (e matches RuleError::TxInIsolationValidationFailed(
                        id,
                        TxRuleError::CoinbaseTooManyOutputs(count, lim),
                    ) && id == tx.id && count == tx.outputs@.len() && lim == limit)
                } else if p.len() < 16 {
                    r matches Err(e) && e matches RuleError::BadCoinbasePayload
                } else if le64_at(p, 0) != block.header.blue_score {
                    r matches Err(e) && (e matches RuleError::BadCoinbasePayloadBlueScore(
                        declared,
                        header,
                    ) && declared == le64_at(p, 0) && header == block.header.blue_score)
                } else if le64_at(p, 8) != expected {
                    r matches Err(e) && (e matches RuleError::WrongSubsidy(exp, declared) && exp
                        == expected && declared == le64_at(p, 8))
                } else if !lock_times_ok(block.transactions@, daa, pmt) {
                    r matches Err(e) && exists|i: int|
                        {
                            &&& 0 <= i < block.transactions@.len()
                            &&& !tx_final(#[trigger] block.transactions@[i], daa, pmt)
                            &&& (forall|j: int|
                                0 <= j < i ==> tx_final(block.transactions@[j], daa, pmt))
                            &&& (e matches RuleError::TxInContextFailed(
                                id,
                                TxRuleError::NotFinalized(lt),
                            ) && id == block.transactions@[i].id && lt
                                == block.transactions@[i].lock_time)
                        }
                } else {
                    r is Ok
                }
            }),
    {
        match self.check_parent_bodies_exist(block) {
            Ok(()) => {},
            Err(e) => {
                return Err(e);
            },
        }
        match self.check_coinbase_outputs_limit(block) {
            Ok(()) => {},
            Err(e) => {
                return Err(e);
            },
        }
        match self.check_coinbase_blue_score_and_subsidy(block) {
            Ok(()) => {},
            Err(e) => {
                return Err(e);
            },
        }
        self.check_block_transactions_in_context(block)
    }
}

} // verus!
