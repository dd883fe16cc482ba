//! Error taxonomy of the core.
//!
//! `RuleError` is terminal for the block under validation; `IndexError`
//! covers the derived index and the notification bridge; and
//! `ProtocolError` is fatal for one trusted-sync attempt only.

use vstd::prelude::*;

verus! {

/// A transaction-level rule violation.
#[derive(Debug, Clone, PartialEq, Eq)]
pub enum TxRuleError {
    /// The coinbase has more outputs than the contextual limit permits:
    /// carries the actual count and the limit.
    CoinbaseTooManyOutputs(u64, u64),
    /// The transaction's lock time is not yet final with respect to the
    /// bound it is compared against: carries the lock time.
    NotFinalized(u64),
}

/// A context-validation failure of a block body.
#[derive(Debug, Clone, PartialEq, Eq)]
pub enum RuleError {
    /// Direct parents whose bodies are not yet known, in parent order.
    MissingParents(Vec<u64>),
    /// A transaction failed a rule that holds in isolation: carries the
    /// transaction id and the cause.
    TxInIsolationValidationFailed(u64, TxRuleError),
    /// The coinbase payload cannot be decoded.
    BadCoinbasePayload,
    /// The declared blue score differs from the header's: carries the
    /// declared and the expected value.
    BadCoinbasePayloadBlueScore(u64, u64),
    /// The declared subsidy differs from the computed one: carries the
    /// expected and the declared value.
    WrongSubsidy(u64, u64),
    /// A transaction failed a contextual check: carries the transaction
    /// id and the cause.
    TxInContextFailed(u64, TxRuleError),
}

/// A failure of the persistent backend model: the key has never been
/// written.
#[derive(Debug, Clone, PartialEq, Eq, Structural)]
pub enum StoreError {
    KeyNotFound,
}

/// The kind of an engine notification.
#[derive(Debug, Clone, Copy, PartialEq, Eq, Structural)]
pub enum EventType {
    UtxosChanged,
    PruningPointUtxoSetOverride,
    BlockAdded,
    VirtualChainChanged,
}

/// A failure of the derived index or of the notification bridge.
#[derive(Debug, Clone, PartialEq, Eq, Structural)]
pub enum IndexError {
    /// The notification kind is not consumed by the index.
    NotSupported(EventType),
    /// The backend failed: carries the backend's error.
    StoreAccessError(StoreError),
}

/// A failure of a trusted-sync attempt.
#[derive(Debug, Clone, Copy, PartialEq, Eq, Structural)]
pub enum ProtocolError {
    /// An explicit trusted entry has no ghostdag record in either
    /// window.
    MissingGhostdagData,
}

} // verus!
