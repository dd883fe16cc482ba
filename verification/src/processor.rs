//! Decision logic of the notification bridge.
//!
//! The bridge adapts the engine's ordered notification stream into
//! index updates and republishes index-level events. What is decided
//! per notification is verified here; the long-lived collecting task,
//! the channel it reads, and the completion trigger are runtime
//! plumbing around these functions. Per-notification errors are the
//! caller's to log and swallow: one bad notification must never stop
//! index maintenance.

use vstd::prelude::*;
use crate::assoc::{keys_distinct, map_of};
use crate::errors::{EventType, IndexError};
use crate::utxoindex::{
    store_wf, sum_amounts, UtxoChanges, UtxoDiff, UtxoIndex,
};

verus! {

/// A notification from the engine's ordered stream.
#[derive(Debug, Clone)]
pub enum ConsensusNotification {
    /// One state transition's diff and the new virtual parents.
    UtxosChanged(UtxoDiff, Vec<u64>),
    /// The pruning point moved and overrode the UTXO set.
    PruningPointUtxoSetOverride,
    BlockAdded,
    VirtualChainChanged,
}

/// An index-level notification republished downstream.
#[derive(Debug, Clone)]
pub enum Notification {
    UtxosChanged(UtxoChanges),
    PruningPointUtxoSetOverride,
}

/// The kind of an engine notification.
pub open spec fn event_type_of(n: ConsensusNotification) -> EventType {
    match n {
        ConsensusNotification::UtxosChanged(_, _) => EventType::UtxosChanged,
        ConsensusNotification::PruningPointUtxoSetOverride => {
            EventType::PruningPointUtxoSetOverride
        },
        ConsensusNotification::BlockAdded => EventType::BlockAdded,
        ConsensusNotification::VirtualChainChanged => EventType::VirtualChainChanged,
    }
}

/// The one-shot start transition: the bridge ends Running either way,
/// and the caller spawns the collecting loop exactly when the bridge
/// was Idle.
pub open spec fn start_transition(is_started: bool) -> (bool, bool) {
    (true, !is_started)
}

/// Start is one-shot: of two consecutive start attempts on an idle
/// bridge, exactly the first spawns a collecting loop — and in no
/// state do both.
pub proof fn lemma_start_is_one_shot(s0: bool)
    ensures
        ({
            let (s1, r1) = start_transition(s0);
            let (s2, r2) = start_transition(s1);
            &&& !(r1 && r2)
            &&& !s0 ==> (r1 && !r2)
        }),
{
}

/// Processes the engine's notifications, feeding an optional UTXO
/// index and handing back what to republish.
pub struct Processor {
    /// The optional index the bridge maintains.
    pub utxoindex: Option<UtxoIndex>,
    /// Whether the collecting loop has been spawned; never reverts.
    pub is_started: bool,
}

impl Processor {
    pub fn new(utxoindex: Option<UtxoIndex>) -> (r: Self)
        ensures
            r.utxoindex == utxoindex,
            !r.is_started,
    {
        Processor { utxoindex, is_started: false }
    }

    /// Attempts the Idle-to-Running transition; true exactly when this
    /// call made it, so the caller spawns at most one collecting loop.
    pub fn start(&mut self) -> (r: bool)
        ensures
            (final(self).is_started, r) == start_transition(old(self).is_started),
            final(self).utxoindex == old(self).utxoindex,
    {
        let r = !self.is_started;
        self.is_started = true;
        r
    }

    /// Feeds one diff to the index: unsupported without an index, and
    /// otherwise exactly one `update` call.
    pub fn process_utxos_changed(&mut self, utxo_diff: &UtxoDiff, tips: &Vec<u64>) -> (r: Result<
        UtxoChanges,
        IndexError,
    >)
        requires
            old(self).utxoindex matches Some(ix) ==> store_wf(ix.store),
            keys_distinct(utxo_diff.add@),
            sum_amounts(utxo_diff.add@) <= u64::MAX,
            sum_amounts(utxo_diff.remove@) <= u64::MAX,
        ensures
            final(self).is_started == old(self).is_started,
            (old(self).utxoindex is None) ==> (final(self).utxoindex is None && r == Err::<
                UtxoChanges,
                IndexError,
            >(IndexError::NotSupported(EventType::UtxosChanged))),
            old(self).utxoindex matches Some(ix0) ==> (final(self).utxoindex matches Some(ix1)
                && ({
                &&& store_wf(ix1.store)
                &&& map_of(ix1.store.utxos@) == map_of(ix0.store.utxos@).remove_keys(
                    map_of(utxo_diff.remove@).dom(),
                ).union_prefer_right(map_of(utxo_diff.add@))
                &&& ix1.monotonic_circulating_supply >= ix0.monotonic_circulating_supply
                &&& (r matches Err(_) <==> ix0.store.supply is None)
                &&& (r matches Ok(ch) ==> ch.added@ == utxo_diff.add@ && ch.removed@
                    == utxo_diff.remove@ && (ix1.store.tips matches Some(t) && t@ == tips@))
            })),
    {
        match &mut self.utxoindex {
            Some(ix) => ix.update(utxo_diff, tips),
            None => Err(IndexError::NotSupported(EventType::UtxosChanged)),
        }
    }

    /// Decides one notification: a UTXO change drives the index, a
    /// pruning override republishes a zero-payload event with no store
    /// mutation, and every other kind is unsupported.
    pub fn process_notification(&mut self, notification: ConsensusNotification) -> (r: Result<
        Notification,
        IndexError,
    >)
        requires
            old(self).utxoindex matches Some(ix) ==> store_wf(ix.store),
            notification matches ConsensusNotification::UtxosChanged(d, _) ==> keys_distinct(d.add@)
                && sum_amounts(d.add@) <= u64::MAX && sum_amounts(d.remove@) <= u64::MAX,
        ensures
            final(self).is_started == old(self).is_started,
            final(self).utxoindex matches Some(ix) ==> store_wf(ix.store),
            match notification {
                ConsensusNotification::UtxosChanged(d, tips) => {
                    &&& ((old(self).utxoindex is None) ==> r == Err::<Notification, IndexError>(
                        IndexError::NotSupported(EventType::UtxosChanged),
                    ))
                    &&& (old(self).utxoindex matches Some(ix0) ==> ((final(self).utxoindex)
                        matches Some(ix1) && ({
                        &&& map_of(ix1.store.utxos@) == map_of(ix0.store.utxos@).remove_keys(
                            map_of(d.remove@).dom(),
                        ).union_prefer_right(map_of(d.add@))
                        &&& ix1.monotonic_circulating_supply >= ix0.monotonic_circulating_supply
                        &&& (r matches Err(_) <==> ix0.store.supply is None)
                        &&& (r matches Ok(n) ==> n matches Notification::UtxosChanged(ch)
                            && ch.added@ == d.add@ && ch.removed@ == d.remove@)
                    })))
                },
                ConsensusNotification::PruningPointUtxoSetOverride => {
                    &&& r == Ok::<Notification, IndexError>(
                        Notification::PruningPointUtxoSetOverride,
                    )
                    &&& final(self).utxoindex == old(self).utxoindex
                },
                _ => {
                    &&& r == Err::<Notification, IndexError>(
                        IndexError::NotSupported(event_type_of(notification)),
                    )
                    &&& final(self).utxoindex == old(self).utxoindex
                },
            },
    {
        match notification {
            ConsensusNotification::UtxosChanged(utxo_diff, tips) => {
                match self.process_utxos_changed(&utxo_diff, &tips) {
                    Ok(ch) => Ok(Notification::UtxosChanged(ch)),
                    Err(e) => Err(e),
                }
            },
            ConsensusNotification::PruningPointUtxoSetOverride => {
                Ok(Notification::PruningPointUtxoSetOverride)
            },
            ConsensusNotification::BlockAdded => {
                Err(IndexError::NotSupported(EventType::BlockAdded))
            },
            ConsensusNotification::VirtualChainChanged => {
                Err(IndexError::NotSupported(EventType::VirtualChainChanged))
            },
        }
    }
}

} // verus!
