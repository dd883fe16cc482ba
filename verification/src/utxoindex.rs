//! The derived UTXO index and its engine-owned ground truth.
//!
//! The index keeps a UTXO set, a circulating-supply scalar and a tip
//! set behind one logical persisted unit. It is driven by per-state
//! diffs (`update`) and can be rebuilt from scratch by streaming the
//! engine's whole UTXO set in bounded pages (`resync`). The persisted
//! tip set is the sole sync-status oracle. Writers must be serialized
//! by the caller: `update` and `resync` must never interleave.

use vstd::prelude::*;
use crate::assoc::{
    assoc_contains_key, copy_vec, keys_distinct, lemma_map_of_dom, lemma_map_of_push, map_of,
    seq_contains,
};
use crate::errors::{IndexError, StoreError};

verus! {

/// How many entries one resync page holds at most.
pub const RESYNC_CHUNK_SIZE: usize = 2048;

/// One unspent output: its amount and the key it is locked to.
#[derive(Debug, Clone, Copy, PartialEq, Eq, Structural)]
pub struct UtxoEntry {
    pub amount: u64,
    pub script_public_key: u64,
}

/// One engine state transition's change to the UTXO set, applied as a
/// unit.
#[derive(Debug, Clone)]
pub struct UtxoDiff {
    pub add: Vec<(u64, UtxoEntry)>,
    pub remove: Vec<(u64, UtxoEntry)>,
}

/// The net change an update made, for downstream notification.
#[derive(Debug, Clone)]
pub struct UtxoChanges {
    pub added: Vec<(u64, UtxoEntry)>,
    pub removed: Vec<(u64, UtxoEntry)>,
}

/// The persisted unit: the indexed UTXO set, the supply scalar and the
/// tip set. An unset field plays the backend's "key not found".
#[derive(Debug)]
pub struct Store {
    pub utxos: Vec<(u64, UtxoEntry)>,
    pub supply: Option<u64>,
    pub tips: Option<Vec<u64>>,
}

impl Store {
    /// A store with nothing persisted yet.
    pub fn empty() -> (r: Store)
        ensures
            r.utxos@.len() == 0,
            r.supply is None,
            r.tips is None,
    {
        Store { utxos: Vec::new(), supply: None, tips: None }
    }
}

/// The store's outpoint keys are unique.
pub open spec fn store_wf(s: Store) -> bool {
    keys_distinct(s.utxos@)
}

/// The amounts of a run of entries, summed.
pub open spec fn sum_amounts(s: Seq<(u64, UtxoEntry)>) -> int
    decreases s.len(),
{
    if s.len() == 0 {
        0
    } else {
        sum_amounts(s.drop_last()) + s.last().1.amount
    }
}

/// A sum of amounts is never negative.
pub proof fn lemma_sum_nonneg(s: Seq<(u64, UtxoEntry)>)
    ensures
        sum_amounts(s) >= 0,
    decreases s.len(),
{
    if s.len() > 0 {
        lemma_sum_nonneg(s.drop_last());
    }
}

/// Summing distributes over concatenation.
pub proof fn lemma_sum_concat(a: Seq<(u64, UtxoEntry)>, b: Seq<(u64, UtxoEntry)>)
    ensures
        sum_amounts(a + b) == sum_amounts(a) + sum_amounts(b),
    decreases b.len(),
{
    if b.len() == 0 {
        assert(a + b =~= a);
    } else {
        lemma_sum_concat(a, b.drop_last());
        assert((a + b).drop_last() =~= a + b.drop_last());
        assert((a + b).last() == b.last());
    }
}

/// A prefix never sums to more than the whole.
pub proof fn lemma_sum_take_le(s: Seq<(u64, UtxoEntry)>, m: int)
    requires
        0 <= m <= s.len(),
    ensures
        sum_amounts(s.take(m)) <= sum_amounts(s),
    decreases s.len(),
{
    if m == s.len() {
        assert(s.take(m) =~= s);
    } else {
        assert(s.drop_last().take(m) =~= s.take(m));
        lemma_sum_take_le(s.drop_last(), m);
    }
}

/// Filtering never raises the sum.
pub proof fn lemma_sum_filter_le(s: Seq<(u64, UtxoEntry)>, pred: spec_fn((u64, UtxoEntry)) -> bool)
    ensures
        0 <= sum_amounts(s.filter(pred)) <= sum_amounts(s),
    decreases s.len(),
{
    reveal_with_fuel(Seq::filter, 1);
    lemma_sum_nonneg(s.filter(pred));
    if s.len() > 0 {
        lemma_sum_filter_le(s.drop_last(), pred);
        let f = s.drop_last().filter(pred);
        if pred(s.last()) {
            assert(s.filter(pred) == f.push(s.last()));
            assert(f.push(s.last()).drop_last() =~= f);
            assert(f.push(s.last()).last() == s.last());
            assert(sum_amounts(f.push(s.last())) == sum_amounts(f) + s.last().1.amount);
        }
    }
}

/// The engine-owned ground truth a resync streams from: the full UTXO
/// set as ordered pairs, and the current virtual-parent tips.
#[derive(Debug, Clone)]
pub struct ConsensusSource {
    pub utxos: Vec<(u64, UtxoEntry)>,
    pub virtual_parents: Vec<u64>,
}

impl ConsensusSource {
    /// Keys strictly ascend, and the whole supply fits the scalar.
    pub open spec fn wf(self) -> bool {
        &&& forall|i: int, j: int|
            0 <= i < j < self.utxos@.len() ==> (#[trigger] self.utxos@[i]).0
                < (#[trigger] self.utxos@[j]).0
        &&& sum_amounts(self.utxos@) <= u64::MAX
    }

    /// One page of the UTXO set: up to `chunk_size` entries from the
    /// seek position, optionally skipping the entry at the cursor.
    #[verifier::loop_isolation(false)]
    pub fn get_virtual_utxos(
        &self,
        from: Option<u64>,
        chunk_size: usize,
        skip_first: bool,
    ) -> (r: Vec<(u64, UtxoEntry)>)
        ensures
            r@ == page_of(self.utxos@, from, chunk_size as int, skip_first),
    {
        let n = self.utxos.len();
        let mut start: usize = 0;
        match from {
            Some(f) => {
                while start < n && self.utxos[start].0 < f
                    invariant
                        start <= n,
                        forall|j: int| 0 <= j < start ==> (#[trigger] self.utxos@[j]).0 < f,
                    decreases n - start,
                {
                    start = start + 1;
                }
                proof {
                    lemma_seek_pos_bounds(self.utxos@, f);
                    let p = seek_pos(self.utxos@, f);
                    if p < start {
                        assert(self.utxos@[p].0 >= f);
                    }
                    if p > start {
                        assert(self.utxos@[start as int].0 < f);
                    }
                    assert(start == p);
                }
            },
            None => {},
        }
        if skip_first && start < n {
            start = start + 1;
        }
        proof {
            assert(start == page_start(self.utxos@, from, skip_first));
        }
        let mut r: Vec<(u64, UtxoEntry)> = Vec::new();
        let mut i: usize = start;
        while i < n && r.len() < chunk_size
            invariant
                start <= i <= n,
                i - start == r@.len(),
                r@.len() <= chunk_size,
                r@ =~= self.utxos@.subrange(start as int, i as int),
            decreases n - i,
        {
            r.push(self.utxos[i]);
            i = i + 1;
        }
        proof {
            assert(r@ =~= page_of(self.utxos@, from, chunk_size as int, skip_first));
        }
        r
    }
}

/// The first position whose key is at least `from`.
pub open spec fn seek_pos(s: Seq<(u64, UtxoEntry)>, from: u64) -> int
    decreases s.len(),
{
    if s.len() == 0 {
        0
    } else if s[0].0 >= from {
        0
    } else {
        1 + seek_pos(s.drop_first(), from)
    }
}

/// The seek position splits the keys below `from` from the rest.
pub proof fn lemma_seek_pos_bounds(s: Seq<(u64, UtxoEntry)>, from: u64)
    ensures
        0 <= seek_pos(s, from) <= s.len(),
        forall|j: int| 0 <= j < seek_pos(s, from) ==> (#[trigger] s[j]).0 < from,
        seek_pos(s, from) < s.len() ==> s[seek_pos(s, from)].0 >= from,
    decreases s.len(),
{
    if s.len() > 0 && s[0].0 < from {
        lemma_seek_pos_bounds(s.drop_first(), from);
        let p = seek_pos(s.drop_first(), from);
        assert forall|j: int| 0 <= j < 1 + p implies (#[trigger] s[j]).0 < from by {
            if j > 0 {
                assert(s.drop_first()[j - 1] == s[j]);
            }
        }
        if 1 + p < s.len() {
            assert(s.drop_first()[p] == s[p + 1]);
        }
    }
}

/// Where a page begins: the seek position, plus one when the cursor
/// entry itself is skipped.
pub open spec fn page_start(s: Seq<(u64, UtxoEntry)>, from: Option<u64>, skip_first: bool) -> int {
    let base = match from {
        Option::None => 0,
        Option::Some(f) => seek_pos(s, f),
    };
    if skip_first && base < s.len() {
        base + 1
    } else {
        base
    }
}

/// The page a bulk read returns.
pub open spec fn page_of(
    s: Seq<(u64, UtxoEntry)>,
    from: Option<u64>,
    chunk: int,
    skip_first: bool,
) -> Seq<(u64, UtxoEntry)> {
    let st = page_start(s, from, skip_first);
    let end = if st + chunk <= s.len() {
        st + chunk
    } else {
        s.len() as int
    };
    s.subrange(st, end)
}

/// The persisted tip set equals the engine's, as sets.
pub open spec fn same_members(a: Seq<u64>, b: Seq<u64>) -> bool {
    forall|x: u64| a.contains(x) <==> b.contains(x)
}

/// The store believes the tips the engine currently holds.
pub open spec fn synced_with(store: Store, source: ConsensusSource) -> bool {
    match store.tips {
        Option::Some(t) => same_members(t@, source.virtual_parents@),
        Option::None => false,
    }
}

/// The state a completed resync leaves: a pure function of the ground
/// truth.
pub open spec fn resynced(ix: UtxoIndex, source: ConsensusSource) -> bool {
    &&& ix.store.utxos@ == source.utxos@
    &&& ix.store.supply == Option::<u64>::Some(sum_amounts(source.utxos@) as u64)
    &&& (ix.store.tips matches Option::Some(t) && t@ == source.virtual_parents@)
    &&& ix.monotonic_circulating_supply == sum_amounts(source.utxos@) as u64
}

/// The supply after one update: the old value moved by the diff's
/// delta, clamped to the scalar's range.
pub open spec fn clamped_supply(old_supply: int, added: int, removed: int) -> int {
    let d = old_supply + added - removed;
    if d < 0 {
        0
    } else if d > u64::MAX {
        u64::MAX as int
    } else {
        d
    }
}

/// Resync is idempotent: run twice against an unchanged ground truth,
/// it leaves an identical persisted store and supply both times.
pub proof fn lemma_resync_idempotent(a: UtxoIndex, b: UtxoIndex, source: ConsensusSource)
    requires
        resynced(a, source),
        resynced(b, source),
    ensures
        a.store.utxos@ == b.store.utxos@,
        a.store.supply == b.store.supply,
        (a.store.tips matches Option::Some(ta) && b.store.tips matches Option::Some(tb) && ta@
            == tb@),
        a.monotonic_circulating_supply == b.monotonic_circulating_supply,
{
}

/// Across any run of updates the tracked supply never decreases: each
/// update's contract forbids a step down, so a history of tracked
/// values that never steps down ends at or above where it began.
pub proof fn lemma_supply_monotone(history: Seq<u64>)
    requires
        history.len() > 0,
        forall|i: int| 0 <= i < history.len() - 1 ==> history[i] <= #[trigger] history[i + 1],
    ensures
        history[0] <= history[history.len() - 1],
    decreases history.len(),
{
    if history.len() > 1 {
        assert forall|i: int|
            0 <= i < history.drop_last().len() - 1 implies history.drop_last()[i]
            <= #[trigger] history.drop_last()[i + 1] by {
            assert(history.drop_last()[i] == history[i]);
            assert(history.drop_last()[i + 1] == history[i + 1]);
        }
        lemma_supply_monotone(history.drop_last());
        assert(history.drop_last()[0] == history[0]);
        assert(history[history.len() - 2] <= history[history.len() - 2 + 1]);
    }
}

/// Membership of an entry's script key in a query set.
pub open spec fn spk_match(spks: Seq<u64>) -> spec_fn((u64, UtxoEntry)) -> bool {
    |p: (u64, UtxoEntry)| spks.contains(p.1.script_public_key)
}

/// An entry locked to one particular script key.
pub open spec fn one_spk(spk: u64) -> spec_fn((u64, UtxoEntry)) -> bool {
    |p: (u64, UtxoEntry)| p.1.script_public_key == spk
}

/// Sums a run of entries.
#[verifier::loop_isolation(false)]
fn sum_amounts_exec(v: &Vec<(u64, UtxoEntry)>) -> (r: u64)
    requires
        sum_amounts(v@) <= u64::MAX,
    ensures
        r as int == sum_amounts(v@),
{
    let mut total: u64 = 0;
    let mut i: usize = 0;
    while i < v.len()
        invariant
            i <= v@.len(),
            total as int == sum_amounts(v@.take(i as int)),
        decreases v@.len() - i,
    {
        proof {
            assert(v@.take(i + 1).drop_last() =~= v@.take(i as int));
            assert(v@.take(i + 1).last() == v@[i as int]);
            lemma_sum_take_le(v@, i + 1);
            lemma_sum_nonneg(v@.take(i as int));
        }
        total = total + v[i].1.amount;
        i = i + 1;
    }
    proof {
        assert(v@.take(v@.len() as int) =~= v@);
    }
    total
}

/// Appends one page to the committed set, accumulating its supply.
#[verifier::loop_isolation(false)]
fn append_batch(dst: &mut Vec<(u64, UtxoEntry)>, total: &mut u64, batch: &Vec<(u64, UtxoEntry)>)
    requires
        *old(total) as int == sum_amounts(old(dst)@),
        sum_amounts(old(dst)@ + batch@) <= u64::MAX,
    ensures
        final(dst)@ == old(dst)@ + batch@,
        *final(total) as int == sum_amounts(final(dst)@),
{
    proof {
        assert(old(dst)@ + batch@.take(0) =~= old(dst)@);
    }
    let mut j: usize = 0;
    while j < batch.len()
        invariant
            j <= batch@.len(),
            dst@ == old(dst)@ + batch@.take(j as int),
            *total as int == sum_amounts(dst@),
        decreases batch@.len() - j,
    {
        proof {
            lemma_sum_concat(old(dst)@, batch@.take(j + 1));
            lemma_sum_concat(old(dst)@, batch@.take(j as int));
            assert(batch@.take(j + 1).drop_last() =~= batch@.take(j as int));
            assert(batch@.take(j + 1).last() == batch@[j as int]);
            lemma_sum_concat(old(dst)@, batch@);
            lemma_sum_take_le(batch@, j + 1);
            lemma_sum_nonneg(batch@.take(j as int));
            assert(dst@.push(batch@[j as int]) =~= old(dst)@ + batch@.take(j + 1));
        }
        *total = *total + batch[j].1.amount;
        dst.push(batch[j]);
        j = j + 1;
    }
    proof {
        assert(batch@.take(batch@.len() as int) =~= batch@);
    }
}

/// Whether two tip vectors hold the same set of hashes.
fn same_members_exec(a: &Vec<u64>, b: &Vec<u64>) -> (r: bool)
    ensures
        r == same_members(a@, b@),
{
    let mut i: usize = 0;
    while i < a.len()
        invariant
            i <= a@.len(),
            forall|j: int| 0 <= j < i ==> b@.contains(#[trigger] a@[j]),
        decreases a@.len() - i,
    {
        if !seq_contains(b, a[i]) {
            proof {
                assert(a@.contains(a@[i as int]));
            }
            return false;
        }
        i = i + 1;
    }
    let mut i: usize = 0;
    while i < b.len()
        invariant
            i <= b@.len(),
            forall|j: int| 0 <= j < a@.len() ==> b@.contains(#[trigger] a@[j]),
            forall|j: int| 0 <= j < i ==> a@.contains(#[trigger] b@[j]),
        decreases b@.len() - i,
    {
        if !seq_contains(a, b[i]) {
            proof {
                assert(b@.contains(b@[i as int]));
            }
            return false;
        }
        i = i + 1;
    }
    proof {
        assert forall|x: u64| a@.contains(x) <==> b@.contains(x) by {
            if a@.contains(x) {
                let j = choose|j: int| 0 <= j < a@.len() && a@[j] == x;
                assert(b@.contains(a@[j]));
            }
            if b@.contains(x) {
                let j = choose|j: int| 0 <= j < b@.len() && b@[j] == x;
                assert(a@.contains(b@[j]));
            }
        }
    }
    true
}

/// The derived index: the persisted unit plus the runtime monotonic
/// supply value, which never decreases across updates.
#[derive(Debug)]
pub struct UtxoIndex {
    pub store: Store,
    pub monotonic_circulating_supply: u64,
}

impl UtxoIndex {
    /// Opens an index over an existing persisted store: loads the
    /// supply when the tip set already matches the engine's, and
    /// rebuilds everything from the ground truth otherwise.
    pub fn new(store: Store, source: &ConsensusSource) -> (r: Result<UtxoIndex, IndexError>)
        requires
            store_wf(store),
            source.wf(),
        ensures
            (r matches Err(_)) <==> (synced_with(store, *source) && store.supply is None),
            match r {
                Ok(ix) => {
                    &&& store_wf(ix.store)
                    &&& if synced_with(store, *source) {
                        &&& ix.store == store
                        &&& (store.supply matches Option::Some(s)
                            && ix.monotonic_circulating_supply == s)
                    } else {
                        resynced(ix, *source)
                    }
                },
                Err(e) => e == IndexError::StoreAccessError(StoreError::KeyNotFound),
            },
    {
        let mut ix = UtxoIndex { store, monotonic_circulating_supply: 0 };
        let synced = match ix.is_synced(source) {
            Ok(b) => b,
            Err(e) => {
                return Err(e);
            },
        };
        if synced {
            match ix.store.supply {
                Some(s) => {
                    ix.monotonic_circulating_supply = s;
                    Ok(ix)
                },
                None => Err(IndexError::StoreAccessError(StoreError::KeyNotFound)),
            }
        } else {
            match ix.resync(source) {
                Ok(()) => Ok(ix),
                Err(e) => Err(e),
            }
        }
    }

    /// The tracked circulating supply.
    pub fn get_circulating_supply(&self) -> (r: u64)
        ensures
            r == self.monotonic_circulating_supply,
    {
        self.monotonic_circulating_supply
    }

    /// The persisted tip set, or the backend's "key not found".
    pub fn get_utxo_index_tips(&self) -> (r: Result<Vec<u64>, StoreError>)
        ensures
            match r {
                Ok(t) => self.store.tips matches Option::Some(t0) && t@ == t0@,
                Err(e) => self.store.tips is None && e == StoreError::KeyNotFound,
            },
    {
        match &self.store.tips {
            Some(t) => Ok(copy_vec(t)),
            None => Err(StoreError::KeyNotFound),
        }
    }

    /// Every outpoint key the index holds, in storage order.
    pub fn get_all_outpoints(&self) -> (r: Vec<u64>)
        ensures
            r@.len() == self.store.utxos@.len(),
            forall|i: int| 0 <= i < r@.len() ==> r@[i] == (#[trigger] self.store.utxos@[i]).0,
    {
        let mut r: Vec<u64> = Vec::new();
        let mut i: usize = 0;
        while i < self.store.utxos.len()
            invariant
                i <= self.store.utxos@.len(),
                r@.len() == i,
                forall|j: int| 0 <= j < i ==> r@[j] == (#[trigger] self.store.utxos@[j]).0,
            decreases self.store.utxos@.len() - i,
        {
            r.push(self.store.utxos[i].0);
            i = i + 1;
        }
        r
    }

    /// The indexed entries locked to any of the queried script public
    /// keys, in storage order.
    #[verifier::loop_isolation(false)]
    pub fn get_utxos_by_script_public_keys(&self, script_public_keys: &Vec<u64>) -> (r: Vec<
        (u64, UtxoEntry),
    >)
        ensures
            r@ == self.store.utxos@.filter(spk_match(script_public_keys@)),
    {
        let u = &self.store.utxos;
        let mut r: Vec<(u64, UtxoEntry)> = Vec::new();
        let mut i: usize = 0;
        proof {
            reveal_with_fuel(Seq::filter, 1);
            assert(u@.take(0).filter(spk_match(script_public_keys@)) =~= Seq::<
                (u64, UtxoEntry),
            >::empty());
        }
        while i < u.len()
            invariant
                i <= u@.len(),
                r@ == u@.take(i as int).filter(spk_match(script_public_keys@)),
            decreases u@.len() - i,
        {
            proof {
                reveal_with_fuel(Seq::filter, 1);
                assert(u@.take(i + 1).drop_last() =~= u@.take(i as int));
                assert(u@.take(i + 1).last() == u@[i as int]);
                assert(spk_match(script_public_keys@)(u@[i as int]) == script_public_keys@.contains(
                    u@[i as int].1.script_public_key,
                ));
            }
            if seq_contains(script_public_keys, u[i].1.script_public_key) {
                r.push(u[i]);
            }
            i = i + 1;
        }
        proof {
            assert(u@.take(u@.len() as int) =~= u@);
        }
        r
    }

    /// The summed balance locked to each queried key, in query order.
    #[verifier::loop_isolation(false)]
    pub fn get_balance_by_script_public_keys(&self, script_public_keys: &Vec<u64>) -> (r: Vec<
        (u64, u64),
    >)
        requires
            sum_amounts(self.store.utxos@) <= u64::MAX,
        ensures
            r@.len() == script_public_keys@.len(),
            forall|i: int|
                0 <= i < r@.len() ==> r@[i] == (
                    script_public_keys@[i],
                    sum_amounts(
                        self.store.utxos@.filter(one_spk(script_public_keys@[i])),
                    ) as u64,
                ),
    {
        let u = &self.store.utxos;
        let mut r: Vec<(u64, u64)> = Vec::new();
        let mut i: usize = 0;
        while i < script_public_keys.len()
            invariant
                i <= script_public_keys@.len(),
                r@.len() == i,
                forall|k: int|
                    0 <= k < i ==> r@[k] == (
                        script_public_keys@[k],
                        sum_amounts(u@.filter(one_spk(script_public_keys@[k]))) as u64,
                    ),
            decreases script_public_keys@.len() - i,
        {
            let spk = script_public_keys[i];
            let mut balance: u64 = 0;
            let mut j: usize = 0;
            proof {
                reveal_with_fuel(Seq::filter, 1);
                assert(u@.take(0).filter(one_spk(spk)) =~= Seq::<(u64, UtxoEntry)>::empty());
            }
            while j < u.len()
                invariant
                    j <= u@.len(),
                    sum_amounts(u@) <= u64::MAX,
                    balance as int == sum_amounts(u@.take(j as int).filter(one_spk(spk))),
                decreases u@.len() - j,
            {
                proof {
                    reveal_with_fuel(Seq::filter, 1);
                    assert(u@.take(j + 1).drop_last() =~= u@.take(j as int));
                    assert(u@.take(j + 1).last() == u@[j as int]);
                    assert(one_spk(spk)(u@[j as int]) == (u@[j as int].1.script_public_key == spk));
                    lemma_sum_filter_le(u@.take(j + 1), one_spk(spk));
                    lemma_sum_take_le(u@, j + 1);
                    lemma_sum_nonneg(u@.take(j + 1));
                    let f = u@.take(j as int).filter(one_spk(spk));
                    if u@[j as int].1.script_public_key == spk {
                        assert(f.push(u@[j as int]).drop_last() =~= f);
                        assert(sum_amounts(f.push(u@[j as int])) == sum_amounts(f)
                            + u@[j as int].1.amount);
                    }
                }
                if u[j].1.script_public_key == spk {
                    balance = balance + u[j].1.amount;
                }
                j = j + 1;
            }
            proof {
                assert(u@.take(u@.len() as int) =~= u@);
            }
            r.push((spk, balance));
            i = i + 1;
        }
        r
    }

    /// Whether the index believes the engine's current tips; a missing
    /// tip set reads as "not synced", not as an error.
    pub fn is_synced(&self, source: &ConsensusSource) -> (r: Result<bool, IndexError>)
        ensures
            r matches Ok(b) && b == synced_with(self.store, *source),
    {
        match &self.store.tips {
            Some(t) => Ok(same_members_exec(t, &source.virtual_parents)),
            None => Ok(false),
        }
    }

    /// Applies one engine state transition: the diff's removals and
    /// additions land as one batch, the supply moves by the diff's
    /// delta but the tracked value never decreases, and the new tips
    /// are persisted. Must be called exactly once, in order, per
    /// transition.
    #[verifier::loop_isolation(false)]
    #[verifier::rlimit(60)]
    pub fn update(&mut self, utxo_diff: &UtxoDiff, tips: &Vec<u64>) -> (r: Result<
        UtxoChanges,
        IndexError,
    >)
        requires
            store_wf(old(self).store),
            keys_distinct(utxo_diff.add@),
            sum_amounts(utxo_diff.add@) <= u64::MAX,
            sum_amounts(utxo_diff.remove@) <= u64::MAX,
        ensures
            store_wf(final(self).store),
            map_of(final(self).store.utxos@) == map_of(old(self).store.utxos@).remove_keys(
                map_of(utxo_diff.remove@).dom(),
            ).union_prefer_right(map_of(utxo_diff.add@)),
            final(self).monotonic_circulating_supply
                >= old(self).monotonic_circulating_supply,
            (r matches Err(_)) <==> old(self).store.supply is None,
            match r {
                Ok(ch) => {
                    &&& ch.added@ == utxo_diff.add@
                    &&& ch.removed@ == utxo_diff.remove@
                    &&& old(self).store.supply matches Option::Some(s0)
                    &&& final(self).store.supply == Option::<u64>::Some(
                        clamped_supply(
                            s0 as int,
                            sum_amounts(utxo_diff.add@),
                            sum_amounts(utxo_diff.remove@),
                        ) as u64,
                    )
                    &&& final(self).monotonic_circulating_supply == (if clamped_supply(
                        s0 as int,
                        sum_amounts(utxo_diff.add@),
                        sum_amounts(utxo_diff.remove@),
                    ) > old(self).monotonic_circulating_supply {
                        clamped_supply(
                            s0 as int,
                            sum_amounts(utxo_diff.add@),
                            sum_amounts(utxo_diff.remove@),
                        )
                    } else {
                        old(self).monotonic_circulating_supply as int
                    })
                    &&& (final(self).store.tips matches Option::Some(t) && t@ == tips@)
                },
                Err(e) => {
                    &&& e == IndexError::StoreAccessError(StoreError::KeyNotFound)
                    &&& final(self).store.supply is None
                    &&& final(self).store.tips == old(self).store.tips
                    &&& final(self).monotonic_circulating_supply == old(
                        self,
                    ).monotonic_circulating_supply
                },
            },
    {
        let ghost old_utxos = self.store.utxos@;
        let ghost rm = map_of(utxo_diff.remove@);
        let ghost ad = map_of(utxo_diff.add@);

        // One batch: drop removed (and re-added) keys, then append the
        // additions.
        let mut new_utxos: Vec<(u64, UtxoEntry)> = Vec::new();
        let mut i: usize = 0;
        proof {
            assert(map_of(new_utxos@) =~= map_of(old_utxos.take(0)).remove_keys(
                rm.dom(),
            ).remove_keys(ad.dom()));
        }
        while i < self.store.utxos.len()
            invariant
                i <= old_utxos.len(),
                self.store.utxos@ == old_utxos,
                keys_distinct(new_utxos@),
                map_of(new_utxos@) == map_of(old_utxos.take(i as int)).remove_keys(
                    rm.dom(),
                ).remove_keys(ad.dom()),
            decreases old_utxos.len() - i,
        {
            let p = self.store.utxos[i];
            proof {
                lemma_map_of_push(old_utxos.take(i as int), p.0, p.1);
                assert(old_utxos.take(i + 1).drop_last() =~= old_utxos.take(i as int));
                assert(old_utxos.take(i + 1).last() == old_utxos[i as int]);
                lemma_map_of_dom(old_utxos.take(i as int), p.0);
                assert(forall|j: int|
                    0 <= j < i ==> (#[trigger] old_utxos.take(i as int)[j]).0 == old_utxos[j].0);
                assert(!map_of(old_utxos.take(i as int)).contains_key(p.0));
            }
            if !assoc_contains_key(&utxo_diff.remove, p.0) && !assoc_contains_key(
                &utxo_diff.add,
                p.0,
            ) {
                proof {
                    lemma_map_of_push(new_utxos@, p.0, p.1);
                    lemma_map_of_dom(new_utxos@, p.0);
                    assert(map_of(new_utxos@.push((p.0, p.1))) =~= map_of(
                        old_utxos.take(i + 1),
                    ).remove_keys(rm.dom()).remove_keys(ad.dom()));
                    assert(forall|a: int|
                        0 <= a < new_utxos@.len() ==> (#[trigger] new_utxos@[a]).0 != p.0);
                }
                new_utxos.push(p);
            } else {
                proof {
                    assert(map_of(new_utxos@) =~= map_of(old_utxos.take(i + 1)).remove_keys(
                        rm.dom(),
                    ).remove_keys(ad.dom()));
                }
            }
            i = i + 1;
        }
        proof {
            assert(old_utxos.take(old_utxos.len() as int) =~= old_utxos);
        }
        let ghost kept_map = map_of(new_utxos@);
        let mut j: usize = 0;
        proof {
            assert(map_of(new_utxos@) =~= kept_map.union_prefer_right(
                map_of(utxo_diff.add@.take(0)),
            ));
        }
        while j < utxo_diff.add.len()
            invariant
                j <= utxo_diff.add@.len(),
                keys_distinct(new_utxos@),
                map_of(new_utxos@) == kept_map.union_prefer_right(
                    map_of(utxo_diff.add@.take(j as int)),
                ),
                forall|k: u64| #[trigger]
                    kept_map.contains_key(k) ==> !map_of(utxo_diff.add@).contains_key(k),
            decreases utxo_diff.add@.len() - j,
        {
            let p = utxo_diff.add[j];
            proof {
                lemma_map_of_push(new_utxos@, p.0, p.1);
                lemma_map_of_push(utxo_diff.add@.take(j as int), p.0, p.1);
                assert(utxo_diff.add@.take(j + 1).drop_last() =~= utxo_diff.add@.take(j as int));
                assert(utxo_diff.add@.take(j + 1).last() == utxo_diff.add@[j as int]);
                assert(map_of(new_utxos@.push((p.0, p.1))) =~= kept_map.union_prefer_right(
                    map_of(utxo_diff.add@.take(j + 1)),
                ));
                lemma_map_of_dom(new_utxos@, p.0);
                lemma_map_of_dom(utxo_diff.add@.take(j as int), p.0);
                lemma_map_of_dom(utxo_diff.add@, p.0);
                assert(forall|a: int|
                    0 <= a < j ==> (#[trigger] utxo_diff.add@.take(j as int)[a]).0
                        == utxo_diff.add@[a].0);
                assert(!map_of(utxo_diff.add@.take(j as int)).contains_key(p.0));
                assert(forall|a: int|
                    0 <= a < new_utxos@.len() ==> (#[trigger] new_utxos@[a]).0 != p.0);
            }
            new_utxos.push(p);
            j = j + 1;
        }
        proof {
            assert(utxo_diff.add@.take(utxo_diff.add@.len() as int) =~= utxo_diff.add@);
            assert(map_of(new_utxos@) =~= map_of(old_utxos).remove_keys(rm.dom()).union_prefer_right(
                ad,
            ));
        }
        self.store.utxos = new_utxos;

        // Supply: move by the delta, clamp the scalar, keep the
        // tracked value monotone.
        let added_sum = sum_amounts_exec(&utxo_diff.add);
        let removed_sum = sum_amounts_exec(&utxo_diff.remove);
        match self.store.supply {
            Some(s0) => {
                let d: i128 = s0 as i128 + added_sum as i128 - removed_sum as i128;
                let ns: u64 = if d < 0 {
                    0
                } else if d > u64::MAX as i128 {
                    u64::MAX
                } else {
                    d as u64
                };
                self.store.supply = Some(ns);
                if ns > self.monotonic_circulating_supply {
                    self.monotonic_circulating_supply = ns;
                }
                self.store.tips = Some(copy_vec(tips));
                Ok(UtxoChanges { added: copy_vec(&utxo_diff.add), removed: copy_vec(
                    &utxo_diff.remove,
                ) })
            },
            None => Err(IndexError::StoreAccessError(StoreError::KeyNotFound)),
        }
    }

    /// Wipes the persisted unit and rebuilds it by streaming the
    /// engine's whole UTXO set in bounded pages; the supply and the
    /// engine's tips are committed only after the full stream. A
    /// failure midway leaves the store incomplete until a later
    /// successful resync; never run concurrently with `update`.
    #[verifier::loop_isolation(false)]
    pub fn resync(&mut self, source: &ConsensusSource) -> (r: Result<(), IndexError>)
        requires
            source.wf(),
        ensures
            r matches Ok(()),
            resynced(*final(self), *source),
            store_wf(final(self).store),
    {
        let ghost src = source.utxos@;
        self.store.utxos = Vec::new();
        self.store.supply = None;
        self.store.tips = None;
        let mut circulating: u64 = 0;

        let mut batch = source.get_virtual_utxos(None, RESYNC_CHUNK_SIZE, false);
        proof {
            assert(self.store.utxos@ =~= src.take(0));
            assert(batch@ == src.subrange(0, page_end(src, 0)));
        }
        while batch.len() == RESYNC_CHUNK_SIZE
            invariant
                self.store.utxos@.len() <= src.len(),
                self.store.utxos@ == src.take(self.store.utxos@.len() as int),
                circulating as int == sum_amounts(self.store.utxos@),
                batch@ == src.subrange(
                    self.store.utxos@.len() as int,
                    page_end(src, self.store.utxos@.len() as int),
                ),
                self.store.supply is None,
                self.store.tips is None,
            decreases src.len() - self.store.utxos@.len(),
        {
            let ghost n0 = self.store.utxos@.len() as int;
            proof {
                assert(n0 + RESYNC_CHUNK_SIZE <= src.len());
                lemma_sum_take_le(src, n0 + RESYNC_CHUNK_SIZE);
                lemma_sum_concat(src.take(n0), batch@);
                assert(src.take(n0) + batch@ =~= src.take(n0 + RESYNC_CHUNK_SIZE));
            }
            let last = batch[batch.len() - 1].0;
            proof {
                assert(batch@[RESYNC_CHUNK_SIZE - 1] == src[n0 + RESYNC_CHUNK_SIZE - 1]);
            }
            let mut total = circulating;
            append_batch(&mut self.store.utxos, &mut total, &batch);
            circulating = total;
            batch = source.get_virtual_utxos(Some(last), RESYNC_CHUNK_SIZE, true);
            proof {
                let n1 = n0 + RESYNC_CHUNK_SIZE;
                lemma_seek_pos_bounds(src, last);
                let p = seek_pos(src, last);
                assert(src[n1 - 1].0 == last);
                if p < n1 - 1 {
                    assert(src[p].0 >= last);
                    assert(src[p].0 < src[n1 - 1].0);
                }
                if p > n1 - 1 {
                    assert(src[n1 - 1].0 < last);
                }
                assert(p == n1 - 1);
                assert(page_start(src, Some(last), true) == n1);
                assert(batch@ == src.subrange(n1, page_end(src, n1)));
            }
        }
        // the final, partial page (possibly empty)
        proof {
            let n0 = self.store.utxos@.len() as int;
            assert(page_end(src, n0) == n0 + batch@.len());
            lemma_sum_take_le(src, n0 + batch@.len());
            lemma_sum_concat(src.take(n0), batch@);
            assert(src.take(n0) + batch@ =~= src.take(n0 + batch@.len()));
            assert(n0 + batch@.len() == src.len() || batch@.len() == RESYNC_CHUNK_SIZE);
        }
        let mut total = circulating;
        append_batch(&mut self.store.utxos, &mut total, &batch);
        circulating = total;
        proof {
            assert(self.store.utxos@ =~= src);
        }

        self.store.supply = Some(circulating);
        self.monotonic_circulating_supply = circulating;
        self.store.tips = Some(copy_vec(&source.virtual_parents));
        proof {
            assert forall|i: int, j: int| 0 <= i < j < src.len() implies (#[trigger] src[i]).0
                != (#[trigger] src[j]).0 by {
                assert(src[i].0 < src[j].0);
            }
        }
        Ok(())
    }
}

/// Where a page starting at `st` ends.
pub open spec fn page_end(s: Seq<(u64, UtxoEntry)>, st: int) -> int {
    if st + RESYNC_CHUNK_SIZE <= s.len() {
        st + RESYNC_CHUNK_SIZE
    } else {
        s.len() as int
    }
}

} // verus!
