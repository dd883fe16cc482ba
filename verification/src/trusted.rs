//! Reconstruction of a trusted sub-DAG for initial block download.
//!
//! A syncing node receives two windows of pre-validated metadata — a
//! ghostdag window and a daa window — plus an explicit block list, and
//! rebuilds from them an ordered, pruned partial DAG: deduplicated,
//! with every dangling reference pruned or replaced by the DAG-origin
//! sentinel, and sorted ascending by blue work.

use vstd::prelude::*;
use crate::assoc::{assoc_get, lemma_map_of_push, map_of, seq_contains};
use crate::errors::ProtocolError;
use crate::model::{
    Block, GhostdagData, GhostdagDataView, TrustedBlock, TrustedGhostdagData, TrustedHeader,
    ORIGIN,
};

verus! {

/// An explicit trusted entry: a full block whose ghostdag record must
/// be found in one of the windows.
pub struct TrustedDataEntry {
    pub block: Block,
}

impl TrustedDataEntry {
    pub fn new(block: Block) -> (r: Self)
        ensures
            r.block == block,
    {
        TrustedDataEntry { block }
    }
}

/// The hashes of the entries' blocks, in order.
pub open spec fn entry_hashes(entries: Seq<TrustedDataEntry>) -> Seq<u64> {
    Seq::new(entries.len(), |i: int| entries[i].block.header.hash)
}

/// The header hashes of a daa window, in order.
pub open spec fn daa_hashes(dw: Seq<TrustedHeader>) -> Seq<u64> {
    Seq::new(dw.len(), |i: int| dw[i].header.hash)
}

/// The hashes of a ghostdag window, in order.
pub open spec fn gw_hashes(gw: Seq<TrustedGhostdagData>) -> Seq<u64> {
    Seq::new(gw.len(), |i: int| gw[i].hash)
}

/// The block hashes of a built list, in order.
pub open spec fn hashes_of(s: Seq<TrustedBlock>) -> Seq<u64> {
    Seq::new(s.len(), |i: int| s[i].block.header.hash)
}

/// Every hash the builder comes to know: the entries' hashes followed
/// by the daa window's header hashes.
pub open spec fn seen_of(entries: Seq<TrustedDataEntry>, dw: Seq<TrustedHeader>) -> Seq<u64> {
    entry_hashes(entries) + daa_hashes(dw)
}

/// The lookup denoted by the ghostdag window alone.
pub open spec fn gw_map(gw: Seq<TrustedGhostdagData>) -> Map<u64, GhostdagDataView>
    decreases gw.len(),
{
    if gw.len() == 0 {
        Map::empty()
    } else {
        gw_map(gw.drop_last()).insert(gw.last().hash, gw.last().ghostdag@)
    }
}

/// The combined hash-to-ghostdag lookup: the ghostdag window is
/// inserted first, then the daa window, so on a hash collision the daa
/// window's record wins.
pub open spec fn window_map(
    gw: Seq<TrustedGhostdagData>,
    dw: Seq<TrustedHeader>,
) -> Map<u64, GhostdagDataView>
    decreases dw.len(),
{
    if dw.len() == 0 {
        gw_map(gw)
    } else {
        window_map(gw, dw.drop_last()).insert(dw.last().header.hash, dw.last().ghostdag@)
    }
}

/// Membership in a sequence of hashes, as a predicate value.
pub open spec fn in_seen(seen: Seq<u64>) -> spec_fn(u64) -> bool {
    |h: u64| seen.contains(h)
}

/// Membership of a pair's key in a sequence of hashes.
pub open spec fn in_seen_key(seen: Seq<u64>) -> spec_fn((u64, u64)) -> bool {
    |p: (u64, u64)| seen.contains(p.0)
}

/// A ghostdag record restricted to the hashes the builder has seen: the
/// mergeset parts and the anticone-size mapping keep only seen hashes,
/// and an unseen selected parent becomes the origin sentinel.
pub open spec fn restrict_gd(g: GhostdagDataView, seen: Seq<u64>) -> GhostdagDataView {
    GhostdagDataView {
        selected_parent: if seen.contains(g.selected_parent) {
            g.selected_parent
        } else {
            ORIGIN
        },
        mergeset_blues: g.mergeset_blues.filter(in_seen(seen)),
        mergeset_reds: g.mergeset_reds.filter(in_seen(seen)),
        blues_anticone_sizes: g.blues_anticone_sizes.filter(in_seen_key(seen)),
    }
}

/// Ascending order by blue work.
pub open spec fn sorted_by_blue_work(s: Seq<TrustedBlock>) -> bool {
    forall|a: int, b: int|
        0 <= a < b < s.len() ==> s[a].block.header.blue_work <= s[b].block.header.blue_work
}

/// An association list denotes the same lookup as a view-level map.
pub open spec fn gd_matches(m: Map<u64, GhostdagData>, w: Map<u64, GhostdagDataView>) -> bool {
    &&& forall|k: u64| #[trigger] m.contains_key(k) ==> w.contains_key(k)
    &&& forall|k: u64| #[trigger] w.contains_key(k) ==> m.contains_key(k) && m[k]@ == w[k]
}

/// `b` is the block of the first entry that carries hash `h`.
pub open spec fn entry_block_at(entries: Seq<TrustedDataEntry>, h: u64, b: Block) -> bool {
    exists|i: int|
        {
            &&& 0 <= i < entries.len()
            &&& (#[trigger] entries[i].block.header.hash) == h
            &&& (forall|j: int| 0 <= j < i ==> entries[j].block.header.hash != h)
            &&& entries[i].block == b
        }
}

/// No reference of the block's ghostdag record leaves the seen set:
/// the mergeset parts and the anticone keys are all seen, and the
/// selected parent is seen or is the origin sentinel.
pub open spec fn refs_within(tb: TrustedBlock, seen: Seq<u64>) -> bool {
    &&& seen.contains(tb.ghostdag.selected_parent) || tb.ghostdag.selected_parent == ORIGIN
    &&& forall|x: u64| #[trigger] tb.ghostdag.mergeset_blues@.contains(x) ==> seen.contains(x)
    &&& forall|x: u64| #[trigger] tb.ghostdag.mergeset_reds@.contains(x) ==> seen.contains(x)
    &&& forall|p: (u64, u64)|
        #[trigger] tb.ghostdag.blues_anticone_sizes@.contains(p) ==> seen.contains(p.0)
}

/// A block of the built list before pruning: an explicit entry paired
/// with the combined lookup's record for its hash, or a header-only
/// block synthesized from the first daa-window header of its hash.
pub open spec fn emitted_pre(
    tb: TrustedBlock,
    entries: Seq<TrustedDataEntry>,
    dw: Seq<TrustedHeader>,
    wmap: Map<u64, GhostdagDataView>,
) -> bool {
    let h = tb.block.header.hash;
    if entry_hashes(entries).contains(h) {
        &&& entry_block_at(entries, h, tb.block)
        &&& wmap.contains_key(h)
        &&& tb.ghostdag@ == wmap[h]
    } else {
        exists|i: int|
            {
                &&& 0 <= i < dw.len()
                &&& (#[trigger] dw[i].header.hash) == h
                &&& (forall|j: int| 0 <= j < i ==> dw[j].header.hash != h)
                &&& tb.block.header@ == dw[i].header@
                &&& tb.block.transactions@.len() == 0
                &&& tb.ghostdag@ == dw[i].ghostdag@
            }
    }
}

/// A block of the built list after pruning: as `emitted_pre`, with the
/// ghostdag record restricted to the seen set.
pub open spec fn emitted_ok(
    tb: TrustedBlock,
    entries: Seq<TrustedDataEntry>,
    dw: Seq<TrustedHeader>,
    wmap: Map<u64, GhostdagDataView>,
    seen: Seq<u64>,
) -> bool {
    let h = tb.block.header.hash;
    if entry_hashes(entries).contains(h) {
        &&& entry_block_at(entries, h, tb.block)
        &&& wmap.contains_key(h)
        &&& tb.ghostdag@ == restrict_gd(wmap[h], seen)
    } else {
        exists|i: int|
            {
                &&& 0 <= i < dw.len()
                &&& (#[trigger] dw[i].header.hash) == h
                &&& (forall|j: int| 0 <= j < i ==> dw[j].header.hash != h)
                &&& tb.block.header@ == dw[i].header@
                &&& tb.block.transactions@.len() == 0
                &&& tb.ghostdag@ == restrict_gd(dw[i].ghostdag@, seen)
            }
    }
}

/// The combined lookup knows a hash exactly when one of the windows
/// carries it.
pub proof fn lemma_window_map_dom(
    gw: Seq<TrustedGhostdagData>,
    dw: Seq<TrustedHeader>,
    key: u64,
)
    ensures
        window_map(gw, dw).contains_key(key) <==> gw_hashes(gw).contains(key) || daa_hashes(
            dw,
        ).contains(key),
    decreases gw.len() + dw.len(),
{
    if dw.len() > 0 {
        lemma_window_map_dom(gw, dw.drop_last(), key);
        if dw.last().header.hash == key {
            assert(daa_hashes(dw)[dw.len() - 1] == key);
        } else {
            if daa_hashes(dw.drop_last()).contains(key) {
                let i = choose|i: int|
                    0 <= i < dw.drop_last().len() && daa_hashes(dw.drop_last())[i] == key;
                assert(daa_hashes(dw)[i] == key);
            }
            if daa_hashes(dw).contains(key) {
                let i = choose|i: int| 0 <= i < dw.len() && daa_hashes(dw)[i] == key;
                assert(daa_hashes(dw.drop_last())[i] == key);
            }
        }
    } else if gw.len() > 0 {
        lemma_window_map_dom(gw.drop_last(), dw, key);
        if gw.last().hash == key {
            assert(gw_hashes(gw)[gw.len() - 1] == key);
        } else {
            if gw_hashes(gw.drop_last()).contains(key) {
                let i = choose|i: int|
                    0 <= i < gw.drop_last().len() && gw_hashes(gw.drop_last())[i] == key;
                assert(gw_hashes(gw)[i] == key);
            }
            if gw_hashes(gw).contains(key) {
                let i = choose|i: int| 0 <= i < gw.len() && gw_hashes(gw)[i] == key;
                assert(gw_hashes(gw.drop_last())[i] == key);
            }
        }
    }
}

/// Insertion-order precedence of the daa window: for a hash both
/// windows carry, the combined lookup holds the daa window's record —
/// the one of its last occurrence.
pub proof fn lemma_window_map_daa_precedence(
    gw: Seq<TrustedGhostdagData>,
    dw: Seq<TrustedHeader>,
    i: int,
)
    requires
        0 <= i < dw.len(),
        forall|j: int| i < j < dw.len() ==> dw[j].header.hash != dw[i].header.hash,
    ensures
        window_map(gw, dw).contains_key(dw[i].header.hash),
        window_map(gw, dw)[dw[i].header.hash] == dw[i].ghostdag@,
    decreases dw.len(),
{
    if i < dw.len() - 1 {
        assert(dw.drop_last()[i] == dw[i]);
        lemma_window_map_daa_precedence(gw, dw.drop_last(), i);
        assert(dw.last().header.hash != dw[i].header.hash);
    }
}

/// Keeps the hashes of `v` that `seen` holds, in order.
fn filter_hashes(v: &Vec<u64>, seen: &Vec<u64>) -> (r: Vec<u64>)
    ensures
        r@ == v@.filter(in_seen(seen@)),
{
    let mut r: Vec<u64> = Vec::new();
    let mut i: usize = 0;
    proof {
        reveal_with_fuel(Seq::filter, 1);
        assert(v@.take(0).filter(in_seen(seen@)) =~= Seq::<u64>::empty());
    }
    while i < v.len()
        invariant
            i <= v@.len(),
            r@ == v@.take(i as int).filter(in_seen(seen@)),
        decreases v@.len() - i,
    {
        proof {
            reveal_with_fuel(Seq::filter, 1);
            assert(v@.take(i + 1).drop_last() =~= v@.take(i as int));
            assert(v@.take(i + 1).last() == v@[i as int]);
            assert(in_seen(seen@)(v@[i as int]) == seen@.contains(v@[i as int]));
        }
        if seq_contains(seen, v[i]) {
            r.push(v[i]);
        }
        i = i + 1;
    }
    proof {
        assert(v@.take(v@.len() as int) =~= v@);
    }
    r
}

/// Keeps the pairs of `v` whose key `seen` holds, in order.
fn filter_pairs(v: &Vec<(u64, u64)>, seen: &Vec<u64>) -> (r: Vec<(u64, u64)>)
    ensures
        r@ == v@.filter(in_seen_key(seen@)),
{
    let mut r: Vec<(u64, u64)> = Vec::new();
    let mut i: usize = 0;
    proof {
        reveal_with_fuel(Seq::filter, 1);
        assert(v@.take(0).filter(in_seen_key(seen@)) =~= Seq::<(u64, u64)>::empty());
    }
    while i < v.len()
        invariant
            i <= v@.len(),
            r@ == v@.take(i as int).filter(in_seen_key(seen@)),
        decreases v@.len() - i,
    {
        proof {
            reveal_with_fuel(Seq::filter, 1);
            assert(v@.take(i + 1).drop_last() =~= v@.take(i as int));
            assert(v@.take(i + 1).last() == v@[i as int]);
            assert(in_seen_key(seen@)(v@[i as int]) == seen@.contains(v@[i as int].0));
        }
        if seq_contains(seen, v[i].0) {
            r.push(v[i]);
        }
        i = i + 1;
    }
    proof {
        assert(v@.take(v@.len() as int) =~= v@);
    }
    r
}

/// Restricts a ghostdag record to the seen hashes.
fn restrict_data(g: &GhostdagData, seen: &Vec<u64>) -> (r: GhostdagData)
    ensures
        r@ == restrict_gd(g@, seen@),
{
    let selected_parent = if seq_contains(seen, g.selected_parent) {
        g.selected_parent
    } else {
        ORIGIN
    };
    let r = GhostdagData {
        selected_parent,
        mergeset_blues: filter_hashes(&g.mergeset_blues, seen),
        mergeset_reds: filter_hashes(&g.mergeset_reds, seen),
        blues_anticone_sizes: filter_pairs(&g.blues_anticone_sizes, seen),
    };
    r
}

/// Restriction keeps no reference outside the seen set.
proof fn lemma_restrict_refs_within(tb: TrustedBlock, seen: Seq<u64>, g: GhostdagDataView)
    requires
        tb.ghostdag@ == restrict_gd(g, seen),
    ensures
        refs_within(tb, seen),
{
    broadcast use vstd::seq_lib::group_filter_ensures;

    assert forall|x: u64| #[trigger] tb.ghostdag.mergeset_blues@.contains(x) implies seen.contains(
        x,
    ) by {
        let i = choose|i: int|
            0 <= i < tb.ghostdag.mergeset_blues@.len() && tb.ghostdag.mergeset_blues@[i] == x;
        assert(in_seen(seen)(tb.ghostdag.mergeset_blues@[i]));
    }
    assert forall|x: u64| #[trigger] tb.ghostdag.mergeset_reds@.contains(x) implies seen.contains(
        x,
    ) by {
        let i = choose|i: int|
            0 <= i < tb.ghostdag.mergeset_reds@.len() && tb.ghostdag.mergeset_reds@[i] == x;
        assert(in_seen(seen)(tb.ghostdag.mergeset_reds@[i]));
    }
    assert forall|p: (u64, u64)|
        #[trigger] tb.ghostdag.blues_anticone_sizes@.contains(p) implies seen.contains(p.0) by {
        let i = choose|i: int|
            0 <= i < tb.ghostdag.blues_anticone_sizes@.len()
                && tb.ghostdag.blues_anticone_sizes@[i] == p;
        assert(in_seen_key(seen)(tb.ghostdag.blues_anticone_sizes@[i]));
    }
}

/// The position of a minimal blue work in a non-empty list.
fn min_work_index(v: &Vec<TrustedBlock>) -> (r: usize)
    requires
        v@.len() > 0,
    ensures
        r < v@.len(),
        forall|j: int|
            0 <= j < v@.len() ==> v@[r as int].block.header.blue_work
                <= #[trigger] v@[j].block.header.blue_work,
{
    let mut best: usize = 0;
    let mut i: usize = 1;
    while i < v.len()
        invariant
            best < v@.len(),
            i <= v@.len(),
            forall|j: int|
                0 <= j < i ==> v@[best as int].block.header.blue_work
                    <= #[trigger] v@[j].block.header.blue_work,
        decreases v@.len() - i,
    {
        if v[i].block.header.blue_work < v[best].block.header.blue_work {
            best = i;
        }
        i = i + 1;
    }
    best
}

/// Sorts ascending by blue work; the result is a permutation, at the
/// level of whole blocks and at the level of their hashes.
fn sort_by_blue_work(v: Vec<TrustedBlock>) -> (r: Vec<TrustedBlock>)
    ensures
        r@.len() == v@.len(),
        r@.to_multiset() == v@.to_multiset(),
        hashes_of(r@).to_multiset() == hashes_of(v@).to_multiset(),
        sorted_by_blue_work(r@),
{
    broadcast use vstd::seq_lib::group_to_multiset_ensures;
    broadcast use vstd::multiset::group_multiset_axioms;

    let mut rest = v;
    let mut out: Vec<TrustedBlock> = Vec::new();
    proof {
        assert(out@.to_multiset().add(rest@.to_multiset()) =~= v@.to_multiset());
        assert(hashes_of(out@).to_multiset().add(hashes_of(rest@).to_multiset())
            =~= hashes_of(v@).to_multiset());
    }
    while rest.len() > 0
        invariant
            out@.len() + rest@.len() == v@.len(),
            out@.to_multiset().add(rest@.to_multiset()) == v@.to_multiset(),
            hashes_of(out@).to_multiset().add(hashes_of(rest@).to_multiset()) == hashes_of(
                v@,
            ).to_multiset(),
            sorted_by_blue_work(out@),
            forall|a: int, b: int|
                0 <= a < out@.len() && 0 <= b < rest@.len() ==> (#[trigger] out@[a]).block.header.blue_work
                    <= (#[trigger] rest@[b]).block.header.blue_work,
        decreases rest@.len(),
    {
        broadcast use vstd::seq_lib::group_to_multiset_ensures;
        broadcast use vstd::multiset::group_multiset_axioms;

        let ghost out0 = out@;
        let ghost rest0 = rest@;
        let m = min_work_index(&rest);
        let tb = rest.remove(m);
        out.push(tb);
        proof {
            assert(rest@ == rest0.remove(m as int));
            assert(out@ == out0.push(tb));
            assert(out@.to_multiset().add(rest@.to_multiset()) =~= out0.to_multiset().add(
                rest0.to_multiset(),
            ));
            assert(hashes_of(rest@) =~= hashes_of(rest0).remove(m as int));
            assert(hashes_of(out@) =~= hashes_of(out0).push(tb.block.header.hash));
            assert(hashes_of(rest0)[m as int] == tb.block.header.hash);
            assert(hashes_of(out@).to_multiset().add(hashes_of(rest@).to_multiset())
                =~= hashes_of(out0).to_multiset().add(hashes_of(rest0).to_multiset()));
            assert forall|b: int| 0 <= b < rest@.len() implies out@.last().block.header.blue_work
                <= rest@[b].block.header.blue_work by {
                if b < m {
                    assert(rest0[b] == rest@[b]);
                } else {
                    assert(rest0[b + 1] == rest@[b]);
                }
            }
        }
    }
    out
}

/// A package of semi-trusted data used by a syncing node to build the
/// sub-DAG in the anticone and recent past of the synced pruning point.
pub struct TrustedDataPackage {
    pub daa_window: Vec<TrustedHeader>,
    pub ghostdag_window: Vec<TrustedGhostdagData>,
}

impl TrustedDataPackage {
    pub fn new(daa_window: Vec<TrustedHeader>, ghostdag_window: Vec<TrustedGhostdagData>) -> (r:
        Self)
        ensures
            r.daa_window == daa_window,
            r.ghostdag_window == ghostdag_window,
    {
        TrustedDataPackage { daa_window, ghostdag_window }
    }

    /// Builds the trusted sub-DAG from the windows and the explicit
    /// entries.
    ///
    /// The combined lookup inserts the ghostdag window first and the
    /// daa window second, so the daa window's record wins a collision.
    /// Entries are deduplicated by hash; an entry whose hash neither
    /// window knows fails the whole build. Daa-window headers not yet
    /// emitted are appended as header-only blocks. Every emitted
    /// record is restricted to the seen hashes, an unseen selected
    /// parent becomes the origin sentinel, and the result is sorted
    /// ascending by blue work.
    #[verifier::loop_isolation(false)]
    #[verifier::rlimit(100)]
    pub fn build_trusted_subdag(self, entries: Vec<TrustedDataEntry>) -> (r: Result<
        Vec<TrustedBlock>,
        ProtocolError,
    >)
        ensures
            (match r {
                Ok(out) => {
                    let dw = self.daa_window@;
                    let wmap = window_map(self.ghostdag_window@, dw);
                    let seen = seen_of(entries@, dw);
                    &&& forall|k: int|
                        0 <= k < out@.len() ==> emitted_ok(
                            #[trigger] out@[k],
                            entries@,
                            dw,
                            wmap,
                            seen,
                        )
                    &&& forall|k: int| 0 <= k < out@.len() ==> refs_within(#[trigger] out@[k], seen)
                    &&& forall|h: u64| hashes_of(out@).contains(h) <==> seen.contains(h)
                    &&& hashes_of(out@).no_duplicates()
                    &&& sorted_by_blue_work(out@)
                },
                Err(e) => e == ProtocolError::MissingGhostdagData,
            }),
            (r matches Err(_)) <==> exists|i: int|
                0 <= i < entries@.len() && !window_map(self.ghostdag_window@,
                self.daa_window@).contains_key(#[trigger] entries@[i].block.header.hash),
    {
        let ghost gw0 = self.ghostdag_window@;
        let ghost dw0 = self.daa_window@;
        let ghost entries0 = entries@;
        let ghost wmap = window_map(gw0, dw0);

        // The combined lookup: ghostdag window first, daa window second.
        let mut gd_list: Vec<(u64, GhostdagData)> = Vec::new();
        let mut i: usize = 0;
        proof {
            assert(gw_map(gw0.take(0)) =~= Map::<u64, GhostdagDataView>::empty());
        }
        while i < self.ghostdag_window.len()
            invariant
                i <= gw0.len(),
                self.ghostdag_window@ == gw0,
                self.daa_window@ == dw0,
                gd_matches(map_of(gd_list@), gw_map(gw0.take(i as int))),
            decreases gw0.len() - i,
        {
            let h = self.ghostdag_window[i].hash;
            let g = self.ghostdag_window[i].ghostdag.clone_data();
            proof {
                lemma_map_of_push(gd_list@, h, g);
                assert(gw0.take(i + 1).drop_last() =~= gw0.take(i as int));
                assert(gw0.take(i + 1).last() == gw0[i as int]);
            }
            gd_list.push((h, g));
            i = i + 1;
        }
        proof {
            assert(gw0.take(gw0.len() as int) =~= gw0);
            assert(window_map(gw0, dw0.take(0)) == gw_map(gw0));
        }
        let mut i: usize = 0;
        while i < self.daa_window.len()
            invariant
                i <= dw0.len(),
                self.ghostdag_window@ == gw0,
                self.daa_window@ == dw0,
                gd_matches(map_of(gd_list@), window_map(gw0, dw0.take(i as int))),
            decreases dw0.len() - i,
        {
            let h = self.daa_window[i].header.hash;
            let g = self.daa_window[i].ghostdag.clone_data();
            proof {
                lemma_map_of_push(gd_list@, h, g);
                assert(dw0.take(i + 1).drop_last() =~= dw0.take(i as int));
                assert(dw0.take(i + 1).last() == dw0[i as int]);
            }
            gd_list.push((h, g));
            i = i + 1;
        }
        proof {
            assert(dw0.take(dw0.len() as int) =~= dw0);
        }

        // Explicit entries, deduplicated by hash; a missing record is
        // fatal for the attempt.
        let mut entries = entries;
        let mut blocks: Vec<TrustedBlock> = Vec::new();
        let mut seen: Vec<u64> = Vec::new();
        let ghost mut i: int = 0;
        proof {
            assert(seen@ =~= entry_hashes(entries0.take(0)));
            assert(entries@ =~= entries0.skip(0));
        }
        while entries.len() > 0
            invariant
                0 <= i <= entries0.len(),
                entries@ == entries0.skip(i),
                self.ghostdag_window@ == gw0,
                self.daa_window@ == dw0,
                gd_matches(map_of(gd_list@), wmap),
                seen@ == entry_hashes(entries0.take(i as int)),
                forall|j: int|
                    0 <= j < i ==> wmap.contains_key(#[trigger] entries0[j].block.header.hash),
                forall|k: int|
                    0 <= k < blocks@.len() ==> emitted_pre(
                        #[trigger] blocks@[k],
                        entries0,
                        dw0,
                        wmap,
                    ),
                forall|h: u64| hashes_of(blocks@).contains(h) <==> seen@.contains(h),
                hashes_of(blocks@).no_duplicates(),
            decreases entries@.len(),
        {
            let ghost seen_before = seen@;
            let ghost blocks_before = blocks@;
            proof {
                assert(entries0.skip(i as int).len() == entries0.len() - i);
                assert(i < entries0.len());
                assert(entries0.skip(i as int)[0] == entries0[i as int]);
                assert(entries0.skip(i as int).remove(0) =~= entries0.skip(i + 1));
                assert(entry_hashes(entries0.take(i + 1)) =~= entry_hashes(
                    entries0.take(i as int),
                ).push(entries0[i as int].block.header.hash));
            }
            let e = entries.remove(0);
            let h = e.block.hash();
            let fresh = !seq_contains(&seen, h);
            if fresh {
                match assoc_get(&gd_list, h) {
                    Some(gref) => {
                        let g = gref.clone_data();
                        let tb = TrustedBlock { block: e.block, ghostdag: g };
                        blocks.push(tb);
                        seen.push(h);
                        proof {
                            assert(wmap.contains_key(h));
                            assert(entry_hashes(entries0).contains(h)) by {
                                assert(entry_hashes(entries0)[i as int] == h);
                            }
                            assert(entry_block_at(entries0, h, tb.block)) by {
                                assert forall|j: int| 0 <= j < i implies entries0[j].block.header.hash
                                    != h by {
                                    assert(entry_hashes(entries0.take(i as int))[j]
                                        == entries0[j].block.header.hash);
                                    assert(!seen_before.contains(h));
                                }
                                assert(entries0[i as int].block.header.hash == h);
                            }
                            assert(emitted_pre(tb, entries0, dw0, wmap));
                            assert(hashes_of(blocks@) =~= hashes_of(blocks_before).push(h));
                            assert forall|x: u64| hashes_of(blocks@).contains(x) <==> seen@.contains(
                                x,
                            ) by {
                                assert(seen@ == seen_before.push(h));
                                assert forall|x: u64|
                                    hashes_of(blocks_before).push(h).contains(x)
                                        <==> seen_before.push(h).contains(x) by {
                                    lemma_push_contains(hashes_of(blocks_before), h, x);
                                    lemma_push_contains(seen_before, h, x);
                                }
                            }
                            assert(hashes_of(blocks@).no_duplicates()) by {
                                assert(forall|k: int|
                                    0 <= k < hashes_of(blocks_before).len()
                                        ==> #[trigger] hashes_of(blocks_before)[k] != h);
                            }
                        }
                    },
                    None => {
                        proof {
                            assert(!wmap.contains_key(h));
                            assert(entries0[i as int].block.header.hash == h);
                            assert(exists|j: int|
                                0 <= j < entries0.len() && !window_map(gw0, dw0).contains_key(
                                    #[trigger] entries0[j].block.header.hash,
                                )) by {
                                assert(0 <= (i as int) && (i as int) < entries0.len()
                                    && !window_map(gw0, dw0).contains_key(
                                    entries0[i as int].block.header.hash,
                                ));
                            }
                        }
                        return Err(ProtocolError::MissingGhostdagData);
                    },
                }
            } else {
                seen.push(h);
                proof {
                    // a duplicate: its first occurrence was looked up
                    assert(seen_before.contains(h));
                    let j = choose|j: int| 0 <= j < seen_before.len() && seen_before[j] == h;
                    assert(entries0[j].block.header.hash == h);
                    assert(wmap.contains_key(h));
                    assert forall|x: u64| hashes_of(blocks@).contains(x) <==> seen@.contains(x) by {
                        assert(seen@ == seen_before.push(h));
                        lemma_push_contains(seen_before, h, x);
                    }
                }
            }
            proof {
                i = i + 1;
            }
        }
        proof {
            assert(entries0.take(entries0.len() as int) =~= entries0);
            assert(i == entries0.len());
        }

        // Daa-window headers not yet emitted become header-only blocks.
        let mut i: usize = 0;
        proof {
            assert(seen_of(entries0, dw0.take(0)) =~= entry_hashes(entries0));
        }
        while i < self.daa_window.len()
            invariant
                i <= dw0.len(),
                self.ghostdag_window@ == gw0,
                self.daa_window@ == dw0,
                seen@ == seen_of(entries0, dw0.take(i as int)),
                forall|j: int|
                    0 <= j < entries0.len() ==> wmap.contains_key(
                        #[trigger] entries0[j].block.header.hash,
                    ),
                forall|k: int|
                    0 <= k < blocks@.len() ==> emitted_pre(
                        #[trigger] blocks@[k],
                        entries0,
                        dw0,
                        wmap,
                    ),
                forall|h: u64| hashes_of(blocks@).contains(h) <==> seen@.contains(h),
                hashes_of(blocks@).no_duplicates(),
            decreases dw0.len() - i,
        {
            let ghost seen_before = seen@;
            let ghost blocks_before = blocks@;
            proof {
                assert(seen_of(entries0, dw0.take(i + 1)) =~= seen_of(
                    entries0,
                    dw0.take(i as int),
                ).push(dw0[i as int].header.hash));
            }
            let h = self.daa_window[i].header.hash;
            let fresh = !seq_contains(&seen, h);
            seen.push(h);
            if fresh {
                let b = Block::from_header(self.daa_window[i].header.clone_header());
                let g = self.daa_window[i].ghostdag.clone_data();
                let tb = TrustedBlock { block: b, ghostdag: g };
                blocks.push(tb);
                proof {
                    assert(!entry_hashes(entries0).contains(h)) by {
                        if entry_hashes(entries0).contains(h) {
                            let j = choose|j: int|
                                0 <= j < entry_hashes(entries0).len() && entry_hashes(entries0)[j]
                                    == h;
                            assert(seen_before[j] == h);
                        }
                    }
                    assert(emitted_pre(tb, entries0, dw0, wmap)) by {
                        assert forall|j: int| 0 <= j < i implies dw0[j].header.hash != h by {
                            assert(seen_before[entries0.len() + j] == dw0[j].header.hash);
                        }
                        assert(dw0[i as int].header.hash == h);
                    }
                    assert(hashes_of(blocks@) =~= hashes_of(blocks_before).push(h));
                    assert forall|x: u64| hashes_of(blocks@).contains(x) <==> seen@.contains(x) by {
                        assert(seen@ == seen_before.push(h));
                        lemma_push_contains(hashes_of(blocks_before), h, x);
                        lemma_push_contains(seen_before, h, x);
                    }
                    assert(hashes_of(blocks@).no_duplicates()) by {
                        assert(forall|k: int|
                            0 <= k < hashes_of(blocks_before).len()
                                ==> #[trigger] hashes_of(blocks_before)[k] != h);
                    }
                }
            } else {
                proof {
                    assert forall|x: u64| hashes_of(blocks@).contains(x) <==> seen@.contains(x) by {
                        assert(seen@ == seen_before.push(h));
                        lemma_push_contains(seen_before, h, x);
                    }
                }
            }
            i = i + 1;
        }
        proof {
            assert(dw0.take(dw0.len() as int) =~= dw0);
        }
        let ghost seenf = seen@;

        // Prune every record to the seen set.
        let ghost pre = blocks@;
        let mut restricted: Vec<TrustedBlock> = Vec::new();
        while blocks.len() > 0
            invariant
                restricted@.len() + blocks@.len() == pre.len(),
                blocks@ == pre.skip(restricted@.len() as int),
                seen@ == seenf,
                forall|k: int|
                    0 <= k < restricted@.len() ==> {
                        &&& (#[trigger] restricted@[k]).block == pre[k].block
                        &&& restricted@[k].ghostdag@ == restrict_gd(pre[k].ghostdag@, seenf)
                    },
            decreases blocks@.len(),
        {
            let ghost n = restricted@.len() as int;
            proof {
                assert(pre.skip(n)[0] == pre[n]);
                assert(pre.skip(n).remove(0) =~= pre.skip(n + 1));
            }
            let tb = blocks.remove(0);
            let g = restrict_data(&tb.ghostdag, &seen);
            restricted.push(TrustedBlock { block: tb.block, ghostdag: g });
        }
        proof {
            assert(pre.skip(pre.len() as int) =~= Seq::<TrustedBlock>::empty());
        }

        // Ascending blue work gives the topological surrogate order.
        let out = sort_by_blue_work(restricted);
        proof {
            broadcast use vstd::seq_lib::group_to_multiset_ensures;
            broadcast use vstd::multiset::group_multiset_axioms;

            let rs = restricted@;
            assert(hashes_of(rs) =~= hashes_of(pre));
            assert forall|k: int| 0 <= k < rs.len() implies emitted_ok(
                #[trigger] rs[k],
                entries0,
                dw0,
                wmap,
                seenf,
            ) && refs_within(rs[k], seenf) by {
                assert(emitted_pre(pre[k], entries0, dw0, wmap));
                assert(rs[k].block == pre[k].block);
                assert(rs[k].ghostdag@ == restrict_gd(pre[k].ghostdag@, seenf));
                lemma_restrict_refs_within(rs[k], seenf, pre[k].ghostdag@);
                if !entry_hashes(entries0).contains(rs[k].block.header.hash) {
                    let ghost jj = choose|j: int|
                        {
                            &&& 0 <= j < dw0.len()
                            &&& (#[trigger] dw0[j].header.hash) == pre[k].block.header.hash
                            &&& (forall|j2: int|
                                0 <= j2 < j ==> dw0[j2].header.hash != pre[k].block.header.hash)
                            &&& pre[k].block.header@ == dw0[j].header@
                            &&& pre[k].block.transactions@.len() == 0
                            &&& pre[k].ghostdag@ == dw0[j].ghostdag@
                        };
                    assert(dw0[jj].header.hash == rs[k].block.header.hash);
                }
            }
            assert forall|k: int| 0 <= k < out@.len() implies emitted_ok(
                #[trigger] out@[k],
                entries0,
                dw0,
                wmap,
                seenf,
            ) && refs_within(out@[k], seenf) by {
                assert(out@.contains(out@[k]));
                assert(rs.to_multiset().count(out@[k]) > 0);
                assert(rs.contains(out@[k]));
                let m = choose|m: int| 0 <= m < rs.len() && rs[m] == out@[k];
                assert(emitted_ok(rs[m], entries0, dw0, wmap, seenf));
            }
            assert forall|h: u64| hashes_of(out@).contains(h) <==> seenf.contains(h) by {
                assert(hashes_of(out@).contains(h) <==> hashes_of(out@).to_multiset().count(h)
                    > 0);
                assert(hashes_of(rs).contains(h) <==> hashes_of(rs).to_multiset().count(h) > 0);
            }
            assert(hashes_of(out@).no_duplicates()) by {
                hashes_of(rs).lemma_multiset_has_no_duplicates();
                hashes_of(out@).lemma_multiset_has_no_duplicates_conv();
            }
            assert(!(exists|j: int|
                0 <= j < entries0.len() && !wmap.contains_key(
                    #[trigger] entries0[j].block.header.hash,
                )));
        }
        Ok(out)
    }
}

/// Membership in a pushed sequence: the new element, or an old member.
proof fn lemma_push_contains(s: Seq<u64>, v: u64, x: u64)
    ensures
        s.push(v).contains(x) <==> (x == v || s.contains(x)),
{
    if s.push(v).contains(x) {
        let i = choose|i: int| 0 <= i < s.push(v).len() && s.push(v)[i] == x;
        if i < s.len() {
            assert(s[i] == x);
        }
    }
    if x == v {
        assert(s.push(v)[s.len() as int] == x);
    }
    if s.contains(x) {
        let i = choose|i: int| 0 <= i < s.len() && s[i] == x;
        assert(s.push(v)[i] == x);
    }
}

} // verus!
