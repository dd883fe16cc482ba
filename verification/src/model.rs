//! The block-DAG data model the core works on.
//!
//! Blocks, headers and ghostdag records are produced and owned by the
//! engine; this crate only reads them. Hashes are held as 64-bit
//! identifiers; the fixed DAG-origin sentinel is `ORIGIN`.

use vstd::prelude::*;

verus! {

/// The hash of the virtual DAG origin, used as a sentinel where a
/// selected parent has been pruned away.
pub const ORIGIN: u64 = 0;

/// A block header: identity, direct parents and ordering metrics.
#[derive(Debug, Clone)]
pub struct Header {
    pub hash: u64,
    /// The direct-parent hashes, in header order.
    pub parents: Vec<u64>,
    /// Difficulty-adjustment height proxy.
    pub daa_score: u64,
    pub blue_score: u64,
    /// Cumulative ordering weight.
    pub blue_work: u64,
}

/// The mathematical value of a header.
pub struct HeaderView {
    pub hash: u64,
    pub parents: Seq<u64>,
    pub daa_score: u64,
    pub blue_score: u64,
    pub blue_work: u64,
}

impl View for Header {
    type V = HeaderView;

    open spec fn view(&self) -> HeaderView {
        HeaderView {
            hash: self.hash,
            parents: self.parents@,
            daa_score: self.daa_score,
            blue_score: self.blue_score,
            blue_work: self.blue_work,
        }
    }
}

impl Header {
    /// Clones the header; the copy denotes the same value.
    pub fn clone_header(&self) -> (r: Header)
        ensures
            r@ == self@,
    {
        let r = Header {
            hash: self.hash,
            parents: self.parents.clone(),
            daa_score: self.daa_score,
            blue_score: self.blue_score,
            blue_work: self.blue_work,
        };
        proof {
            assert(r.parents@ =~= self.parents@);
        }
        r
    }
}

/// A transaction output: an amount and the key it is locked to.
#[derive(Debug, Clone, Copy, PartialEq, Eq, Structural)]
pub struct TransactionOutput {
    pub value: u64,
    pub script_public_key: u64,
}

/// A transaction; index 0 of a block's list is always the coinbase.
#[derive(Debug, Clone)]
pub struct Transaction {
    pub id: u64,
    pub lock_time: u64,
    pub outputs: Vec<TransactionOutput>,
    /// Raw payload; meaningful only for the coinbase.
    pub payload: Vec<u8>,
}

/// A block: header plus ordered transaction list.
#[derive(Debug, Clone)]
pub struct Block {
    pub header: Header,
    pub transactions: Vec<Transaction>,
}

impl Block {
    pub fn hash(&self) -> (r: u64)
        ensures
            r == self.header.hash,
    {
        self.header.hash
    }

    /// A header-only block, used where the body is unavailable.
    pub fn from_header(header: Header) -> (r: Block)
        ensures
            r.header@ == header@,
            r.transactions@.len() == 0,
    {
        Block { header, transactions: Vec::new() }
    }
}

/// Ghostdag metadata of one block: its selected parent, the blue and
/// red parts of its mergeset, and the blue-anticone sizes of its blues.
#[derive(Debug, Clone)]
pub struct GhostdagData {
    pub selected_parent: u64,
    pub mergeset_blues: Vec<u64>,
    pub mergeset_reds: Vec<u64>,
    pub blues_anticone_sizes: Vec<(u64, u64)>,
}

/// The mathematical value of a ghostdag record.
pub struct GhostdagDataView {
    pub selected_parent: u64,
    pub mergeset_blues: Seq<u64>,
    pub mergeset_reds: Seq<u64>,
    pub blues_anticone_sizes: Seq<(u64, u64)>,
}

impl View for GhostdagData {
    type V = GhostdagDataView;

    open spec fn view(&self) -> GhostdagDataView {
        GhostdagDataView {
            selected_parent: self.selected_parent,
            mergeset_blues: self.mergeset_blues@,
            mergeset_reds: self.mergeset_reds@,
            blues_anticone_sizes: self.blues_anticone_sizes@,
        }
    }
}

impl GhostdagData {
    /// Clones the record; the copy denotes the same value.
    pub fn clone_data(&self) -> (r: GhostdagData)
        ensures
            r@ == self@,
    {
        let r = GhostdagData {
            selected_parent: self.selected_parent,
            mergeset_blues: self.mergeset_blues.clone(),
            mergeset_reds: self.mergeset_reds.clone(),
            blues_anticone_sizes: crate::assoc::copy_vec(&self.blues_anticone_sizes),
        };
        proof {
            assert(r.mergeset_blues@ =~= self.mergeset_blues@);
            assert(r.mergeset_reds@ =~= self.mergeset_reds@);
        }
        r
    }
}

/// A header supplied out-of-band as trusted, with its ghostdag record.
#[derive(Debug, Clone)]
pub struct TrustedHeader {
    pub header: Header,
    pub ghostdag: GhostdagData,
}

/// A ghostdag record supplied out-of-band as trusted, keyed by hash.
#[derive(Debug, Clone)]
pub struct TrustedGhostdagData {
    pub hash: u64,
    pub ghostdag: GhostdagData,
}

/// A block paired with its ghostdag record, as emitted by the trusted
/// sub-DAG builder.
#[derive(Debug, Clone)]
pub struct TrustedBlock {
    pub block: Block,
    pub ghostdag: GhostdagData,
}

impl TrustedBlock {
    pub fn new(block: Block, ghostdag: GhostdagData) -> (r: TrustedBlock)
        ensures
            r.block == block,
            r.ghostdag == ghostdag,
    {
        TrustedBlock { block, ghostdag }
    }
}

} // verus!
