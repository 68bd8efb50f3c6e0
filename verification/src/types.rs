use vstd::prelude::*;

verus! {

/// Number of levels in the sparse account tree; every `u32` account id
/// addresses a leaf of a tree of this depth.
pub const ACCOUNT_TREE_DEPTH: usize = 32;

/// One ledger entry: the identity fields (address) plus balance data.
#[derive(Clone, Copy, PartialEq, Eq, Structural, Debug)]
pub struct Account {
    pub address: u64,
    pub nonce: u32,
    pub balance: u64,
}

/// A record of one account-tree leaf's content change: after this update the
/// leaf for `account_id` holds `account`.
#[derive(Clone, Copy, PartialEq, Eq, Structural, Debug)]
pub struct LeafUpdate {
    pub account_id: u32,
    pub account: Account,
}

/// All leaf updates caused by applying one block, in application order.
#[derive(Clone, Debug)]
pub struct BlockUpdates {
    pub block: u32,
    pub updates: Vec<LeafUpdate>,
}

/// A speculative next block that has not been sealed yet.
#[derive(Clone, Debug, PartialEq, Eq)]
pub struct PendingBlock {
    pub number: u32,
    pub txs: Vec<u64>,
}

/// The persisted leaf-update diff of one sealed block, as stored for the
/// root-hash pipeline.
#[derive(Clone, Debug)]
pub struct BlockDiff {
    pub block: u32,
    pub updates: Vec<LeafUpdate>,
}

/// One unit of deferred root-hash work: a sealed block together with its
/// ordered leaf-update diff.
#[derive(Debug, PartialEq, Eq)]
pub struct BlockRootHashJob {
    pub block: u32,
    pub updates: Vec<LeafUpdate>,
}

/// Metadata of one non-fungible token.
#[derive(Clone, Copy, PartialEq, Eq, Structural, Debug)]
pub struct Nft {
    pub id: u32,
    pub creator_id: u32,
    pub serial_id: u32,
    pub content_hash: u64,
}

/// A persisted token together with the block at which it was committed.
#[derive(Clone, Copy, PartialEq, Eq, Structural, Debug)]
pub struct NftRecord {
    pub committed_at_block: u32,
    pub token: Nft,
}

/// Per-block metadata relevant to restoration: the cumulative count of
/// priority operations processed up to and including this block.
#[derive(Clone, Copy, PartialEq, Eq, Structural, Debug)]
pub struct BlockInfo {
    pub number: u32,
    pub processed_priority_ops: u64,
}

/// Why restoration aborted.
///
/// `StorageError` stands for an underlying read failure; the verified core
/// never produces it itself (its inputs are already-read values), but the
/// caller that performs the reads reports one through this same type.
/// `DataConsistencyError` is a detected structural impossibility in the data
/// that was read: proceeding would silently operate on a corrupted ledger
/// view.
#[derive(Clone, Copy, PartialEq, Eq, Structural, Debug)]
pub enum RestoreError {
    StorageError,
    DataConsistencyError,
}

/// Everything restoration reads from durable storage, as plain values:
/// the replayable leaf updates in block order, the persisted pending block if
/// any, the inclusive range of sealed-but-unhashed blocks if any, the
/// per-block diffs backing that range, the committed tokens, and per-block
/// metadata.
#[derive(Debug)]
pub struct StorageView {
    pub account_updates: Vec<BlockUpdates>,
    pub pending_block: Option<PendingBlock>,
    pub incomplete_range: Option<(u32, u32)>,
    pub block_diffs: Vec<BlockDiff>,
    pub nft_tokens: Vec<NftRecord>,
    pub blocks: Vec<BlockInfo>,
}

} // verus!
