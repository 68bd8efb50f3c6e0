use init_params::init_params::ZkSyncStateInitParams;
use init_params::types::{
    Account, BlockDiff, BlockInfo, BlockUpdates, LeafUpdate, PendingBlock, RestoreError,
    StorageView,
};

fn account(address: u64, nonce: u32, balance: u64) -> Account {
    Account { address, nonce, balance }
}

fn update(account_id: u32, address: u64, balance: u64) -> LeafUpdate {
    LeafUpdate { account_id, account: account(address, 0, balance) }
}

fn empty_storage() -> StorageView {
    StorageView {
        account_updates: Vec::new(),
        pending_block: None,
        incomplete_range: None,
        block_diffs: Vec::new(),
        nft_tokens: Vec::new(),
        blocks: Vec::new(),
    }
}

/// Five committed-and-hashed blocks, each touching one account, with
/// per-block metadata; the restored height is 5.
fn storage_with_five_blocks() -> StorageView {
    let mut storage = empty_storage();
    for b in 1u32..=5 {
        storage.account_updates.push(BlockUpdates {
            block: b,
            updates: vec![update(b, 0x100 + b as u64, 10 * b as u64)],
        });
        storage.blocks.push(BlockInfo { number: b, processed_priority_ops: 8 * b as u64 });
    }
    storage
}

#[test]
fn scenario_empty_storage() {
    let params = ZkSyncStateInitParams::restore_from_db(empty_storage()).unwrap();
    assert_eq!(params.last_block_number, 0);
    assert_eq!(params.unprocessed_priority_op, 0);
    assert!(params.pending_block.is_none());
    assert!(params.root_hash_jobs.is_empty());
    assert!(params.acc_id_by_addr.is_empty());
    assert!(params.nfts.is_empty());
    assert!(params.tree.get(0).is_none());
}

#[test]
fn scenario_sealed_but_unhashed_blocks() {
    let mut storage = storage_with_five_blocks();
    storage.incomplete_range = Some((6, 7));
    storage.block_diffs.push(BlockDiff { block: 7, updates: vec![update(7, 0x107, 70)] });
    storage.block_diffs.push(BlockDiff { block: 6, updates: vec![update(6, 0x106, 60)] });

    let params = ZkSyncStateInitParams::restore_from_db(storage).unwrap();
    assert_eq!(params.last_block_number, 5);
    assert_eq!(params.unprocessed_priority_op, 40);
    assert!(params.pending_block.is_none());
    assert_eq!(params.root_hash_jobs.len(), 2);
    assert_eq!(params.root_hash_jobs[0].block, 6);
    assert_eq!(params.root_hash_jobs[0].updates, vec![update(6, 0x106, 60)]);
    assert_eq!(params.root_hash_jobs[1].block, 7);
    assert_eq!(params.root_hash_jobs[1].updates, vec![update(7, 0x107, 70)]);
}

#[test]
fn scenario_stale_pending_block_discarded() {
    let mut storage = storage_with_five_blocks();
    storage.pending_block = Some(PendingBlock { number: 4, txs: vec![11, 12] });

    let params = ZkSyncStateInitParams::restore_from_db(storage).unwrap();
    assert_eq!(params.last_block_number, 5);
    assert!(params.pending_block.is_none());
}

#[test]
fn scenario_successor_pending_block_kept() {
    let mut storage = storage_with_five_blocks();
    storage.pending_block = Some(PendingBlock { number: 6, txs: vec![21, 22, 23] });

    let params = ZkSyncStateInitParams::restore_from_db(storage).unwrap();
    assert_eq!(params.last_block_number, 5);
    let pending = params.pending_block.expect("successor pending block must survive");
    assert_eq!(pending.number, 6);
    assert_eq!(pending.txs, vec![21, 22, 23]);
}

#[test]
fn scenario_skipping_pending_block_fails() {
    let mut storage = storage_with_five_blocks();
    storage.pending_block = Some(PendingBlock { number: 7, txs: vec![31] });

    let err = ZkSyncStateInitParams::restore_from_db(storage).unwrap_err();
    assert_eq!(err, RestoreError::DataConsistencyError);
}

#[test]
fn restored_index_and_tree_in_bijection() {
    let storage = storage_with_five_blocks();
    let params = ZkSyncStateInitParams::restore_from_db(storage).unwrap();
    for b in 1u32..=5 {
        let leaf = params.tree.get(b).expect("leaf must be populated");
        assert_eq!(leaf.address, 0x100 + b as u64);
        assert_eq!(params.acc_id_by_addr.get(&leaf.address), Some(&b));
    }
    assert_eq!(params.acc_id_by_addr.len(), 5);
}

#[test]
fn insert_account_updates_both_sides() {
    let mut params = ZkSyncStateInitParams::restore_from_db(empty_storage()).unwrap();
    params.insert_account(9, account(0xABC, 1, 500));
    let leaf = params.tree.get(9).expect("inserted leaf must be populated");
    assert_eq!(leaf.address, 0xABC);
    assert_eq!(leaf.balance, 500);
    assert_eq!(params.acc_id_by_addr.get(&0xABC), Some(&9));
}

#[test]
fn new_snapshot_is_empty() {
    let params = ZkSyncStateInitParams::new();
    assert_eq!(params.last_block_number, 0);
    assert_eq!(params.unprocessed_priority_op, 0);
    assert!(params.pending_block.is_none());
    assert!(params.root_hash_jobs.is_empty());
    assert!(params.acc_id_by_addr.is_empty());
    assert!(params.nfts.is_empty());
    let by_default = ZkSyncStateInitParams::default();
    assert_eq!(by_default.last_block_number, 0);
    assert!(by_default.pending_block.is_none());
}
