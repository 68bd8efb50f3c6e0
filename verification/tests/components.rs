use init_params::loaders::{load_nft_tokens, unprocessed_priority_op_id};
use init_params::pending_block::load_pending_block;
use init_params::root_hash_jobs::load_root_hash_jobs;
use init_params::storage_check::check_storage_well_formed;
use init_params::tree_restore::restore_tree;
use init_params::types::{
    Account, BlockDiff, BlockInfo, BlockUpdates, LeafUpdate, Nft, NftRecord, PendingBlock,
    RestoreError, StorageView, ACCOUNT_TREE_DEPTH,
};

fn update(account_id: u32, address: u64, balance: u64) -> LeafUpdate {
    LeafUpdate { account_id, account: Account { address, nonce: 0, balance } }
}

fn token(id: u32) -> Nft {
    Nft { id, creator_id: 100 + id, serial_id: id, content_hash: 0xC0DE + id as u64 }
}

#[test]
fn pending_block_absent() {
    assert_eq!(load_pending_block(None, 5), Ok(None));
}

#[test]
fn pending_block_stale_is_discarded() {
    let pending = PendingBlock { number: 5, txs: vec![1] };
    assert_eq!(load_pending_block(Some(pending), 5), Ok(None));
}

#[test]
fn pending_block_successor_is_kept() {
    let pending = PendingBlock { number: 6, txs: vec![1, 2] };
    let kept = load_pending_block(Some(pending), 5).unwrap().unwrap();
    assert_eq!(kept.number, 6);
    assert_eq!(kept.txs, vec![1, 2]);
}

#[test]
fn pending_block_skipping_ahead_is_inconsistent() {
    let pending = PendingBlock { number: 8, txs: vec![] };
    assert_eq!(load_pending_block(Some(pending), 5), Err(RestoreError::DataConsistencyError));
}

#[test]
fn no_incomplete_range_means_no_jobs() {
    let diffs = vec![BlockDiff { block: 3, updates: vec![update(1, 0xA, 5)] }];
    let jobs = load_root_hash_jobs(None, &diffs).unwrap();
    assert!(jobs.is_empty());
}

#[test]
fn job_queue_covers_range_in_order() {
    let diffs = vec![
        BlockDiff { block: 9, updates: vec![update(3, 0xC, 9)] },
        BlockDiff { block: 8, updates: vec![update(2, 0xB, 8)] },
        BlockDiff { block: 10, updates: vec![update(4, 0xD, 10), update(5, 0xE, 10)] },
    ];
    let jobs = load_root_hash_jobs(Some((8, 10)), &diffs).unwrap();
    assert_eq!(jobs.len(), 3);
    assert_eq!(jobs[0].block, 8);
    assert_eq!(jobs[0].updates, vec![update(2, 0xB, 8)]);
    assert_eq!(jobs[1].block, 9);
    assert_eq!(jobs[1].updates, vec![update(3, 0xC, 9)]);
    assert_eq!(jobs[2].block, 10);
    assert_eq!(jobs[2].updates, vec![update(4, 0xD, 10), update(5, 0xE, 10)]);
}

#[test]
fn missing_diff_inside_range_is_corruption() {
    let diffs = vec![
        BlockDiff { block: 8, updates: vec![update(2, 0xB, 8)] },
        BlockDiff { block: 10, updates: vec![update(4, 0xD, 10)] },
    ];
    let r = load_root_hash_jobs(Some((8, 10)), &diffs);
    assert_eq!(r, Err(RestoreError::DataConsistencyError));
}

#[test]
fn single_block_range_yields_one_job() {
    let diffs = vec![BlockDiff { block: 4, updates: vec![] }];
    let jobs = load_root_hash_jobs(Some((4, 4)), &diffs).unwrap();
    assert_eq!(jobs.len(), 1);
    assert_eq!(jobs[0].block, 4);
    assert!(jobs[0].updates.is_empty());
}

#[test]
fn priority_op_count_reads_stored_counter() {
    let blocks = vec![
        BlockInfo { number: 1, processed_priority_ops: 3 },
        BlockInfo { number: 2, processed_priority_ops: 7 },
    ];
    assert_eq!(unprocessed_priority_op_id(&blocks, 2), 7);
    assert_eq!(unprocessed_priority_op_id(&blocks, 1), 3);
}

#[test]
fn priority_op_count_zero_when_nothing_committed() {
    let blocks: Vec<BlockInfo> = Vec::new();
    assert_eq!(unprocessed_priority_op_id(&blocks, 0), 0);
    let blocks = vec![BlockInfo { number: 1, processed_priority_ops: 3 }];
    assert_eq!(unprocessed_priority_op_id(&blocks, 0), 0);
    assert_eq!(unprocessed_priority_op_id(&blocks, 9), 0);
}

#[test]
fn nft_snapshot_keeps_tokens_up_to_height() {
    let records = vec![
        NftRecord { committed_at_block: 1, token: token(40) },
        NftRecord { committed_at_block: 3, token: token(41) },
        NftRecord { committed_at_block: 7, token: token(42) },
    ];
    let nfts = load_nft_tokens(&records, 3);
    assert_eq!(nfts.len(), 2);
    assert_eq!(nfts.get(&40), Some(&token(40)));
    assert_eq!(nfts.get(&41), Some(&token(41)));
    assert_eq!(nfts.get(&42), None);
}

#[test]
fn nft_snapshot_later_record_overwrites() {
    let replacement = Nft { id: 40, creator_id: 999, serial_id: 5, content_hash: 0xF00 };
    let records = vec![
        NftRecord { committed_at_block: 1, token: token(40) },
        NftRecord { committed_at_block: 2, token: replacement },
    ];
    let nfts = load_nft_tokens(&records, 5);
    assert_eq!(nfts.len(), 1);
    assert_eq!(nfts.get(&40), Some(&replacement));
}

#[test]
fn tree_replay_applies_updates_in_block_order() {
    let blocks = vec![
        BlockUpdates { block: 1, updates: vec![update(1, 0xA, 10), update(2, 0xB, 20)] },
        BlockUpdates { block: 2, updates: vec![update(1, 0xA, 15)] },
    ];
    let (tree, index, last) = restore_tree(&blocks);
    assert_eq!(last, 2);
    assert_eq!(tree.depth, ACCOUNT_TREE_DEPTH);
    let leaf1 = tree.get(1).expect("account 1 must be populated");
    assert_eq!(leaf1.balance, 15);
    let leaf2 = tree.get(2).expect("account 2 must be populated");
    assert_eq!(leaf2.balance, 20);
    assert_eq!(index.get(&0xA), Some(&1));
    assert_eq!(index.get(&0xB), Some(&2));
    assert_eq!(index.len(), 2);
}

#[test]
fn tree_replay_of_nothing_is_empty() {
    let blocks: Vec<BlockUpdates> = Vec::new();
    let (tree, index, last) = restore_tree(&blocks);
    assert_eq!(last, 0);
    assert!(tree.get(0).is_none());
    assert!(index.is_empty());
}

#[test]
fn well_formed_storage_is_accepted() {
    let storage = StorageView {
        account_updates: vec![
            BlockUpdates { block: 1, updates: vec![update(1, 0xA, 10)] },
            BlockUpdates { block: 2, updates: vec![update(2, 0xB, 20), update(1, 0xA, 11)] },
        ],
        pending_block: None,
        incomplete_range: Some((3, 4)),
        block_diffs: Vec::new(),
        nft_tokens: Vec::new(),
        blocks: vec![BlockInfo { number: 1, processed_priority_ops: 1 }],
    };
    assert!(check_storage_well_formed(&storage));
}

#[test]
fn unordered_blocks_are_rejected() {
    let storage = StorageView {
        account_updates: vec![
            BlockUpdates { block: 2, updates: vec![update(2, 0xB, 20)] },
            BlockUpdates { block: 1, updates: vec![update(1, 0xA, 10)] },
        ],
        pending_block: None,
        incomplete_range: None,
        block_diffs: Vec::new(),
        nft_tokens: Vec::new(),
        blocks: Vec::new(),
    };
    assert!(!check_storage_well_formed(&storage));
}

#[test]
fn shared_address_is_rejected() {
    let storage = StorageView {
        account_updates: vec![BlockUpdates {
            block: 1,
            updates: vec![update(1, 0xA, 10), update(2, 0xA, 20)],
        }],
        pending_block: None,
        incomplete_range: None,
        block_diffs: Vec::new(),
        nft_tokens: Vec::new(),
        blocks: Vec::new(),
    };
    assert!(!check_storage_well_formed(&storage));
}

#[test]
fn inverted_incomplete_range_is_rejected() {
    let storage = StorageView {
        account_updates: Vec::new(),
        pending_block: None,
        incomplete_range: Some((5, 4)),
        block_diffs: Vec::new(),
        nft_tokens: Vec::new(),
        blocks: Vec::new(),
    };
    assert!(!check_storage_well_formed(&storage));
}
