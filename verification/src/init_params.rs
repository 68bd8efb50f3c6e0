use vstd::prelude::*;
use std::collections::HashMap;
use crate::types::{
    Account, BlockRootHashJob, BlockUpdates, Nft, PendingBlock, RestoreError, StorageView,
    ACCOUNT_TREE_DEPTH,
};
use crate::tree_restore::{
    blocks_ascending, flat_updates, lemma_replay_bijective, replayed_index, replayed_leaves,
    restore_tree, tree_index_bijective, updates_consistent, last_applied_block, AccountTree,
};
use crate::pending_block::{load_pending_block, pending_block_inconsistent, pending_block_outcome};
use crate::root_hash_jobs::{jobs_complete_for_range, load_root_hash_jobs, range_has_missing_diff};
use crate::loaders::{load_nft_tokens, nft_snapshot, priority_op_count, unprocessed_priority_op_id};

verus! {

/// The immutable snapshot restoration produces: the account tree and its
/// address index, the token registry, the anchor height, the cumulative
/// priority-operation count, the surviving pending block if any, and the
/// ordered queue of root-hash jobs.
#[derive(Debug)]
pub struct ZkSyncStateInitParams {
    pub tree: AccountTree,
    pub acc_id_by_addr: HashMap<u64, u32>,
    pub nfts: HashMap<u32, Nft>,
    pub last_block_number: u32,
    pub unprocessed_priority_op: u64,
    pub pending_block: Option<PendingBlock>,
    pub root_hash_jobs: Vec<BlockRootHashJob>,
}

/// Storage that a healthy node could have written: leaf updates in block
/// order from block 1 on, ids and addresses bound one to one across the
/// whole stream, committed blocks numbered from 1, and the incomplete range
/// (if any) inclusive.
pub open spec fn storage_well_formed(storage: StorageView) -> bool {
    &&& blocks_ascending(storage.account_updates@)
    &&& forall|i: int|
        0 <= i < storage.account_updates@.len() ==> #[trigger] storage.account_updates@[i].block
            >= 1
    &&& updates_consistent(flat_updates(storage.account_updates@))
    &&& match storage.incomplete_range {
        Some(bounds) => bounds.0 <= bounds.1,
        None => true,
    }
    &&& forall|i: int| 0 <= i < storage.blocks@.len() ==> #[trigger] storage.blocks@[i].number >= 1
}

impl ZkSyncStateInitParams {
    /// The address index and the tree's populated leaves are in exact
    /// bijection.
    pub open spec fn well_formed(self) -> bool {
        tree_index_bijective(self.tree.leaves@, self.acc_id_by_addr@)
    }

    /// A snapshot holding nothing: empty tree of protocol depth, empty
    /// index and registry, height 0, no pending work of any kind.
    pub open spec fn is_initial(self) -> bool {
        &&& self.tree.depth == ACCOUNT_TREE_DEPTH
        &&& self.tree.leaves@ == Map::<u32, Account>::empty()
        &&& self.acc_id_by_addr@ == Map::<u64, u32>::empty()
        &&& self.nfts@ == Map::<u32, Nft>::empty()
        &&& self.last_block_number == 0
        &&& self.unprocessed_priority_op == 0
        &&& self.pending_block is None
        &&& self.root_hash_jobs@ == Seq::<BlockRootHashJob>::empty()
    }

    /// The empty snapshot, before anything is restored into it.
    pub fn new() -> (r: Self)
        ensures
            r.is_initial(),
            r.well_formed(),
    {
        ZkSyncStateInitParams {
            tree: AccountTree::new(ACCOUNT_TREE_DEPTH),
            acc_id_by_addr: HashMap::new(),
            nfts: HashMap::new(),
            last_block_number: 0,
            unprocessed_priority_op: 0,
            pending_block: None,
            root_hash_jobs: Vec::new(),
        }
    }

    /// Rebuild the whole snapshot from what was read out of durable
    /// storage.  The tree restorer runs first and produces the single
    /// anchor height; the priority-operation counter, the token registry,
    /// the pending-block decision and the root-hash job queue are all taken
    /// at exactly that height.  Fails with `DataConsistencyError` exactly
    /// when the pending block skips ahead of the restored height or a
    /// declared-sealed block lacks its diff.
    pub fn restore_from_db(storage: StorageView) -> (r: Result<Self, RestoreError>)
        requires
            storage_well_formed(storage),
        ensures
            r is Err <==> pending_block_inconsistent(
                storage.pending_block,
                last_applied_block(storage.account_updates@),
            ) || range_has_missing_diff(storage.incomplete_range, storage.block_diffs@),
            r is Err ==> r == Err::<Self, RestoreError>(RestoreError::DataConsistencyError),
            r matches Ok(p) ==> p.restored_from(storage),
    {
        let mut init_params = Self::new();
        match init_params.load_from_db(storage) {
            Ok(_) => Ok(init_params),
            Err(e) => Err(e),
        }
    }

    /// What a successfully restored snapshot holds, field by field, as a
    /// function of the storage contents: the replayed tree and index (in
    /// bijection), the anchor height, the counter and registry fetched at
    /// that height, the validated pending block, and a complete job queue
    /// for the incomplete range.
    pub open spec fn restored_from(self, storage: StorageView) -> bool {
        let height = last_applied_block(storage.account_updates@);
        &&& self.tree.depth == ACCOUNT_TREE_DEPTH
        &&& self.tree.leaves@ == replayed_leaves(flat_updates(storage.account_updates@))
        &&& self.acc_id_by_addr@ == replayed_index(flat_updates(storage.account_updates@))
        &&& self.well_formed()
        &&& self.last_block_number == height
        &&& self.unprocessed_priority_op == priority_op_count(storage.blocks@, height)
        &&& self.nfts@ == nft_snapshot(storage.nft_tokens@, height)
        &&& self.pending_block == pending_block_outcome(storage.pending_block, height)
        &&& match storage.incomplete_range {
            None => self.root_hash_jobs@ == Seq::<BlockRootHashJob>::empty(),
            Some(bounds) => jobs_complete_for_range(
                bounds.0,
                bounds.1,
                storage.block_diffs@,
                self.root_hash_jobs@,
            ),
        }
    }

    /// Replay the persisted leaf updates into this snapshot's tree and
    /// address index, and return the height they reach.
    pub fn load_account_tree(&mut self, account_updates: &Vec<BlockUpdates>) -> (r: u32)
        requires
            blocks_ascending(account_updates@),
        ensures
            final(self).tree.depth == ACCOUNT_TREE_DEPTH,
            final(self).tree.leaves@ == replayed_leaves(flat_updates(account_updates@)),
            final(self).acc_id_by_addr@ == replayed_index(flat_updates(account_updates@)),
            r == last_applied_block(account_updates@),
            final(self).nfts == old(self).nfts,
            final(self).last_block_number == old(self).last_block_number,
            final(self).unprocessed_priority_op == old(self).unprocessed_priority_op,
            final(self).pending_block == old(self).pending_block,
            final(self).root_hash_jobs == old(self).root_hash_jobs,
    {
        let (tree, index, block_number) = restore_tree(account_updates);
        self.tree = tree;
        self.acc_id_by_addr = index;
        block_number
    }

    /// Fill this snapshot from the storage contents: restore the tree
    /// first, then anchor every other lookup to the height it produced.
    pub fn load_from_db(&mut self, storage: StorageView) -> (r: Result<(), RestoreError>)
        requires
            storage_well_formed(storage),
        ensures
            r is Err <==> pending_block_inconsistent(
                storage.pending_block,
                last_applied_block(storage.account_updates@),
            ) || range_has_missing_diff(storage.incomplete_range, storage.block_diffs@),
            r is Err ==> r == Err::<(), RestoreError>(RestoreError::DataConsistencyError),
            r is Ok ==> final(self).restored_from(storage),
    {
        let StorageView {
            account_updates,
            pending_block,
            incomplete_range,
            block_diffs,
            nft_tokens,
            blocks,
        } = storage;
        let block_number = self.load_account_tree(&account_updates);
        self.last_block_number = block_number;

        self.unprocessed_priority_op = unprocessed_priority_op_id(&blocks, block_number);
        self.nfts = load_nft_tokens(&nft_tokens, block_number);

        match load_pending_block(pending_block, block_number) {
            Ok(pb) => {
                self.pending_block = pb;
            },
            Err(e) => {
                return Err(e);
            },
        }
        match load_root_hash_jobs(incomplete_range, &block_diffs) {
            Ok(jobs) => {
                self.root_hash_jobs = jobs;
            },
            Err(e) => {
                return Err(e);
            },
        }
        proof {
            lemma_replay_bijective(flat_updates(account_updates@));
        }
        Ok(())
    }

    /// Add a fresh id/address pair to the tree and the index together, so
    /// that the bijection between them survives the mutation.
    pub fn insert_account(&mut self, id: u32, acc: Account)
        requires
            !old(self).tree.leaves@.contains_key(id),
            !old(self).acc_id_by_addr@.contains_key(acc.address),
        ensures
            final(self).tree.depth == old(self).tree.depth,
            final(self).tree.leaves@ == old(self).tree.leaves@.insert(id, acc),
            final(self).acc_id_by_addr@ == old(self).acc_id_by_addr@.insert(acc.address, id),
            final(self).nfts == old(self).nfts,
            final(self).last_block_number == old(self).last_block_number,
            final(self).unprocessed_priority_op == old(self).unprocessed_priority_op,
            final(self).pending_block == old(self).pending_block,
            final(self).root_hash_jobs == old(self).root_hash_jobs,
            old(self).well_formed() ==> final(self).well_formed(),
    {
        self.acc_id_by_addr.insert(acc.address, id);
        self.tree.insert(id, acc);
        proof {
            if old(self).well_formed() {
                let lt = old(self).tree.leaves@;
                let it = old(self).acc_id_by_addr@;
                let lm = self.tree.leaves@;
                let im = self.acc_id_by_addr@;
                assert forall|id2: u32| #[trigger]
                    lm.contains_key(id2) implies im.contains_key(lm[id2].address)
                    && im[lm[id2].address] == id2 by {
                    if id2 != id {
                        assert(lt.contains_key(id2));
                        assert(lm[id2] == lt[id2]);
                        assert(it.contains_key(lt[id2].address));
                        assert(lt[id2].address != acc.address);
                    }
                }
                assert forall|addr: u64| #[trigger]
                    im.contains_key(addr) implies lm.contains_key(im[addr])
                    && lm[im[addr]].address == addr by {
                    if addr != acc.address {
                        assert(it.contains_key(addr));
                        assert(im[addr] == it[addr]);
                        assert(lt.contains_key(it[addr]));
                        assert(it[addr] != id);
                    }
                }
            }
        }
    }
}

impl Default for ZkSyncStateInitParams {
    /// Same as [`ZkSyncStateInitParams::new`]: the empty snapshot.
    fn default() -> (r: Self)
        ensures
            r.is_initial(),
            r.well_formed(),
    {
        Self::new()
    }
}

} // verus!
