//! Warm-start restoration for a layer-2 rollup node's state keeper.
//!
//! Before the node may produce or validate further blocks it must rebuild its
//! off-chain ledger state from durable storage: the sparse account tree, the
//! address index, the token registry, the priority-operation counter, any
//! still-open speculative block, and the queue of blocks whose root hash has
//! not been computed yet.  This crate holds that restoration logic as pure,
//! verified functions over plain values; the caller performs the storage
//! reads and hands the results in as a [`types::StorageView`].

pub mod types;
pub mod tree_restore;
pub mod pending_block;
pub mod root_hash_jobs;
pub mod loaders;
pub mod init_params;
pub mod storage_check;
