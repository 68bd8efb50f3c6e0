use vstd::prelude::*;
use std::collections::HashMap;
use crate::types::{BlockInfo, Nft, NftRecord};

verus! {

broadcast use vstd::std_specs::hash::group_hash_axioms;

/// The block metadata stored for height `n`: the first entry carrying that
/// number, if any.
pub open spec fn block_info_for(blocks: Seq<BlockInfo>, n: u32) -> Option<BlockInfo>
    decreases blocks.len(),
{
    if blocks.len() == 0 {
        None
    } else if blocks[0].number == n {
        Some(blocks[0])
    } else {
        block_info_for(blocks.skip(1), n)
    }
}

/// The cumulative processed-priority-operation count as of height `n`: the
/// counter stored with block `n`, or 0 when that height was never committed.
pub open spec fn priority_op_count(blocks: Seq<BlockInfo>, n: u32) -> u64 {
    match block_info_for(blocks, n) {
        Some(b) => b.processed_priority_ops,
        None => 0,
    }
}

/// The committed token registry as of height `n`: every record committed at
/// or below `n`, keyed by token id, later records overwriting earlier ones.
pub open spec fn nft_snapshot(records: Seq<NftRecord>, n: u32) -> Map<u32, Nft>
    decreases records.len(),
{
    if records.len() == 0 {
        Map::empty()
    } else {
        let m = nft_snapshot(records.drop_last(), n);
        let rec = records.last();
        if rec.committed_at_block <= n {
            m.insert(rec.token.id, rec.token)
        } else {
            m
        }
    }
}

/// Scanning past a prefix with no match for `n` does not change which block
/// metadata is found.
proof fn lemma_block_info_for_skip(blocks: Seq<BlockInfo>, n: u32, i: int)
    requires
        0 <= i <= blocks.len(),
        forall|j: int| 0 <= j < i ==> #[trigger] blocks[j].number != n,
    ensures
        block_info_for(blocks, n) == block_info_for(blocks.skip(i), n),
    decreases i,
{
    if i > 0 {
        assert(blocks[0].number != n);
        assert(blocks.skip(1).skip(i - 1) =~= blocks.skip(i));
        assert forall|j: int| 0 <= j < i - 1 implies #[trigger] blocks.skip(1)[j].number != n by {
            assert(blocks.skip(1)[j] == blocks[j + 1]);
        }
        lemma_block_info_for_skip(blocks.skip(1), n, i - 1);
    } else {
        assert(blocks.skip(0) =~= blocks);
    }
}

/// Look up the cumulative processed-priority-operation count recorded for
/// `block_number`, or 0 when no such block was ever committed.  Committed
/// blocks are numbered from 1, so height 0 (nothing ever committed) always
/// yields 0.
pub fn unprocessed_priority_op_id(blocks: &Vec<BlockInfo>, block_number: u32) -> (r: u64)
    requires
        forall|i: int| 0 <= i < blocks@.len() ==> #[trigger] blocks@[i].number >= 1,
    ensures
        r == priority_op_count(blocks@, block_number),
        block_number == 0 ==> r == 0,
{
    let mut i: usize = 0;
    while i < blocks.len()
        invariant
            i <= blocks.len(),
            forall|j: int| 0 <= j < blocks@.len() ==> #[trigger] blocks@[j].number >= 1,
            forall|j: int| 0 <= j < i ==> blocks@[j].number != block_number,
        decreases blocks.len() - i,
    {
        if blocks[i].number == block_number {
            proof {
                lemma_block_info_for_skip(blocks@, block_number, i as int);
                assert(blocks@.skip(i as int)[0] == blocks@[i as int]);
            }
            return blocks[i].processed_priority_ops;
        }
        i = i + 1;
    }
    proof {
        lemma_block_info_for_skip(blocks@, block_number, blocks@.len() as int);
    }
    0
}

/// Build the token registry snapshot as of `block_number`: keep every
/// record committed at or below that height, keyed by token id.
pub fn load_nft_tokens(records: &Vec<NftRecord>, block_number: u32) -> (r: HashMap<u32, Nft>)
    ensures
        r@ == nft_snapshot(records@, block_number),
{
    let mut nfts: HashMap<u32, Nft> = HashMap::new();
    let mut i: usize = 0;
    while i < records.len()
        invariant
            i <= records.len(),
            nfts@ == nft_snapshot(records@.take(i as int), block_number),
        decreases records.len() - i,
    {
        let rec = records[i];
        proof {
            assert(records@.take(i + 1).drop_last() =~= records@.take(i as int));
            assert(records@.take(i + 1).last() == rec);
        }
        if rec.committed_at_block <= block_number {
            nfts.insert(rec.token.id, rec.token);
        }
        i = i + 1;
    }
    proof {
        assert(records@.take(records@.len() as int) =~= records@);
    }
    nfts
}

} // verus!
