use vstd::prelude::*;
use crate::types::{BlockUpdates, LeafUpdate, StorageView};
use crate::tree_restore::{blocks_ascending, flat_updates, updates_consistent};
use crate::init_params::storage_well_formed;

verus! {

/// Strictly ascending adjacent pairs make the whole run strictly ascending.
proof fn lemma_adjacent_ascending(blocks: Seq<BlockUpdates>, i: int, j: int)
    requires
        forall|k: int| 0 <= k < blocks.len() - 1 ==> #[trigger] blocks[k].block < blocks[k
            + 1].block,
        0 <= i < j < blocks.len(),
    ensures
        blocks[i].block < blocks[j].block,
    decreases j - i,
{
    if i + 1 < j {
        lemma_adjacent_ascending(blocks, i, j - 1);
        assert(blocks[j - 1].block < blocks[j].block);
    } else {
        assert(blocks[i].block < blocks[i + 1].block);
    }
}

/// Decide whether the persisted per-block updates come in strictly
/// ascending block order.
fn check_blocks_ascending(blocks: &Vec<BlockUpdates>) -> (b: bool)
    ensures
        b == blocks_ascending(blocks@),
{
    if blocks.len() == 0 {
        return true;
    }
    let mut k: usize = 0;
    while k < blocks.len() - 1
        invariant
            blocks@.len() > 0,
            k <= blocks@.len() - 1,
            forall|m: int| 0 <= m < k ==> #[trigger] blocks@[m].block < blocks@[m + 1].block,
        decreases blocks.len() - k,
    {
        if blocks[k].block >= blocks[k + 1].block {
            proof {
                assert(!(blocks@[k as int].block < blocks@[k + 1].block));
            }
            return false;
        }
        k = k + 1;
    }
    proof {
        assert forall|i: int, j: int|
            0 <= i < j < blocks@.len() implies #[trigger] blocks@[i].block
            < #[trigger] blocks@[j].block by {
            lemma_adjacent_ascending(blocks@, i, j);
        }
    }
    true
}

/// An owned flattening of all leaf updates, in application order.
fn flatten_updates(blocks: &Vec<BlockUpdates>) -> (r: Vec<LeafUpdate>)
    ensures
        r@ == flat_updates(blocks@),
{
    let mut flat: Vec<LeafUpdate> = Vec::new();
    let mut bi: usize = 0;
    while bi < blocks.len()
        invariant
            bi <= blocks.len(),
            flat@ == flat_updates(blocks@.take(bi as int)),
        decreases blocks.len() - bi,
    {
        let block_updates = &blocks[bi];
        let ghost prefix = flat_updates(blocks@.take(bi as int));
        let ghost current = block_updates.updates@;
        let mut ui: usize = 0;
        while ui < block_updates.updates.len()
            invariant
                ui <= block_updates.updates.len(),
                block_updates == blocks@[bi as int],
                current == block_updates.updates@,
                flat@ == prefix + current.take(ui as int),
            decreases block_updates.updates.len() - ui,
        {
            flat.push(block_updates.updates[ui]);
            proof {
                assert(current.take(ui + 1).drop_last() =~= current.take(ui as int));
                assert(flat@ =~= prefix + current.take(ui + 1));
            }
            ui = ui + 1;
        }
        proof {
            assert(current.take(current.len() as int) =~= current);
            assert(blocks@.take(bi + 1).drop_last() =~= blocks@.take(bi as int));
            assert(blocks@.take(bi + 1).last() == blocks@[bi as int]);
            assert(flat@ == flat_updates(blocks@.take(bi + 1)));
        }
        bi = bi + 1;
    }
    proof {
        assert(blocks@.take(blocks@.len() as int) =~= blocks@);
    }
    flat
}

/// Decide whether an update stream binds ids and addresses one to one.
fn check_updates_consistent(flat: &Vec<LeafUpdate>) -> (b: bool)
    ensures
        b == updates_consistent(flat@),
{
    let mut i: usize = 0;
    while i < flat.len()
        invariant
            i <= flat.len(),
            forall|m: int, n: int|
                0 <= m < i && 0 <= n < flat@.len() ==> ((#[trigger] flat@[m].account_id
                    == #[trigger] flat@[n].account_id) <==> (flat@[m].account.address
                    == flat@[n].account.address)),
        decreases flat.len() - i,
    {
        let mut j: usize = 0;
        while j < flat.len()
            invariant
                i < flat@.len(),
                j <= flat@.len(),
                forall|m: int, n: int|
                    0 <= m < i && 0 <= n < flat@.len() ==> ((#[trigger] flat@[m].account_id
                        == #[trigger] flat@[n].account_id) <==> (flat@[m].account.address
                        == flat@[n].account.address)),
                forall|n: int|
                    0 <= n < j ==> ((flat@[i as int].account_id == #[trigger] flat@[n].account_id)
                        <==> (flat@[i as int].account.address == flat@[n].account.address)),
            decreases flat.len() - j,
        {
            let same_id = flat[i].account_id == flat[j].account_id;
            let same_addr = flat[i].account.address == flat[j].account.address;
            if same_id != same_addr {
                proof {
                    assert(!((flat@[i as int].account_id == flat@[j as int].account_id) <==> (
                    flat@[i as int].account.address == flat@[j as int].account.address)));
                }
                return false;
            }
            j = j + 1;
        }
        i = i + 1;
    }
    true
}

/// Decide, by plain scans, whether the storage contents are something a
/// healthy node could have written: the precondition of restoration, made
/// executable so an unverified caller can test it before restoring.
pub fn check_storage_well_formed(storage: &StorageView) -> (b: bool)
    ensures
        b == storage_well_formed(*storage),
{
    if !check_blocks_ascending(&storage.account_updates) {
        return false;
    }
    let mut i: usize = 0;
    while i < storage.account_updates.len()
        invariant
            i <= storage.account_updates@.len(),
            forall|m: int|
                0 <= m < i ==> #[trigger] storage.account_updates@[m].block >= 1,
        decreases storage.account_updates.len() - i,
    {
        if storage.account_updates[i].block < 1 {
            return false;
        }
        i = i + 1;
    }
    let flat = flatten_updates(&storage.account_updates);
    if !check_updates_consistent(&flat) {
        return false;
    }
    match storage.incomplete_range {
        Some(bounds) => {
            if bounds.0 > bounds.1 {
                return false;
            }
        },
        None => {},
    }
    let mut k: usize = 0;
    while k < storage.blocks.len()
        invariant
            k <= storage.blocks@.len(),
            forall|m: int| 0 <= m < k ==> #[trigger] storage.blocks@[m].number >= 1,
        decreases storage.blocks.len() - k,
    {
        if storage.blocks[k].number < 1 {
            return false;
        }
        k = k + 1;
    }
    true
}

} // verus!
