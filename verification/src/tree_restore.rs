use vstd::prelude::*;
use std::collections::HashMap;
use crate::types::{Account, BlockUpdates, LeafUpdate, ACCOUNT_TREE_DEPTH};

verus! {

broadcast use vstd::std_specs::hash::group_hash_axioms;

/// The sparse account tree, modelled by its populated leaves: leaf `id`
/// holds the serialized content of one account.  The Merkle hashing over the
/// leaves is out of scope here; restoration only needs which leaves are
/// populated and with what.
#[derive(Debug)]
pub struct AccountTree {
    pub depth: usize,
    pub leaves: HashMap<u32, Account>,
}

impl AccountTree {
    /// An empty tree of the given depth.
    pub fn new(depth: usize) -> (r: Self)
        ensures
            r.depth == depth,
            r.leaves@ == Map::<u32, Account>::empty(),
    {
        AccountTree { depth, leaves: HashMap::new() }
    }

    /// Populate (or overwrite) the leaf for `id` with `account`.
    pub fn insert(&mut self, id: u32, account: Account)
        ensures
            final(self).depth == old(self).depth,
            final(self).leaves@ == old(self).leaves@.insert(id, account),
    {
        self.leaves.insert(id, account);
    }

    /// The content of leaf `id`, if that leaf is populated.
    pub fn get(&self, id: u32) -> (r: Option<&Account>)
        ensures
            match r {
                Some(a) => self.leaves@.contains_key(id) && *a == self.leaves@[id],
                None => !self.leaves@.contains_key(id),
            },
    {
        self.leaves.get(&id)
    }
}

/// All leaf updates of a run of blocks, flattened in application order.
pub open spec fn flat_updates(blocks: Seq<BlockUpdates>) -> Seq<LeafUpdate>
    decreases blocks.len(),
{
    if blocks.len() == 0 {
        Seq::empty()
    } else {
        flat_updates(blocks.drop_last()) + blocks.last().updates@
    }
}

/// The populated-leaf map that replaying `s` in order produces: each update
/// overwrites the leaf for its account id.
pub open spec fn replayed_leaves(s: Seq<LeafUpdate>) -> Map<u32, Account>
    decreases s.len(),
{
    if s.len() == 0 {
        Map::empty()
    } else {
        replayed_leaves(s.drop_last()).insert(s.last().account_id, s.last().account)
    }
}

/// The address index that replaying `s` in order produces: each update
/// records its account's address as mapping to its account id.
pub open spec fn replayed_index(s: Seq<LeafUpdate>) -> Map<u64, u32>
    decreases s.len(),
{
    if s.len() == 0 {
        Map::empty()
    } else {
        replayed_index(s.drop_last()).insert(s.last().account.address, s.last().account_id)
    }
}

/// The persisted updates come in block order: strictly ascending block
/// numbers.
pub open spec fn blocks_ascending(blocks: Seq<BlockUpdates>) -> bool {
    forall|i: int, j: int|
        0 <= i < j < blocks.len() ==> #[trigger] blocks[i].block < #[trigger] blocks[j].block
}

/// A ledger's update stream binds ids and addresses one to one: across the
/// whole stream, two updates touch the same account id exactly when they
/// carry the same address (an account's address never changes, and no two
/// accounts share an address).
pub open spec fn updates_consistent(s: Seq<LeafUpdate>) -> bool {
    forall|i: int, j: int|
        0 <= i < s.len() && 0 <= j < s.len() ==> ((#[trigger] s[i].account_id
            == #[trigger] s[j].account_id) <==> (s[i].account.address == s[j].account.address))
}

/// Exact bijection between the tree's populated leaves and the address
/// index: every populated leaf's address maps back to that leaf's id, and
/// every indexed address points at a populated leaf carrying that address.
pub open spec fn tree_index_bijective(leaves: Map<u32, Account>, index: Map<u64, u32>) -> bool {
    (forall|id: u32| #[trigger]
        leaves.contains_key(id) ==> index.contains_key(leaves[id].address)
            && index[leaves[id].address] == id) && (forall|addr: u64| #[trigger]
        index.contains_key(addr) ==> leaves.contains_key(index[addr])
            && leaves[index[addr]].address == addr)
}

/// The highest block whose updates a replay of `blocks` fully applied:
/// the last block of the run, or 0 when storage held no updates.
pub open spec fn last_applied_block(blocks: Seq<BlockUpdates>) -> u32 {
    if blocks.len() == 0 {
        0u32
    } else {
        blocks.last().block
    }
}

/// Every entry of the replayed maps originates in some update of the stream.
proof fn lemma_replay_origin(s: Seq<LeafUpdate>)
    ensures
        forall|id: u32| #[trigger]
            replayed_leaves(s).contains_key(id) ==> exists|i: int|
                0 <= i < s.len() && s[i].account_id == id && s[i].account == replayed_leaves(s)[id],
        forall|addr: u64| #[trigger]
            replayed_index(s).contains_key(addr) ==> exists|i: int|
                0 <= i < s.len() && s[i].account.address == addr && s[i].account_id
                    == replayed_index(s)[addr],
    decreases s.len(),
{
    if s.len() == 0 {
    } else {
        let t = s.drop_last();
        let u = s.last();
        let n = s.len() - 1;
        lemma_replay_origin(t);
        assert forall|id: u32| #[trigger]
            replayed_leaves(s).contains_key(id) implies exists|i: int|
            0 <= i < s.len() && s[i].account_id == id && s[i].account
                == replayed_leaves(s)[id] by {
            if id == u.account_id {
                assert(s[n].account_id == id && s[n].account == replayed_leaves(s)[id]);
            } else {
                assert(replayed_leaves(t).contains_key(id));
                let i = choose|i: int|
                    0 <= i < t.len() && t[i].account_id == id && t[i].account
                        == replayed_leaves(t)[id];
                assert(s[i] == t[i]);
                assert(replayed_leaves(s)[id] == replayed_leaves(t)[id]);
            }
        }
        assert forall|addr: u64| #[trigger]
            replayed_index(s).contains_key(addr) implies exists|i: int|
            0 <= i < s.len() && s[i].account.address == addr && s[i].account_id
                == replayed_index(s)[addr] by {
            if addr == u.account.address {
                assert(s[n].account.address == addr && s[n].account_id == replayed_index(s)[addr]);
            } else {
                assert(replayed_index(t).contains_key(addr));
                let i = choose|i: int|
                    0 <= i < t.len() && t[i].account.address == addr && t[i].account_id
                        == replayed_index(t)[addr];
                assert(s[i] == t[i]);
                assert(replayed_index(s)[addr] == replayed_index(t)[addr]);
            }
        }
    }
}

/// Replaying any consistent update stream leaves the populated-leaf map and
/// the address index in exact bijection: the two are built from the same
/// stream, and consistency rules out two ids sharing an address or one id
/// changing its address.
pub proof fn lemma_replay_bijective(s: Seq<LeafUpdate>)
    requires
        updates_consistent(s),
    ensures
        tree_index_bijective(replayed_leaves(s), replayed_index(s)),
    decreases s.len(),
{
    if s.len() == 0 {
    } else {
        let t = s.drop_last();
        let u = s.last();
        let n = s.len() - 1;
        assert forall|i: int, j: int|
            0 <= i < t.len() && 0 <= j < t.len() implies ((#[trigger] t[i].account_id
            == #[trigger] t[j].account_id) <==> (t[i].account.address
            == t[j].account.address)) by {
            assert(t[i] == s[i]);
            assert(t[j] == s[j]);
            assert((s[i].account_id == s[j].account_id) <==> (s[i].account.address
                == s[j].account.address));
        }
        lemma_replay_bijective(t);
        lemma_replay_origin(t);
        let lt = replayed_leaves(t);
        let it = replayed_index(t);
        let lm = replayed_leaves(s);
        let im = replayed_index(s);
        assert(lm == lt.insert(u.account_id, u.account));
        assert(im == it.insert(u.account.address, u.account_id));
        assert forall|id: u32| #[trigger]
            lm.contains_key(id) implies im.contains_key(lm[id].address) && im[lm[id].address]
            == id by {
            if id == u.account_id {
                assert(lm[id] == u.account);
                assert(im[u.account.address] == u.account_id);
            } else {
                assert(lt.contains_key(id));
                assert(lm[id] == lt[id]);
                let i = choose|i: int|
                    0 <= i < t.len() && t[i].account_id == id && t[i].account == lt[id];
                assert(s[i] == t[i]);
                assert((s[i].account_id == s[n].account_id) <==> (s[i].account.address
                    == s[n].account.address));
                assert(lt[id].address != u.account.address);
                assert(it.contains_key(lt[id].address) && it[lt[id].address] == id);
                assert(im[lm[id].address] == it[lt[id].address]);
            }
        }
        assert forall|addr: u64| #[trigger]
            im.contains_key(addr) implies lm.contains_key(im[addr]) && lm[im[addr]].address
            == addr by {
            if addr == u.account.address {
                assert(im[addr] == u.account_id);
                assert(lm[u.account_id] == u.account);
            } else {
                assert(it.contains_key(addr));
                assert(im[addr] == it[addr]);
                let i = choose|i: int|
                    0 <= i < t.len() && t[i].account.address == addr && t[i].account_id
                        == it[addr];
                assert(s[i] == t[i]);
                assert((s[i].account_id == s[n].account_id) <==> (s[i].account.address
                    == s[n].account.address));
                assert(it[addr] != u.account_id);
                assert(lt.contains_key(it[addr]) && lt[it[addr]].address == addr);
                assert(lm[im[addr]] == lt[it[addr]]);
            }
        }
    }
}

/// Replay every persisted leaf update, in block order, into a fresh tree of
/// protocol-fixed depth, recording each address/id pair in the index, and
/// report the highest block whose updates were fully applied (0 for empty
/// storage).
pub fn restore_tree(blocks: &Vec<BlockUpdates>) -> (r: (AccountTree, HashMap<u64, u32>, u32))
    requires
        blocks_ascending(blocks@),
    ensures
        r.0.depth == ACCOUNT_TREE_DEPTH,
        r.0.leaves@ == replayed_leaves(flat_updates(blocks@)),
        r.1@ == replayed_index(flat_updates(blocks@)),
        r.2 == last_applied_block(blocks@),
{
    let mut tree = AccountTree::new(ACCOUNT_TREE_DEPTH);
    let mut index: HashMap<u64, u32> = HashMap::new();
    let mut bi: usize = 0;
    while bi < blocks.len()
        invariant
            bi <= blocks.len(),
            tree.depth == ACCOUNT_TREE_DEPTH,
            tree.leaves@ == replayed_leaves(flat_updates(blocks@.take(bi as int))),
            index@ == replayed_index(flat_updates(blocks@.take(bi as int))),
        decreases blocks.len() - bi,
    {
        let block_updates = &blocks[bi];
        let ghost prefix = flat_updates(blocks@.take(bi as int));
        let ghost current = block_updates.updates@;
        let mut ui: usize = 0;
        while ui < block_updates.updates.len()
            invariant
                ui <= block_updates.updates.len(),
                block_updates == blocks@[bi as int],
                current == block_updates.updates@,
                tree.depth == ACCOUNT_TREE_DEPTH,
                tree.leaves@ == replayed_leaves(prefix + current.take(ui as int)),
                index@ == replayed_index(prefix + current.take(ui as int)),
            decreases block_updates.updates.len() - ui,
        {
            let u = block_updates.updates[ui];
            proof {
                assert((prefix + current.take(ui + 1)).drop_last() =~= prefix + current.take(
                    ui as int,
                ));
                assert((prefix + current.take(ui + 1)).last() == u);
            }
            tree.insert(u.account_id, u.account);
            index.insert(u.account.address, u.account_id);
            ui = ui + 1;
        }
        proof {
            assert(current.take(current.len() as int) =~= current);
            assert(blocks@.take(bi + 1).drop_last() =~= blocks@.take(bi as int));
            assert(blocks@.take(bi + 1).last() == blocks@[bi as int]);
            assert(flat_updates(blocks@.take(bi + 1)) == prefix + current);
        }
        bi = bi + 1;
    }
    proof {
        assert(blocks@.take(blocks@.len() as int) =~= blocks@);
    }
    let last_block: u32 = if blocks.len() == 0 {
        0
    } else {
        blocks[blocks.len() - 1].block
    };
    (tree, index, last_block)
}

} // verus!
