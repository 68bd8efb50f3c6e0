use vstd::prelude::*;
use crate::types::{BlockDiff, BlockRootHashJob, LeafUpdate, RestoreError};

verus! {

/// The diff stored for block `b`: the first entry carrying that block
/// number, if any.
pub open spec fn diff_for(diffs: Seq<BlockDiff>, b: u32) -> Option<Seq<LeafUpdate>>
    decreases diffs.len(),
{
    if diffs.len() == 0 {
        None
    } else if diffs[0].block == b {
        Some(diffs[0].updates@)
    } else {
        diff_for(diffs.skip(1), b)
    }
}

/// Some block between `block_from` and `block_to` inclusive lacks a stored
/// diff.
pub open spec fn missing_diff_in(block_from: u32, block_to: u32, diffs: Seq<BlockDiff>) -> bool {
    exists|b: u32| block_from <= b <= block_to && #[trigger] diff_for(diffs, b) is None
}

/// An incomplete range whose declared interior lacks a stored diff for some
/// block: storage corruption, since the range itself was read as sealed.
pub open spec fn range_has_missing_diff(
    incomplete_range: Option<(u32, u32)>,
    diffs: Seq<BlockDiff>,
) -> bool {
    match incomplete_range {
        Some((block_from, block_to)) => missing_diff_in(block_from, block_to, diffs),
        None => false,
    }
}

/// The job queue owed for an incomplete range whose diffs are all present:
/// one job per block, ascending, each carrying that block's stored diff.
pub open spec fn jobs_complete_for_range(
    block_from: u32,
    block_to: u32,
    diffs: Seq<BlockDiff>,
    jobs: Seq<BlockRootHashJob>,
) -> bool {
    jobs.len() == block_to - block_from + 1 && forall|i: int|
        0 <= i < jobs.len() ==> #[trigger] jobs[i].block == block_from + i && jobs[i].updates@
            == diff_for(diffs, (block_from + i) as u32)->Some_0
}

/// A complete job queue is strictly ascending: no gaps, no duplicates, one
/// job per block of the range in order.
pub proof fn lemma_jobs_strictly_ascending(
    block_from: u32,
    block_to: u32,
    diffs: Seq<BlockDiff>,
    jobs: Seq<BlockRootHashJob>,
)
    requires
        jobs_complete_for_range(block_from, block_to, diffs, jobs),
    ensures
        forall|i: int, j: int|
            0 <= i < j < jobs.len() ==> #[trigger] jobs[i].block < #[trigger] jobs[j].block,
{
    assert forall|i: int, j: int|
        0 <= i < j < jobs.len() implies #[trigger] jobs[i].block < #[trigger] jobs[j].block by {
        assert(jobs[i].block == block_from + i);
        assert(jobs[j].block == block_from + j);
    }
}

/// Scanning past a prefix with no match for `b` does not change which diff
/// is found.
proof fn lemma_diff_for_skip(diffs: Seq<BlockDiff>, b: u32, i: int)
    requires
        0 <= i <= diffs.len(),
        forall|j: int| 0 <= j < i ==> #[trigger] diffs[j].block != b,
    ensures
        diff_for(diffs, b) == diff_for(diffs.skip(i), b),
    decreases i,
{
    if i > 0 {
        assert(diffs[0].block != b);
        assert(diffs.skip(1).skip(i - 1) =~= diffs.skip(i));
        assert forall|j: int| 0 <= j < i - 1 implies #[trigger] diffs.skip(1)[j].block != b by {
            assert(diffs.skip(1)[j] == diffs[j + 1]);
        }
        lemma_diff_for_skip(diffs.skip(1), b, i - 1);
    } else {
        assert(diffs.skip(0) =~= diffs);
    }
}

/// Look up the stored diff for block `b` by a front-to-back scan.
fn find_diff<'a>(diffs: &'a Vec<BlockDiff>, b: u32) -> (r: Option<&'a Vec<LeafUpdate>>)
    ensures
        match r {
            Some(updates) => diff_for(diffs@, b) == Some(updates@),
            None => diff_for(diffs@, b) is None,
        },
{
    let mut i: usize = 0;
    while i < diffs.len()
        invariant
            i <= diffs.len(),
            forall|j: int| 0 <= j < i ==> #[trigger] diffs@[j].block != b,
        decreases diffs.len() - i,
    {
        if diffs[i].block == b {
            proof {
                lemma_diff_for_skip(diffs@, b, i as int);
                assert(diffs@.skip(i as int)[0] == diffs@[i as int]);
            }
            return Some(&diffs[i].updates);
        }
        i = i + 1;
    }
    proof {
        lemma_diff_for_skip(diffs@, b, diffs@.len() as int);
    }
    None
}

/// An owned copy of a diff, element for element.
fn copy_updates(updates: &Vec<LeafUpdate>) -> (r: Vec<LeafUpdate>)
    ensures
        r@ == updates@,
{
    let mut r: Vec<LeafUpdate> = Vec::new();
    let mut i: usize = 0;
    while i < updates.len()
        invariant
            i <= updates.len(),
            r@ == updates@.take(i as int),
        decreases updates.len() - i,
    {
        r.push(updates[i]);
        proof {
            assert(updates@.take(i + 1).drop_last() =~= updates@.take(i as int));
            assert(r@ =~= updates@.take(i + 1));
        }
        i = i + 1;
    }
    proof {
        assert(updates@.take(updates@.len() as int) =~= updates@);
    }
    r
}

/// Reassemble the work queue of sealed-but-unhashed blocks.  Given the
/// inclusive incomplete range read from storage (or `None` when the hashing
/// worker had caught up), fetch every block's stored diff, ascending, and
/// package one job per block.  A missing diff inside the declared range
/// fails restoration: the range itself was read from storage as sealed, so
/// the diff's absence is corruption, not a race.
pub fn load_root_hash_jobs(incomplete_range: Option<(u32, u32)>, diffs: &Vec<BlockDiff>) -> (r:
    Result<Vec<BlockRootHashJob>, RestoreError>)
    requires
        match incomplete_range {
            Some((block_from, block_to)) => block_from <= block_to,
            None => true,
        },
    ensures
        match incomplete_range {
            None => r matches Ok(jobs) && jobs@ == Seq::<BlockRootHashJob>::empty(),
            Some((block_from, block_to)) => {
                if missing_diff_in(block_from, block_to, diffs@) {
                    r == Err::<Vec<BlockRootHashJob>, RestoreError>(
                        RestoreError::DataConsistencyError,
                    )
                } else {
                    r matches Ok(jobs) && jobs_complete_for_range(
                        block_from,
                        block_to,
                        diffs@,
                        jobs@,
                    )
                }
            },
        },
{
    match incomplete_range {
        None => Ok(Vec::new()),
        Some(bounds) => {
            let block_from: u32 = bounds.0;
            let block_to: u32 = bounds.1;
            let count: u64 = (block_to as u64) - (block_from as u64) + 1;
            let mut jobs: Vec<BlockRootHashJob> = Vec::new();
            let mut i: u64 = 0;
            while i < count
                invariant
                    incomplete_range == (Some::<(u32, u32)>((block_from, block_to))),
                    block_from <= block_to,
                    count == block_to - block_from + 1,
                    i <= count,
                    jobs@.len() == i,
                    forall|j: int|
                        0 <= j < i ==> #[trigger] jobs@[j].block == block_from + j
                            && jobs@[j].updates@ == diff_for(diffs@, (block_from + j) as u32)->Some_0
                            && diff_for(diffs@, (block_from + j) as u32) is Some,
                decreases count - i,
            {
                let b: u32 = ((block_from as u64) + i) as u32;
                proof {
                    assert((block_from as u64) + i <= u32::MAX as u64);
                    assert(b == block_from + i);
                }
                match find_diff(diffs, b) {
                    None => {
                        proof {
                            assert(block_from <= b <= block_to && diff_for(diffs@, b) is None);
                            assert(missing_diff_in(block_from, block_to, diffs@));
                        }
                        return Err(RestoreError::DataConsistencyError);
                    },
                    Some(updates) => {
                        jobs.push(BlockRootHashJob { block: b, updates: copy_updates(updates) });
                    },
                }
                i = i + 1;
            }
            proof {
                assert forall|b: u32|
                    block_from <= b <= block_to implies diff_for(diffs@, b) is Some by {
                    let j = b - block_from;
                    assert(jobs@[j].block == block_from + j);
                    assert((block_from + j) as u32 == b);
                }
            }
            Ok(jobs)
        },
    }
}

} // verus!
