use vstd::prelude::*;
use crate::types::{PendingBlock, RestoreError};

verus! {

/// A persisted pending block whose number skips past `last_block_number + 1`
/// implies a missing intermediate block: a data-integrity violation.
pub open spec fn pending_block_inconsistent(
    pending: Option<PendingBlock>,
    last_block_number: u32,
) -> bool {
    match pending {
        Some(p) => p.number > last_block_number + 1,
        None => false,
    }
}

/// What validation leaves of a persisted pending block at a given restored
/// height: kept only when it is the immediate successor.
pub open spec fn pending_block_outcome(
    pending: Option<PendingBlock>,
    last_block_number: u32,
) -> Option<PendingBlock> {
    match pending {
        Some(p) => if p.number == last_block_number + 1 {
            Some(p)
        } else {
            None
        },
        None => None,
    }
}

/// Decide the fate of a persisted pending block given the restored height:
/// its number must be exactly `last_block_number + 1` to be kept.  A number
/// at or below the restored height is the expected sealing/restart race and
/// is discarded silently; a number further ahead is an integrity violation
/// and fails restoration.
pub fn load_pending_block(pending: Option<PendingBlock>, last_block_number: u32) -> (r: Result<
    Option<PendingBlock>,
    RestoreError,
>)
    ensures
        pending_block_inconsistent(pending, last_block_number) ==> r == Err::<
            Option<PendingBlock>,
            RestoreError,
        >(RestoreError::DataConsistencyError),
        !pending_block_inconsistent(pending, last_block_number) ==> r == Ok::<
            Option<PendingBlock>,
            RestoreError,
        >(pending_block_outcome(pending, last_block_number)),
{
    match pending {
        None => Ok(None),
        Some(p) => {
            if p.number <= last_block_number {
                // The node may have sealed full blocks after persisting this
                // speculative one; the stored pending block is then stale and
                // is ignored.
                Ok(None)
            } else if p.number == last_block_number + 1 {
                Ok(Some(p))
            } else {
                // The pending block claims to follow a block that was never
                // applied: fail rather than operate on a gapped ledger.
                Err(RestoreError::DataConsistencyError)
            }
        },
    }
}

} // verus!
