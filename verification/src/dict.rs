use vstd::prelude::*;

verus! {

/// A dictionary smaller than this is never swept.
pub const VACUUM_SKIP_SIZE: usize = 8;

/// Whether an opportunistic eviction sweep is due: the dictionary is past
/// the minimum size worth sweeping and has grown by at least half again
/// since the last sweep.
pub fn vacuum_due(len: usize, last_vacuumed_size: usize) -> (r: bool)
    ensures
        r == (len > VACUUM_SKIP_SIZE && 2 * len > 3 * last_vacuumed_size),
{
    len > VACUUM_SKIP_SIZE && (len as u128) * 2 > (last_vacuumed_size as u128) * 3
}

} // verus!
