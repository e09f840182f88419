//! The integer part of the system-metrics report; the percentages are
//! floating point and are computed by the caller.
use vstd::prelude::*;

verus! {

/// The used space of a disk: its total less what is available, or zero
/// where the system reports more available than total.
pub fn disk_used_space(total: u64, available: u64) -> (r: u64)
    ensures
        available <= total ==> r == total - available,
        available > total ==> r == 0,
{
    if available <= total {
        total - available
    } else {
        0
    }
}

} // verus!
