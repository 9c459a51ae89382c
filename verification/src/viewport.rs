//! Scrolling.
use vstd::prelude::*;

verus! {

/// The scroll position that shows as much of `total` lines as `rows` rows can.
pub open spec fn clamped(scroll: nat, total: nat, rows: nat) -> nat {
    let last = if total > rows {
        (total - rows) as nat
    } else {
        0
    };
    if scroll < last {
        scroll
    } else {
        last
    }
}

/// The scroll position, moved back so that no row below the last line is shown in vain.
pub fn clamp_scroll(scroll: usize, total: usize, rows: usize) -> (r: usize)
    ensures
        r == clamped(scroll as nat, total as nat, rows as nat),
{
    let last: usize = if total > rows {
        total - rows
    } else {
        0
    };
    if scroll < last {
        scroll
    } else {
        last
    }
}

} // verus!
