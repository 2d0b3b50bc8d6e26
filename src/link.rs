//! Sizing the buffer that receives a symbolic link's target.
//!
//! `readlinkat` truncates a target that does not fit and then fills the
//! whole buffer, so a target is known to be complete only when it leaves
//! room to spare.
use vstd::prelude::*;

verus! {

/// The capacity that first receives a link target.
pub const LINK_BUF_START: usize = 256;

/// The next capacity after a buffer of `cap` bytes came back full: twice as
/// large, at least one byte, at most `usize::MAX`.
pub open spec fn grown(cap: usize) -> usize {
    if cap == 0 {
        1
    } else if cap <= usize::MAX / 2 {
        (2 * cap) as usize
    } else {
        usize::MAX
    }
}

/// After `readlinkat` wrote `len` bytes into a buffer of `cap` bytes: `None`
/// when the target is complete, or the capacity to read it again with.
pub fn next_link_capacity(len: usize, cap: usize) -> (r: Option<usize>)
    ensures
        len < cap ==> r is None,
        len >= cap ==> r == Some(grown(cap)),
{
    if len < cap {
        None
    } else if cap == 0 {
        Some(1)
    } else if cap <= usize::MAX / 2 {
        Some(2 * cap)
    } else {
        Some(usize::MAX)
    }
}

} // verus!
