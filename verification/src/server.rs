//! The pacing of the update loops: how long to pause after a round.

use vstd::prelude::*;

verus! {

/// The pause in seconds after a round, and the flag for the next round:
/// the short pause after a round that found nothing new, the long pause
/// (and the flag cleared) after one that did.
pub fn wait_plan(done_before: bool, wait: u8, wait_long: u16) -> (r: (u64, bool))
    ensures
        r == if !done_before { (wait as u64, done_before) } else { (wait_long as u64, false) },
{
    if !done_before {
        (wait as u64, done_before)
    } else {
        (wait_long as u64, false)
    }
}

} // verus!
