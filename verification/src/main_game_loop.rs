//! Shutting the game down.
use vstd::prelude::*;

verus! {

/// Tells the chunk generation thread to stop: clears the flag it checks
/// before each round of work.
pub fn clean_up(continue_running: &mut bool)
    ensures
        !*final(continue_running),
{
    *continue_running = false;
}

} // verus!
