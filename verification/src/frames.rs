//! What a round of the screen does: how much input it takes in, and whether it lets go of what
//! is past and draws.
use vstd::prelude::*;

verus! {

/// How many events of the keyboard and the mouse are taken in at a time.
pub const MAX_INPUT_EVENTS_PER_FRAME: usize = 32;

/// The nanoseconds after which what is past is let go of again.
pub const CACHE_PRUNE_INTERVAL: u64 = 30_000_000_000;

/// Whether a round that has taken in so many events may take in another.
pub fn takes_input(taken: usize) -> (r: bool)
    ensures
        r == (taken < MAX_INPUT_EVENTS_PER_FRAME),
{
    taken < MAX_INPUT_EVENTS_PER_FRAME
}

/// Whether a round draws the screen, because that is owed or something changed, and whether it
/// lets go of what is past, so many nanoseconds after that was done. Where letting go changes
/// something, the round draws all the same.
pub fn frame_step(needs_draw: bool, changed: bool, since_prune: u64) -> (r: (bool, bool))
    ensures
        r == (needs_draw || changed, since_prune >= CACHE_PRUNE_INTERVAL),
{
    (needs_draw || changed, since_prune >= CACHE_PRUNE_INTERVAL)
}

} // verus!
