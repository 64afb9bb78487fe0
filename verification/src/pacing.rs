//! Pacing of the UI timer that drives the engine (one tick every ~16 ms): the engine's GL context
//! is set up a few ticks after the loop starts, and the engine is spun at full rate while there is
//! activity, dropping to one tick in [`IDLE_SPIN_EVERY`] once idle; a wake-up (engine work or user
//! input) restores the full rate at once.

use vstd::prelude::*;

verus! {

/// Ticks to wait before setting up the engine's GL context (lets the UI renderer settle).
pub const INIT_DELAY_TICKS: u32 = 8;

/// Ticks without activity before the loop slows down (about half a second).
pub const IDLE_ACTIVE_TICKS: u32 = 30;

/// Once idle, the engine is spun on one tick out of this many.
pub const IDLE_SPIN_EVERY: u32 = 6;

/// Whether a tick before the engine exists only waits: the count of ticks seen so far, and the
/// count after this tick.
pub fn init_tick(seen: u32) -> (r: (bool, u32))
    requires
        seen < u32::MAX,
    ensures
        r.0 == (seen < INIT_DELAY_TICKS),
        r.1 == seen + 1,
{
    (seen < INIT_DELAY_TICKS, seen + 1)
}

/// Whether the tick is skipped (the engine is not spun): not woken, idle for long enough, and not
/// the idle tick on which the engine is spun.
pub open spec fn skips(woken: bool, idle: u32) -> bool {
    !woken && idle >= IDLE_ACTIVE_TICKS && idle % IDLE_SPIN_EVERY != 0
}

/// Whether this tick is skipped (see [`skips`]).
pub fn skip_tick(woken: bool, idle: u32) -> (skip: bool)
    ensures
        skip == skips(woken, idle),
{
    !woken && idle >= IDLE_ACTIVE_TICKS && idle % IDLE_SPIN_EVERY != 0
}

/// The idle count after a tick: back to 0 when the engine was woken or produced a frame, otherwise
/// one more (saturating).
pub fn idle_after_tick(woken: bool, produced: bool, idle: u32) -> (next: u32)
    ensures
        woken || produced ==> next == 0,
        !(woken || produced) ==> next == if idle < u32::MAX { idle + 1 } else { u32::MAX as int },
{
    if woken || produced {
        0
    } else {
        idle.saturating_add(1)
    }
}

/// The idle count after a skipped tick: one more (saturating).
pub fn idle_after_skip(idle: u32) -> (next: u32)
    ensures
        next == if idle < u32::MAX { idle + 1 } else { u32::MAX as int },
{
    idle.saturating_add(1)
}

/// A woken tick is never skipped, and while the loop has been active recently no tick is skipped.
pub proof fn active_ticks_spin(woken: bool, idle: u32)
    requires
        woken || idle < IDLE_ACTIVE_TICKS,
    ensures
        !skips(woken, idle),
{
}

/// An idle loop still spins the engine at least once in every [`IDLE_SPIN_EVERY`] consecutive
/// ticks.
pub proof fn idle_loop_still_spins(idle: u32)
    requires
        idle <= u32::MAX - IDLE_SPIN_EVERY,
    ensures
        exists|k: u32| idle <= k < idle + IDLE_SPIN_EVERY && !#[trigger] skips(false, k),
{
    let r = idle % IDLE_SPIN_EVERY;
    let k: u32 = if r == 0 { idle } else { (idle + (IDLE_SPIN_EVERY - r)) as u32 };
    assert(k % IDLE_SPIN_EVERY == 0);
    assert(!skips(false, k));
}

} // verus!
