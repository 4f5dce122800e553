//! Simulation-level bookkeeping: the deterministic core of a simulation and
//! the spawn guard.

use crate::rng::Lcg;
use vstd::prelude::*;

verus! {

/// Seed of a fresh simulation's generator.
pub const INITIAL_SEED: u64 = 0x1234_5678_9abc_def0;

/// First entity identifier a fresh simulation hands out.
pub const INITIAL_ENTITY_ID: u32 = 1;

/// The largest number of bodies a single spawn call may create.
pub const MAX_SPAWN_COUNT: u32 = 10000;

/// The deterministic core a simulation owns besides its world: the seeded
/// generator and the next entity identifier.
pub struct SimCore {
    pub rng: Lcg,
    pub next_id: u32,
}

impl SimCore {
    /// The core of a fresh simulation: the generator seeded with
    /// `INITIAL_SEED` and identifiers starting at `INITIAL_ENTITY_ID`.
    pub fn new() -> (core: SimCore)
        ensures
            core.rng.state == INITIAL_SEED,
            core.next_id == INITIAL_ENTITY_ID,
    {
        SimCore { rng: Lcg::new(INITIAL_SEED), next_id: INITIAL_ENTITY_ID }
    }

    /// Hands out the next entity identifier and advances the counter,
    /// saturating at the largest identifier.
    pub fn next_entity_id(&mut self) -> (id: u32)
        ensures
            id == old(self).next_id,
            final(self).next_id == (if old(self).next_id == u32::MAX {
                u32::MAX as int
            } else {
                old(self).next_id + 1
            }),
            final(self).rng == old(self).rng,
    {
        let id = self.next_id;
        self.next_id = self.next_id.saturating_add(1);
        id
    }
}

/// Puts the core back into the state of a fresh simulation, so that a fixed
/// call sequence after a reset reproduces the same draws and identifiers.
pub fn reset_simulation(core: &mut SimCore)
    ensures
        final(core).rng.state == INITIAL_SEED,
        final(core).next_id == INITIAL_ENTITY_ID,
{
    *core = SimCore::new();
}

/// Clamps a spawn request to at most `MAX_SPAWN_COUNT` bodies; smaller
/// requests pass through unchanged.
pub fn clamp_spawn_count(count: u32) -> (r: u32)
    ensures
        r == (if count < MAX_SPAWN_COUNT {
            count as int
        } else {
            MAX_SPAWN_COUNT as int
        }),
{
    if count < MAX_SPAWN_COUNT {
        count
    } else {
        MAX_SPAWN_COUNT
    }
}

} // verus!
