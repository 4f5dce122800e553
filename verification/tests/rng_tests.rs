use particle_sim::rng::Lcg;
use particle_sim::sim::{reset_simulation, SimCore, INITIAL_ENTITY_ID, INITIAL_SEED};

#[test]
fn lcg_golden_sequence() {
    let mut g = Lcg::new(0x1234_5678_9abc_def0);
    assert_eq!(g.next_u32(), 2379946563);
    assert_eq!(g.next_u32(), 1498474691);
    assert_eq!(g.next_u32(), 1916748052);
}

#[test]
fn lcg_seed_one_first_draw() {
    let mut g = Lcg::new(1);
    assert_eq!(g.next_u32(), 1481765933);
    assert_eq!(g.state, 6364136223846793006);
}

#[test]
fn lcg_deterministic_across_runs() {
    let mut a = Lcg::new(42);
    let mut b = Lcg::new(42);
    for _ in 0..100 {
        assert_eq!(a.next_u32(), b.next_u32());
    }
    assert_eq!(a.state, b.state);
}

#[test]
fn reset_restores_fresh_core() {
    let mut core = SimCore::new();
    assert_eq!(core.rng.state, INITIAL_SEED);
    assert_eq!(core.next_id, INITIAL_ENTITY_ID);
    core.rng.next_u32();
    core.next_entity_id();
    core.next_entity_id();
    assert_ne!(core.rng.state, INITIAL_SEED);
    reset_simulation(&mut core);
    assert_eq!(core.rng.state, INITIAL_SEED);
    assert_eq!(core.next_id, INITIAL_ENTITY_ID);
}

#[test]
fn next_entity_id_counts_up_and_saturates() {
    let mut core = SimCore::new();
    assert_eq!(core.next_entity_id(), 1);
    assert_eq!(core.next_entity_id(), 2);
    assert_eq!(core.next_entity_id(), 3);
    let mut near_end = SimCore { rng: Lcg::new(0), next_id: u32::MAX };
    assert_eq!(core.rng.state, INITIAL_SEED);
    assert_eq!(near_end.next_entity_id(), u32::MAX);
    assert_eq!(near_end.next_entity_id(), u32::MAX);
}
