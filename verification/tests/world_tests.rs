use particle_sim::sim::clamp_spawn_count;
use particle_sim::world::{remove_entities, write_entities, Body, Entity, EntityRecord};

fn body(x: f32, y: f32, vx: f32, vy: f32, radius: f32) -> Body {
    Body {
        x: x.to_bits(),
        y: y.to_bits(),
        vx: vx.to_bits(),
        vy: vy.to_bits(),
        radius: radius.to_bits(),
    }
}

#[test]
fn export_copies_bodies_bit_for_bit() {
    let b = body(1.5, -2.25, 0.5, 8.0, 3.0);
    let entities = vec![
        Entity { id: 1, body: Some(b) },
        Entity { id: 2, body: None },
    ];
    let mut records: Vec<EntityRecord> = Vec::new();
    write_entities(&entities, &mut records);
    assert_eq!(records.len(), 2);
    assert_eq!(records[0].id, 1);
    assert_eq!(records[0].has_body, 1);
    assert_eq!(f32::from_bits(records[0].x), 1.5);
    assert_eq!(f32::from_bits(records[0].y), -2.25);
    assert_eq!(f32::from_bits(records[0].vx), 0.5);
    assert_eq!(f32::from_bits(records[0].vy), 8.0);
    assert_eq!(f32::from_bits(records[0].radius), 3.0);
    assert_eq!(records[1].id, 2);
    assert_eq!(records[1].has_body, 0);
    assert_eq!(records[1].x, 0);
    assert_eq!(records[1].y, 0);
    assert_eq!(records[1].vx, 0);
    assert_eq!(records[1].vy, 0);
    assert_eq!(records[1].radius, 0);
}

#[test]
fn export_replaces_previous_contents() {
    let entities = vec![Entity { id: 9, body: None }];
    let mut records = vec![EntityRecord {
        id: 0,
        has_body: 0,
        x: 0,
        y: 0,
        vx: 0,
        vy: 0,
        radius: 0,
    }; 5];
    write_entities(&entities, &mut records);
    assert_eq!(records.len(), 1);
    assert_eq!(records[0].id, 9);
}

#[test]
fn remove_entities_keeps_the_first_half() {
    let mut entities: Vec<Entity> = (0..5).map(|i| Entity { id: i, body: None }).collect();
    remove_entities(&mut entities);
    assert_eq!(entities.len(), 2);
    assert_eq!(entities[0].id, 0);
    assert_eq!(entities[1].id, 1);
    let mut empty: Vec<Entity> = Vec::new();
    remove_entities(&mut empty);
    assert!(empty.is_empty());
}

#[test]
fn spawn_count_clamps_at_the_guard() {
    assert_eq!(clamp_spawn_count(0), 0);
    assert_eq!(clamp_spawn_count(9999), 9999);
    assert_eq!(clamp_spawn_count(10000), 10000);
    assert_eq!(clamp_spawn_count(50000), 10000);
    assert_eq!(clamp_spawn_count(u32::MAX), 10000);
}
