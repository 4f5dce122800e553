//! Entities of the world and the flat state export.
//!
//! A body's position, velocity and radius travel through this crate as raw
//! IEEE-754 bit patterns (`u32`): the host layer owns the floating-point
//! arithmetic and converts at the boundary, so the bookkeeping here moves
//! every body bit-for-bit.

use vstd::prelude::*;

verus! {

/// A movable circle: position, velocity and radius as raw bit patterns.
#[derive(Clone, Copy, PartialEq, Eq, Debug)]
pub struct Body {
    pub x: u32,
    pub y: u32,
    pub vx: u32,
    pub vy: u32,
    pub radius: u32,
}

/// A stable identifier with an optional body; an entity without a body is a
/// non-physical placeholder.
#[derive(Clone, Copy, PartialEq, Eq, Debug)]
pub struct Entity {
    pub id: u32,
    pub body: Option<Body>,
}

/// The exported snapshot record of one entity: identifier, body flag, and
/// the body payload, zeroed when absent.
#[derive(Clone, Copy, PartialEq, Eq, Debug)]
pub struct EntityRecord {
    pub id: u32,
    pub has_body: u32,
    pub x: u32,
    pub y: u32,
    pub vx: u32,
    pub vy: u32,
    pub radius: u32,
}

/// The record an entity exports: the body's fields copied bit-for-bit under
/// flag 1, or a zeroed payload under flag 0.
pub open spec fn record_of(e: Entity) -> EntityRecord {
    match e.body {
        Some(b) => EntityRecord {
            id: e.id,
            has_body: 1,
            x: b.x,
            y: b.y,
            vx: b.vx,
            vy: b.vy,
            radius: b.radius,
        },
        None => EntityRecord { id: e.id, has_body: 0, x: 0, y: 0, vx: 0, vy: 0, radius: 0 },
    }
}

/// Rewrites `target` as the flat export of `entities`: one record per
/// entity, in collection order.
pub fn write_entities(entities: &Vec<Entity>, target: &mut Vec<EntityRecord>)
    ensures
        final(target)@.len() == entities@.len(),
        forall|i: int|
            0 <= i < entities@.len() ==> #[trigger] final(target)@[i] == record_of(entities@[i]),
{
    target.clear();
    let n = entities.len();
    let mut i: usize = 0;
    while i < n
        invariant
            i <= n,
            n == entities@.len(),
            target@.len() == i,
            forall|j: int| 0 <= j < i ==> #[trigger] target@[j] == record_of(entities@[j]),
        decreases n - i,
    {
        let e = &entities[i];
        match e.body {
            Some(b) => target.push(
                EntityRecord {
                    id: e.id,
                    has_body: 1,
                    x: b.x,
                    y: b.y,
                    vx: b.vx,
                    vy: b.vy,
                    radius: b.radius,
                },
            ),
            None => target.push(
                EntityRecord { id: e.id, has_body: 0, x: 0, y: 0, vx: 0, vy: 0, radius: 0 },
            ),
        }
        i = i + 1;
    }
}

/// Truncates the collection to its first half (rounding down), as the world
/// does when asked to drop half its population; indices of the kept entities
/// are unchanged.
pub fn remove_entities(entities: &mut Vec<Entity>)
    ensures
        final(entities)@ == old(entities)@.subrange(0, old(entities)@.len() as int / 2),
{
    let half = entities.len() / 2;
    entities.truncate(half);
}

} // verus!
