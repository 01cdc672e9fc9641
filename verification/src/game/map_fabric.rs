use vstd::prelude::*;

use crate::game::events::{Direction, Position};
use crate::game::map::{GameField, MapRef};
use crate::game::mapobj::{MapObject, MovementState};
use crate::game::maptank::TankMapObj;

verus! {

/// Makes the field objects that stand for new units.
pub struct MapObjectsFabric {}

/// The field object of a newly spawned tank: at the origin, standing, facing up.
pub open spec fn new_tank_map_obj(key: usize) -> TankMapObj {
    TankMapObj { key, pos: Position { x: 0, y: 0 }, state: MovementState::Stay { dir: Direction::Up } }
}

impl MapObjectsFabric {
    pub fn new() -> (f: MapObjectsFabric)
        ensures
            f == (MapObjectsFabric {}),
    {
        MapObjectsFabric {}
    }

    /// Places a new tank under `key` on the field and returns a handle on it.
    pub fn spawn_tank(&mut self, map: &mut GameField, key: usize) -> (t: MapRef)
        requires
            old(map)@.wf(),
        ensures
            t == final(map)@.current(key),
            final(map)@ == old(map)@.add_new(MapObject::Tank(new_tank_map_obj(key))),
            final(map)@.wf(),
    {
        let maptank_obj = TankMapObj {
            key,
            pos: Position { x: 0, y: 0 },
            state: MovementState::Stay { dir: Direction::Up },
        };
        map.add_new(MapObject::Tank(maptank_obj));
        map.handle(key)
    }
}

} // verus!
