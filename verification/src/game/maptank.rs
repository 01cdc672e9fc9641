use vstd::prelude::*;

use crate::game::events::{Direction, Position};
use crate::game::mapobj::MovementState;

verus! {

/// What a tank on the field tells about itself.
#[derive(Clone, Copy, Debug)]
pub struct TankMapInfo {
    pub item: &'static str,
    pub id: usize,
    pub pos: Position,
    pub state: MovementState,
}

impl TankMapInfo {
    pub fn new(id: usize, pos: Position, state: MovementState) -> (t: TankMapInfo)
        ensures
            t == (TankMapInfo { item: "map_tank", id, pos, state }),
    {
        TankMapInfo { id, pos, state, item: "map_tank" }
    }
}

/// A tank as it stands on the field.
#[derive(Clone, Copy, Debug)]
pub struct TankMapObj {
    pub key: usize,
    pub pos: Position,
    pub state: MovementState,
}

impl TankMapObj {
    pub fn get_position(&self) -> (p: Position)
        ensures
            p == self.pos,
    {
        self.pos
    }

    pub fn set_position(&mut self, pos: Position)
        ensures
            *final(self) == (TankMapObj { pos, ..*old(self) }),
    {
        self.pos = pos
    }

    pub fn key(&self) -> (k: usize)
        ensures
            k == self.key,
    {
        self.key
    }

    pub fn get_info(&self) -> (i: TankMapInfo)
        ensures
            i == (TankMapInfo { item: "map_tank", id: self.key, pos: self.pos, state: self.state }),
    {
        TankMapInfo::new(self.key, self.pos, self.state)
    }

    /// The position and the movement that the tank reports: it always reports
    /// standing still, facing up, whatever movement was set on it.
    pub fn get_movement(&self) -> (r: (Position, MovementState))
        ensures
            r == (self.pos, MovementState::Stay { dir: Direction::Up }),
    {
        (self.pos, MovementState::Stay { dir: Direction::Up })
    }

    pub fn set_movement(&mut self, mstate: MovementState)
        ensures
            *final(self) == (TankMapObj { state: mstate, ..*old(self) }),
    {
        self.state = mstate;
    }
}

} // verus!
