use vstd::prelude::*;

use crate::game::events::{Direction, Position};
use crate::game::maptank::{TankMapInfo, TankMapObj};

verus! {

/// How an object on the field moves: at a speed in a direction, or not at all.
#[derive(Clone, Copy, Debug, PartialEq, Eq, Structural)]
pub enum MovementState {
    Moving { dir: Direction, vel: i64 },
    Stay { dir: Direction },
}

/// What a wall on the field tells about itself.
#[derive(Clone, Copy, Debug)]
pub struct WallMapInfo {
    pub item: &'static str,
    pub id: usize,
    pub pos: Position,
}

impl WallMapInfo {
    pub fn new(id: usize, pos: Position) -> (w: WallMapInfo)
        ensures
            w == (WallMapInfo { item: "map_wall", id, pos }),
    {
        WallMapInfo { id, pos, item: "map_wall" }
    }
}

/// What an object on the field tells about itself.
#[derive(Clone, Copy, Debug)]
pub enum MapInfo {
    Wall(WallMapInfo),
    Tank(TankMapInfo),
}

/// A wall as it stands on the field.
#[derive(Clone, Copy, Debug)]
pub struct WallMapObj {
    pub key: usize,
    pub pos: Position,
}

impl WallMapObj {
    pub fn get_position(&self) -> (p: Position)
        ensures
            p == self.pos,
    {
        self.pos
    }

    pub fn set_position(&mut self, pos: Position)
        ensures
            *final(self) == (WallMapObj { pos, ..*old(self) }),
    {
        self.pos = pos
    }

    pub fn key(&self) -> (k: usize)
        ensures
            k == self.key,
    {
        self.key
    }

    pub fn get_info(&self) -> (i: WallMapInfo)
        ensures
            i == (WallMapInfo { item: "map_wall", id: self.key, pos: self.pos }),
    {
        WallMapInfo::new(self.key, self.pos)
    }
}

/// Something that stands on the field: a wall or a tank.
#[derive(Clone, Copy, Debug)]
pub enum MapObject {
    Wall(WallMapObj),
    Tank(TankMapObj),
}

impl MapObject {
    pub open spec fn key_of(self) -> usize {
        match self {
            MapObject::Wall(w) => w.key,
            MapObject::Tank(t) => t.key,
        }
    }

    pub open spec fn pos_of(self) -> Position {
        match self {
            MapObject::Wall(w) => w.pos,
            MapObject::Tank(t) => t.pos,
        }
    }

    pub open spec fn with_pos(self, pos: Position) -> MapObject {
        match self {
            MapObject::Wall(w) => MapObject::Wall(WallMapObj { pos, ..w }),
            MapObject::Tank(t) => MapObject::Tank(TankMapObj { pos, ..t }),
        }
    }

    pub open spec fn info_of(self) -> MapInfo {
        match self {
            MapObject::Wall(w) => MapInfo::Wall(WallMapInfo { item: "map_wall", id: w.key, pos: w.pos }),
            MapObject::Tank(t) => MapInfo::Tank(
                TankMapInfo { item: "map_tank", id: t.key, pos: t.pos, state: t.state },
            ),
        }
    }

    pub fn get_position(&self) -> (p: Position)
        ensures
            p == self.pos_of(),
    {
        match self {
            MapObject::Wall(w) => w.get_position(),
            MapObject::Tank(t) => t.get_position(),
        }
    }

    pub fn set_position(&mut self, pos: Position)
        ensures
            *final(self) == old(self).with_pos(pos),
    {
        match self {
            MapObject::Wall(w) => w.set_position(pos),
            MapObject::Tank(t) => t.set_position(pos),
        }
    }

    pub fn key(&self) -> (k: usize)
        ensures
            k == self.key_of(),
    {
        match self {
            MapObject::Wall(w) => w.key(),
            MapObject::Tank(t) => t.key(),
        }
    }

    pub fn get_info(&self) -> (i: MapInfo)
        ensures
            i == self.info_of(),
    {
        match self {
            MapObject::Wall(w) => MapInfo::Wall(w.get_info()),
            MapObject::Tank(t) => MapInfo::Tank(t.get_info()),
        }
    }
}

} // verus!
