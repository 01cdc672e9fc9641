use vstd::prelude::*;

use crate::game::errors::LogicResult;
use crate::game::events::{Commands, Direction, MessageContainer};
use crate::game::map::{GameField, MapRef};
use crate::game::mapobj::{MapObject, MovementState};

verus! {

/// What a tank tells about itself.
#[derive(Clone, Copy, Debug)]
pub struct TankInfo {
    pub dir: Direction,
    pub id: usize,
    pub item: &'static str,
}

/// A tank unit: its id, the user that owns it, and a handle on the object
/// that stands for it on the field, through which the tank reaches that
/// object.
#[derive(Clone, Copy, Debug)]
pub struct Tank {
    dir: Direction,
    id: usize,
    owner: usize,
    map_obj: MapRef,
}

/// The value of a [`Tank`].
pub struct TankView {
    pub dir: Direction,
    pub id: usize,
    pub owner: usize,
    pub map_obj: MapRef,
}

impl View for Tank {
    type V = TankView;

    closed spec fn view(&self) -> TankView {
        TankView { dir: self.dir, id: self.id, owner: self.owner, map_obj: self.map_obj }
    }
}

/// The speed that a move command gives a tank.
pub open spec fn tank_speed() -> i64 {
    5
}

/// The field after the tank whose field object `map_obj` names carries out `cmd`:
/// a move sets it moving that way at the tank speed, a change of direction
/// leaves it standing facing up, and firing changes nothing.
pub open spec fn command_effect(field: crate::game::map::FieldView, map_obj: MapRef, cmd: Commands) -> crate::game::map::FieldView {
    match cmd {
        Commands::Move { direction } => field.set_movement_at(map_obj, MovementState::Moving { dir: direction, vel: tank_speed() }),
        Commands::ChangeDirection { .. } => field.set_movement_at(map_obj, MovementState::Stay { dir: Direction::Up }),
        Commands::Fire => field,
    }
}

impl Tank {
    pub fn new(id: usize, owner: usize, map_obj: MapRef) -> (t: Tank)
        ensures
            t@ == (TankView { dir: Direction::Up, id, owner, map_obj }),
    {
        Tank { dir: Direction::Up, id, owner, map_obj }
    }

    fn process_message_container(&mut self, msg: MessageContainer, map: &mut GameField) -> (r: LogicResult<()>)
        requires
            old(map)@.wf(),
        ensures
            r is Ok,
            final(self)@ == old(self)@,
            final(map)@ == command_effect(old(map)@, old(self)@.map_obj, msg@.msg.cmd),
    {
        match msg.msg.cmd {
            Commands::Move { direction: dir } => {
                return self.moving_command_process(dir, map);
            },
            Commands::ChangeDirection { newdir: dir } => {
                return self.change_direction_command_process(dir, map);
            },
            _ => {
                return Ok(());
            },
        }
    }

    /// Keeps the movement that the tank's field object reports; that object
    /// reports standing still facing up, so the tank stops, facing up.
    fn change_direction_command_process(&mut self, dir: Direction, map: &mut GameField) -> (r: LogicResult<()>)
        requires
            old(map)@.wf(),
        ensures
            r is Ok,
            final(self)@ == old(self)@,
            final(map)@ == old(map)@.set_movement_at(old(self)@.map_obj, MovementState::Stay { dir: Direction::Up }),
    {
        let movement = match map.get_object_at(self.map_obj) {
            Some(MapObject::Tank(t)) => {
                let (_pos, m) = t.get_movement();
                m
            },
            _ => {
                return Ok(());
            },
        };
        let new_state = match movement {
            MovementState::Moving { dir, vel } => MovementState::Moving { dir, vel },
            MovementState::Stay { dir } => MovementState::Stay { dir },
        };
        map.set_movement_at(self.map_obj, new_state);
        Ok(())
    }

    fn moving_command_process(&mut self, dir: Direction, map: &mut GameField) -> (r: LogicResult<()>)
        requires
            old(map)@.wf(),
        ensures
            r is Ok,
            final(self)@ == old(self)@,
            final(map)@ == old(map)@.set_movement_at(old(self)@.map_obj, MovementState::Moving { dir, vel: tank_speed() }),
    {
        map.set_movement_at(self.map_obj, MovementState::Moving { dir, vel: 5 });
        Ok(())
    }

    /// A tank sends nothing on a tick.
    pub fn tick(&mut self) -> (r: LogicResult<crate::game::events::AddresableEventsList>)
        ensures
            r is Ok,
            r->Ok_0@.len() == 0,
            final(self)@ == old(self)@,
    {
        Ok(Vec::new())
    }

    pub fn key(&self) -> (k: usize)
        ensures
            k == self@.id,
    {
        self.id
    }

    pub fn get_info(&self) -> (i: TankInfo)
        ensures
            i == (TankInfo { dir: self@.dir, id: self@.id, item: "Tank" }),
    {
        TankInfo { dir: self.dir, id: self.id, item: "Tank" }
    }

    /// Carries out a command; any other event is not for a tank.
    pub fn process(&mut self, msg: crate::game::events::EventContainer, map: &mut GameField) -> (r: LogicResult<()>)
        requires
            msg@.evs is Command,
            old(map)@.wf(),
        ensures
            r is Ok,
            final(self)@ == old(self)@,
            final(map)@ == command_effect(old(map)@, old(self)@.map_obj, msg@.evs->Command_0.msg.cmd),
    {
        match msg.evs {
            crate::game::events::Events::Command(sm) => {
                self.process_message_container(sm, map)?;
            },
            _ => {},
        }
        Ok(())
    }
}

/// A tank whose field object a handle names: the one replaced under its key,
/// or else the one on the field there.
pub open spec fn named_object(field: crate::game::map::FieldView, r: MapRef) -> Option<MapObject> {
    if r.gen < field.history(r.key).len() {
        Some(field.history(r.key)[r.gen as int])
    } else if field.index_of(r.key) >= 0 {
        Some(field.maps[field.index_of(r.key)])
    } else {
        None
    }
}

/// A command on a tank: a move in direction `d` sets the tank's field object
/// moving in direction `d` at speed 5, a change of direction leaves it
/// standing facing up, and firing changes nothing; nothing else on the field
/// changes, and the object keeps its key and position.
pub proof fn lemma_command_on_tank(field: crate::game::map::FieldView, r: MapRef, cmd: Commands)
    requires
        field.wf(),
        named_object(field, r) matches Some(MapObject::Tank(_)),
    ensures
        named_object(command_effect(field, r, cmd), r) == Some(MapObject::Tank(crate::game::maptank::TankMapObj {
            state: match cmd {
                Commands::Move { direction } => MovementState::Moving { dir: direction, vel: 5 },
                Commands::ChangeDirection { .. } => MovementState::Stay { dir: Direction::Up },
                Commands::Fire => named_object(field, r)->Some_0->Tank_0.state,
            },
            ..named_object(field, r)->Some_0->Tank_0
        })),
        command_effect(field, r, cmd).maps.len() == field.maps.len(),
        forall|j: int| 0 <= j < field.maps.len() && j != field.index_of(r.key) ==> command_effect(field, r, cmd).maps[j] == field.maps[j],
        forall|k: usize| k != r.key ==> #[trigger] command_effect(field, r, cmd).history(k) == field.history(k),
{
    let f2 = command_effect(field, r, cmd);
    crate::game::keyed::lemma_position_of(crate::game::map::map_keys(field.maps), r.key);
    if !(r.gen < field.history(r.key).len()) {
        crate::game::map::lemma_updates_keep_keys(field, r.key, crate::game::events::Position { x: 0, y: 0 },
            MovementState::Stay { dir: Direction::Up });
        match cmd {
            Commands::Move { direction } => {
                crate::game::map::lemma_updates_keep_keys(field, r.key, crate::game::events::Position { x: 0, y: 0 },
                    MovementState::Moving { dir: direction, vel: tank_speed() });
            },
            _ => {},
        }
        assert(crate::game::map::map_keys(f2.maps) == crate::game::map::map_keys(field.maps));
        assert(f2.index_of(r.key) == field.index_of(r.key));
    }
}

} // verus!
