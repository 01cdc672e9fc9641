use tank_game::game::broker::Broker;
use tank_game::game::events::{
    AddresType, AddresableContainer, Commands, Direction, EventContainer, Events, Message, MessageContainer, Meta,
    Position, SpawneReq, Unit,
};
use tank_game::game::logic::{GameObject, InfoObject};
use tank_game::game::map::GameField;
use tank_game::game::mapobj::{MapInfo, MapObject, MovementState, WallMapObj};
use tank_game::game::maptank::TankMapObj;
use tank_game::game::tank::{Tank, TankInfo};
use tank_game::game::user::User;
use tank_game::game::wallobj::WallObj;

fn tank_at(key: usize, x: i64, y: i64) -> MapObject {
    MapObject::Tank(TankMapObj { key, pos: Position { x, y }, state: MovementState::Stay { dir: Direction::Up } })
}

fn wall_at(key: usize, x: i64, y: i64) -> MapObject {
    MapObject::Wall(WallMapObj { key, pos: Position { x, y } })
}

#[test]
fn placed_object_is_found_again() {
    let mut f = GameField::new();
    f.add_new(wall_at(7, 3, 4));
    assert_eq!(f.get_position(7).ok().unwrap(), Position { x: 3, y: 4 });
    f.add_new(wall_at(7, 8, 9));
    assert_eq!(f.get_position(7).ok().unwrap(), Position { x: 8, y: 9 });
    match f.get_position(8) {
        Err(e) => assert_eq!(e.info, "Object is not on map"),
        Ok(_) => panic!("expected a refusal"),
    }
}

#[test]
fn free_move_goes_one_step() {
    let mut f = GameField::new();
    f.add_new(tank_at(1, 0, 0));
    f.add_new(wall_at(2, 100, 100));
    let evs = f.move_unit(1, &MovementState::Moving { dir: Direction::Up, vel: 5 }).ok().unwrap();
    assert_eq!(evs.len(), 1);
    assert_eq!(evs[0].addres, vec![AddresType::Broadcast]);
    match evs[0].events[0].evs {
        Events::ChangePosition { pos, dir } => {
            assert_eq!(pos, Position { x: 0, y: 5 });
            assert_eq!(dir, Direction::Up);
        }
        _ => panic!("expected the new position"),
    }
    assert_eq!(f.get_position(1).ok().unwrap(), Position { x: 0, y: 5 });
}

#[test]
fn moves_in_each_direction() {
    for (dir, want) in [
        (Direction::Down, Position { x: 0, y: -5 }),
        (Direction::Left, Position { x: -5, y: 0 }),
        (Direction::Right, Position { x: 5, y: 0 }),
    ] {
        let mut f = GameField::new();
        f.add_new(tank_at(1, 0, 0));
        f.move_unit(1, &MovementState::Moving { dir, vel: 5 }).ok().unwrap();
        assert_eq!(f.get_position(1).ok().unwrap(), want);
    }
}

#[test]
fn move_into_wall_is_pushed_back() {
    let mut f = GameField::new();
    f.add_new(tank_at(1, 0, 0));
    f.add_new(wall_at(2, 10, 0));
    let evs = f.move_unit(1, &MovementState::Moving { dir: Direction::Right, vel: 5 }).ok().unwrap();
    assert_eq!(evs.len(), 2);
    match evs[0].events[0].evs {
        Events::ChangePosition { pos, .. } => assert_eq!(pos, Position { x: 0, y: 0 }),
        _ => panic!("expected the new position"),
    }
    assert_eq!(evs[1].addres, vec![AddresType::Broadcast]);
    assert_eq!(evs[1].events[0].unit, 1);
    match evs[1].events[0].evs {
        Events::Collision { fst, scd } => {
            assert_eq!(fst, 1);
            assert_eq!(scd, 2);
        }
        _ => panic!("expected the collision"),
    }
    assert_eq!(f.get_position(1).ok().unwrap(), Position { x: 0, y: 0 });
}

#[test]
fn collision_pushes_along_each_direction() {
    let f = {
        let mut f = GameField::new();
        f.add_new(tank_at(1, 0, 0));
        f.add_new(wall_at(2, 3, 4));
        f
    };
    let mut p = Position { x: 0, y: 0 };
    let evs = f.check_collisions(1, Direction::Down, &mut p).ok().unwrap();
    assert_eq!(evs.len(), 1);
    assert_eq!(p, Position { x: 0, y: 6 });
    let mut p = Position { x: 0, y: 0 };
    f.check_collisions(1, Direction::Up, &mut p).ok().unwrap();
    assert_eq!(p, Position { x: 0, y: -6 });
    let mut p = Position { x: 0, y: 0 };
    f.check_collisions(1, Direction::Left, &mut p).ok().unwrap();
    assert_eq!(p, Position { x: 7, y: 0 });
    let mut p = Position { x: 0, y: 0 };
    f.check_collisions(1, Direction::Right, &mut p).ok().unwrap();
    assert_eq!(p, Position { x: -7, y: 0 });
}

#[test]
fn touching_is_not_a_collision() {
    let mut f = GameField::new();
    f.add_new(tank_at(1, 0, 0));
    f.add_new(wall_at(2, 10, 3));
    let mut p = Position { x: 0, y: 0 };
    let evs = f.check_collisions(1, Direction::Right, &mut p).ok().unwrap();
    assert!(evs.is_empty());
    assert_eq!(p, Position { x: 0, y: 0 });
}

#[test]
fn field_tick_moves_nothing() {
    let mut f = GameField::new();
    f.add_new(MapObject::Tank(TankMapObj {
        key: 1,
        pos: Position { x: 0, y: 0 },
        state: MovementState::Moving { dir: Direction::Up, vel: 5 },
    }));
    assert!(f.tick().ok().unwrap().is_empty());
    assert_eq!(f.get_position(1).ok().unwrap(), Position { x: 0, y: 0 });
    let infos = f.get_info().ok().unwrap();
    assert_eq!(infos.len(), 1);
    match &infos[0] {
        InfoObject::Field(fi) => match fi.maps[0].1 {
            MapInfo::Tank(t) => {
                assert_eq!(t.item, "map_tank");
                assert_eq!(t.state, MovementState::Moving { dir: Direction::Up, vel: 5 });
            }
            _ => panic!("expected the tank"),
        },
        _ => panic!("expected the field"),
    }
}

#[test]
fn generated_map_has_two_walls() {
    let mut f = GameField::new();
    let mut b = Broker::new();
    f.generate_map(&mut b);
    assert_eq!(b.counter(), 2);
    assert_eq!(f.get_position(1).ok().unwrap(), Position { x: 15, y: 5 });
    assert_eq!(f.get_position(2).ok().unwrap(), Position { x: 5, y: 15 });
    assert_eq!(b.collect_info().ok().unwrap().len(), 2);
}

#[test]
fn keys_are_handed_out_in_order() {
    let mut b = Broker::new();
    assert_eq!(b.produce_key(), 1);
    assert_eq!(b.produce_key(), 2);
    assert_eq!(b.produce_key(), 3);
    assert_eq!(b.counter(), 3);
}

#[test]
fn subscribing_needs_a_registered_subscriber() {
    let mut b = Broker::new();
    match b.subscribe(5, 6) {
        Err(e) => assert_eq!(e.info, "No such unit"),
        Ok(_) => panic!("expected a refusal"),
    }
    b.add_system(GameObject::User(User::new(6))).ok().unwrap();
    assert!(b.subscribe(5, 6).is_ok());
}

#[test]
fn broadcast_needs_a_channel() {
    let mut b = Broker::new();
    let mut f = GameField::new();
    let ev = EventContainer { unit: 9, evs: Events::Collision { fst: 9, scd: 1 } };
    match b.pass_broadcast(ev, &mut f) {
        Err(e) => assert_eq!(e.info, "No such channel"),
        Ok(_) => panic!("expected a refusal"),
    }
}

#[test]
fn broadcast_reaches_the_subscriber() {
    let mut b = Broker::new();
    let mut f = GameField::new();
    b.add_system(GameObject::User(User::new(6))).ok().unwrap();
    b.add_system(GameObject::Wall(WallObj { key: 7 })).ok().unwrap();
    b.subscribe(7, 6).ok().unwrap();
    let ev = EventContainer {
        unit: 7,
        evs: Events::ChangePosition { pos: Position { x: 1, y: 2 }, dir: Direction::Left },
    };
    assert!(b.pass_broadcast(ev, &mut f).is_ok());
}

#[test]
fn direct_event_reaches_the_unit() {
    let mut b = Broker::new();
    let mut f = GameField::new();
    f.add_new(tank_at(4, 0, 0));
    let h = f.handle(4);
    b.add_system(GameObject::Tank(Tank::new(4, 3, h))).ok().unwrap();
    let cmd = MessageContainer {
        msg: Message { unit: 4, cmd: Commands::Move { direction: Direction::Right } },
        meta: Meta { user_name: "alice".to_string() },
    };
    let ev = EventContainer { unit: 0, evs: Events::Command(cmd) };
    assert!(b.accepts_direct(4, &ev));
    assert!(b.pass_addresable(AddresType::Direct(4), ev, &mut f).is_ok());
    let infos = f.get_info().ok().unwrap();
    match &infos[0] {
        InfoObject::Field(fi) => match fi.maps[0].1 {
            MapInfo::Tank(t) => assert_eq!(t.state, MovementState::Moving { dir: Direction::Right, vel: 5 }),
            _ => panic!("expected the tank"),
        },
        _ => panic!("expected the field"),
    }
    let missing = EventContainer { unit: 0, evs: Events::SpawneRequest(SpawneReq::Tank) };
    match b.pass_direct_unit(8, missing, &mut f) {
        Err(e) => assert_eq!(e.info, "No such unit"),
        Ok(_) => panic!("expected a refusal"),
    }
}

#[test]
fn system_queue_spawns_tanks_on_tick() {
    let mut b = Broker::new();
    let mut f = GameField::new();
    let u = b.produce_key();
    b.add_system(GameObject::User(User::new(u))).ok().unwrap();
    // the user asks for a tank on the first tick
    let first = b.tick(&mut f).ok().unwrap();
    assert_eq!(first.len(), 1);
    assert!(matches!(first[0].evs, Events::SpawneRequest(SpawneReq::Tank)));
    let second = b.tick(&mut f).ok().unwrap();
    assert_eq!(second.len(), 1);
    match &second[0].evs {
        Events::Spawned { owner, unit: Unit::Tank(t) } => {
            assert_eq!(*owner, u);
            assert_eq!(t.id, 2);
        }
        _ => panic!("expected the spawn"),
    }
    assert_eq!(f.get_position(2).ok().unwrap(), Position { x: 0, y: 0 });
    assert!(b.tick(&mut f).ok().unwrap().is_empty());
}

#[test]
fn message_to_several_addresses() {
    let mut b = Broker::new();
    let mut f = GameField::new();
    b.add_system(GameObject::Wall(WallObj { key: 1 })).ok().unwrap();
    let c = AddresableContainer {
        addres: vec![AddresType::System, AddresType::Direct(1), AddresType::Direct(2)],
        events: vec![EventContainer { unit: 1, evs: Events::Collision { fst: 1, scd: 2 } }],
    };
    match b.pass_message_addresable(c, &mut f) {
        Err(e) => assert_eq!(e.info, "No such unit"),
        Ok(_) => panic!("expected a refusal"),
    }
}

#[test]
fn replaced_unit_keeps_its_subscription() {
    let mut b = Broker::new();
    let mut f = GameField::new();
    b.add_system(GameObject::User(User::new(6))).ok().unwrap();
    b.add_system(GameObject::Wall(WallObj { key: 7 })).ok().unwrap();
    b.subscribe(7, 6).ok().unwrap();
    // a second user takes key 6; the channel of 7 still holds the first one
    b.add_system(GameObject::User(User::new(6))).ok().unwrap();
    let ev = EventContainer {
        unit: 7,
        evs: Events::Spawned { owner: 6, unit: Unit::Tank(TankInfo { dir: Direction::Up, id: 9, item: "Tank" }) },
    };
    assert!(b.pass_broadcast(ev, &mut f).is_ok());
    // the user now under key 6 got no tank, so it asks for one
    let evs = b.tick(&mut f).ok().unwrap();
    assert_eq!(evs.len(), 1);
    assert_eq!(evs[0].unit, 6);
    assert!(matches!(evs[0].evs, Events::SpawneRequest(SpawneReq::Tank)));
    // a new subscription reaches the user now under key 6
    b.subscribe(7, 6).ok().unwrap();
    let ev2 = EventContainer {
        unit: 7,
        evs: Events::Spawned { owner: 6, unit: Unit::Tank(TankInfo { dir: Direction::Up, id: 10, item: "Tank" }) },
    };
    assert!(b.pass_broadcast(ev2, &mut f).is_ok());
    let after = b.process_system_queue(&mut f);
    assert!(after.is_ok());
    assert!(b.tick(&mut f).ok().unwrap().is_empty());
}

fn field_state(f: &GameField, key: usize) -> MovementState {
    let infos = f.get_info().ok().unwrap();
    match &infos[0] {
        InfoObject::Field(fi) => {
            for (k, m) in fi.maps.iter() {
                if *k == key {
                    if let MapInfo::Tank(t) = m {
                        return t.state;
                    }
                }
            }
            panic!("expected the tank")
        }
        _ => panic!("expected the field"),
    }
}

#[test]
fn tank_keeps_its_replaced_field_object() {
    let mut b = Broker::new();
    let mut f = GameField::new();
    f.add_new(tank_at(4, 0, 0));
    let first = f.handle(4);
    b.add_system(GameObject::Tank(Tank::new(4, 3, first))).ok().unwrap();
    // another object takes key 4 on the field
    f.add_new(tank_at(4, 50, 50));
    let second = f.handle(4);
    assert_ne!(first, second);
    let cmd = |d: Direction| EventContainer {
        unit: 0,
        evs: Events::Command(MessageContainer {
            msg: Message { unit: 4, cmd: Commands::Move { direction: d } },
            meta: Meta { user_name: "alice".to_string() },
        }),
    };
    // the tank moves the object it was given, which is no longer on the field
    assert!(b.pass_direct_unit(4, cmd(Direction::Right), &mut f).is_ok());
    assert_eq!(field_state(&f, 4), MovementState::Stay { dir: Direction::Up });
    // a tank given the new object moves that one
    b.add_system(GameObject::Tank(Tank::new(4, 3, second))).ok().unwrap();
    assert!(b.pass_direct_unit(4, cmd(Direction::Left), &mut f).is_ok());
    assert_eq!(field_state(&f, 4), MovementState::Moving { dir: Direction::Left, vel: 5 });
}
