use tank_game::game::events::{
    Commands, Direction, EventContainer, Events, Message, MessageContainer, Meta, Position, SpawneReq, Unit,
};
use tank_game::game::logic::{Game, InfoObject};
use tank_game::game::mapobj::{MapInfo, MovementState};

fn command(unit: usize, cmd: Commands) -> MessageContainer {
    MessageContainer { msg: Message { unit, cmd }, meta: Meta { user_name: "alice".to_string() } }
}

fn tank_state(g: &Game) -> Option<(Position, MovementState)> {
    let infos = g.collect_info().ok().unwrap();
    for info in infos.iter() {
        if let InfoObject::Field(f) = info {
            for (k, m) in f.maps.iter() {
                if let MapInfo::Tank(t) = m {
                    assert_eq!(*k, t.id);
                    return Some((t.pos, t.state));
                }
            }
        }
    }
    None
}

#[test]
fn new_game_has_two_walls_and_no_players() {
    let g = Game::new();
    assert_eq!(g.users.len(), 0);
    assert_eq!(g.logic.system.counter(), 2);
    let infos = g.collect_info().ok().unwrap();
    assert_eq!(infos.len(), 3);
    match &infos[0] {
        InfoObject::Wall(w) => {
            assert_eq!(w.id, 1);
            assert_eq!(w.item, "Wall");
        }
        _ => panic!("expected a wall"),
    }
    match &infos[1] {
        InfoObject::Wall(w) => assert_eq!(w.id, 2),
        _ => panic!("expected a wall"),
    }
    match &infos[2] {
        InfoObject::Field(f) => {
            assert_eq!(f.item, "map");
            assert_eq!(f.map_dim, 500);
            assert_eq!(f.cell_dim, 10);
            assert_eq!(f.maps.len(), 2);
            match f.maps[0] {
                (1, MapInfo::Wall(w)) => {
                    assert_eq!(w.pos, Position { x: 15, y: 5 });
                    assert_eq!(w.item, "map_wall");
                }
                _ => panic!("expected the first wall"),
            }
            match f.maps[1] {
                (2, MapInfo::Wall(w)) => assert_eq!(w.pos, Position { x: 5, y: 15 }),
                _ => panic!("expected the second wall"),
            }
        }
        _ => panic!("expected the field"),
    }
}

#[test]
fn idle_game_ticks_without_events() {
    let mut g = Game::new();
    for _ in 0..3 {
        let evs = g.tick().ok().unwrap();
        assert!(evs.is_empty());
    }
    assert_eq!(g.logic.system.counter(), 2);
}

#[test]
fn joining_player_is_announced_with_game_info() {
    let mut g = Game::new();
    let evs = g.add_player("alice".to_string()).ok().unwrap();
    assert_eq!(evs.len(), 2);
    assert_eq!(evs[0].unit, 0);
    match &evs[0].evs {
        Events::UserConnected { user_name } => assert_eq!(user_name, "alice"),
        _ => panic!("expected the connection"),
    }
    match &evs[1].evs {
        Events::GameInfo(infos) => {
            assert_eq!(infos.len(), 4);
            match &infos[2] {
                InfoObject::User(u) => {
                    assert_eq!(u.id, 3);
                    assert_eq!(u.hp, 3);
                    assert_eq!(u.item, "User");
                }
                _ => panic!("expected the user"),
            }
            assert!(matches!(infos[3], InfoObject::Field(_)));
        }
        _ => panic!("expected the game info"),
    }
    assert_eq!(g.users.len(), 1);
    assert_eq!(g.users[0].0, "alice");
    assert_eq!(g.users[0].1, 3);
}

#[test]
fn full_lobby_refuses_second_player() {
    let mut g = Game::new();
    g.add_player("alice".to_string()).ok().unwrap();
    let evs = g.add_player("bob".to_string()).ok().unwrap();
    assert_eq!(evs.len(), 1);
    assert_eq!(evs[0].unit, 0);
    match &evs[0].evs {
        Events::Error { err, user } => {
            assert_eq!(err, "lobbi is full");
            assert_eq!(user, "bob");
        }
        _ => panic!("expected the refusal"),
    }
    assert_eq!(g.users.len(), 1);
    assert_eq!(g.logic.system.counter(), 3);
}

#[test]
fn player_gets_exactly_one_tank() {
    let mut g = Game::new();
    g.add_player("alice".to_string()).ok().unwrap();
    let first = g.tick().ok().unwrap();
    assert_eq!(first.len(), 1);
    assert_eq!(first[0].unit, 3);
    assert!(matches!(first[0].evs, Events::SpawneRequest(SpawneReq::Tank)));
    let second = g.tick().ok().unwrap();
    assert_eq!(second.len(), 1);
    assert_eq!(second[0].unit, 3);
    match &second[0].evs {
        Events::Spawned { owner, unit: Unit::Tank(t) } => {
            assert_eq!(*owner, 3);
            assert_eq!(t.id, 4);
            assert_eq!(t.dir, Direction::Up);
            assert_eq!(t.item, "Tank");
        }
        _ => panic!("expected the spawn"),
    }
    for _ in 0..3 {
        assert!(g.tick().ok().unwrap().is_empty());
    }
    assert_eq!(g.logic.system.counter(), 4);
    let (pos, state) = tank_state(&g).unwrap();
    assert_eq!(pos, Position { x: 0, y: 0 });
    assert_eq!(state, MovementState::Stay { dir: Direction::Up });
}

fn game_with_tank() -> Game {
    let mut g = Game::new();
    g.add_player("alice".to_string()).ok().unwrap();
    g.tick().ok().unwrap();
    g.tick().ok().unwrap();
    g
}

#[test]
fn move_command_sets_the_tank_moving() {
    let mut g = game_with_tank();
    let msg = command(4, Commands::Move { direction: Direction::Left });
    assert!(g.accepts_message(&msg));
    assert!(g.process_message(msg).is_ok());
    let (pos, state) = tank_state(&g).unwrap();
    assert_eq!(pos, Position { x: 0, y: 0 });
    assert_eq!(state, MovementState::Moving { dir: Direction::Left, vel: 5 });
}

#[test]
fn change_direction_stops_the_tank_facing_up() {
    let mut g = game_with_tank();
    g.process_message(command(4, Commands::Move { direction: Direction::Right })).ok().unwrap();
    g.process_message(command(4, Commands::ChangeDirection { newdir: Direction::Down })).ok().unwrap();
    let (_, state) = tank_state(&g).unwrap();
    assert_eq!(state, MovementState::Stay { dir: Direction::Up });
}

#[test]
fn fire_changes_nothing() {
    let mut g = game_with_tank();
    g.process_message(command(4, Commands::Move { direction: Direction::Down })).ok().unwrap();
    g.process_message(command(4, Commands::Fire)).ok().unwrap();
    let (_, state) = tank_state(&g).unwrap();
    assert_eq!(state, MovementState::Moving { dir: Direction::Down, vel: 5 });
}

#[test]
fn command_to_missing_unit_is_refused() {
    let mut g = game_with_tank();
    let msg = command(9, Commands::Fire);
    assert!(g.accepts_message(&msg));
    match g.process_message(msg) {
        Err(e) => {
            assert_eq!(e.info, "No such unit");
            assert_eq!(e.message(), "Error while command processing No such unit");
            assert_eq!(e.description(), "No such unit");
        }
        Ok(_) => panic!("expected a refusal"),
    }
}

#[test]
fn command_to_wall_is_taken_and_ignored() {
    let mut g = game_with_tank();
    assert!(g.process_message(command(1, Commands::Move { direction: Direction::Up })).is_ok());
    let (_, state) = tank_state(&g).unwrap();
    assert_eq!(state, MovementState::Stay { dir: Direction::Up });
}

#[test]
fn command_to_player_unit_is_not_taken() {
    let g = game_with_tank();
    assert!(!g.accepts_message(&command(3, Commands::Fire)));
}

#[test]
fn tick_does_not_move_tanks() {
    let mut g = game_with_tank();
    g.process_message(command(4, Commands::Move { direction: Direction::Up })).ok().unwrap();
    assert!(g.tick().ok().unwrap().is_empty());
    let (pos, _) = tank_state(&g).unwrap();
    assert_eq!(pos, Position { x: 0, y: 0 });
    let ev = EventContainer { unit: 0, evs: Events::Fire { pos, dir: Direction::Up } };
    assert_eq!(ev.duplicate().unit, 0);
}

#[test]
fn every_key_in_a_game_is_new_and_handed_out() {
    let mut g = Game::new();
    g.add_player("alice".to_string()).ok().unwrap();
    for _ in 0..3 {
        g.tick().ok().unwrap();
    }
    let counter = g.logic.system.counter();
    assert_eq!(counter, 4);
    let infos = g.collect_info().ok().unwrap();
    let mut unit_ids: Vec<usize> = Vec::new();
    let mut field_ids: Vec<usize> = Vec::new();
    for info in infos.iter() {
        match info {
            InfoObject::Wall(w) => unit_ids.push(w.id),
            InfoObject::User(u) => unit_ids.push(u.id),
            InfoObject::Tank(t) => unit_ids.push(t.id),
            InfoObject::Field(f) => {
                for (k, _) in f.maps.iter() {
                    field_ids.push(*k);
                }
            }
        }
    }
    assert_eq!(unit_ids, vec![1, 2, 3, 4]);
    assert_eq!(field_ids, vec![1, 2, 4]);
    assert!(unit_ids.iter().chain(field_ids.iter()).all(|k| *k <= counter));
}
