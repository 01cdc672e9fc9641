use tank_game::errors::{FailedToStart, MessageHandlerError};
use tank_game::game::events::{Commands, Direction, Events, Message};
use tank_game::handler::{Login, incoming, login_from_headers};
use tank_game::logic::{Content, GameContainer, MessageContainer, MessageMeta};
use tank_game::message_manager;
use tank_game::room_manager::{Delivery, RoomsManager};

fn room_message(name: &str, room: &str, message: Content) -> MessageContainer {
    MessageContainer { meta: MessageMeta { name: name.to_string(), room: room.to_string() }, message }
}

#[test]
fn same_room_twice_goes_to_the_same_room() {
    let mut rm = RoomsManager::new();
    let a = rm.pass_mesage(&room_message("alice", "first_room", Content::Close));
    assert_eq!(a, Delivery { room: 0, created: true });
    let b = rm.add_player(&room_message("bob", "first_room", Content::Start(1)));
    assert_eq!(b, Delivery { room: 0, created: false });
    let c = rm.remove_player(&room_message("carol", "second_room", Content::Close));
    assert_eq!(c, Delivery { room: 1, created: true });
    assert_eq!(rm.len(), 2);
    assert_eq!(rm.name(1), "second_room");
}

#[test]
fn login_comes_from_the_last_login_header() {
    let headers = vec![
        ("host".to_string(), b"example".to_vec()),
        ("login".to_string(), b"alice".to_vec()),
        ("login".to_string(), b"bob".to_vec()),
    ];
    match login_from_headers(&headers) {
        Login::Found(s) => assert_eq!(s, "bob"),
        _ => panic!("expected a login"),
    }
}

#[test]
fn missing_login_is_reported() {
    let headers = vec![("host".to_string(), b"example".to_vec())];
    assert!(matches!(login_from_headers(&headers), Login::Missing));
    assert!(matches!(login_from_headers(&Vec::new()), Login::Missing));
}

#[test]
fn unreadable_login_stops_the_reading() {
    let headers = vec![("login".to_string(), vec![0xff, 0xfe]), ("login".to_string(), b"bob".to_vec())];
    assert!(matches!(login_from_headers(&headers), Login::Unreadable));
}

#[test]
fn incoming_text_goes_to_the_first_room() {
    let m = incoming(&"alice".to_string(), "{}".to_string());
    assert_eq!(m.meta.name, "alice");
    assert_eq!(m.meta.room, "first_room");
    match m.message {
        message_manager::Content::Message(t) => assert_eq!(t, "{}"),
        _ => panic!("expected the text"),
    }
}

#[test]
fn read_text_becomes_a_room_command() {
    let m = incoming(&"alice".to_string(), "ignored".to_string());
    let cmd = Message { unit: 4, cmd: Commands::Fire };
    let r = m.into_room_message(Some(cmd));
    assert_eq!(r.meta.room, "first_room");
    match r.message {
        Content::Message(c) => assert_eq!(c, cmd),
        _ => panic!("expected the command"),
    }
    let close = message_manager::MessageContainer {
        meta: MessageMeta { name: "a".to_string(), room: "r".to_string() },
        message: message_manager::Content::Start(7),
    };
    assert!(matches!(close.into_room_message(None).message, Content::Start(7)));
}

#[test]
fn room_broadcasts_ticks_to_every_client() {
    let mut room = GameContainer::new();
    assert!(room.handle(room_message("alice", "r", Content::Start(11))).is_ok());
    assert!(room.handle(room_message("watcher", "r", Content::Start(12))).is_ok());
    assert_eq!(room.users.len(), 2);
    assert_eq!(room.game.users.len(), 1);
    let out = room.tick();
    assert_eq!(out.len(), 2);
    assert_eq!(out[0].1, 11);
    assert_eq!(out[1].1, 12);
    assert!(matches!(out[0].0.evs, Events::SpawneRequest(_)));
    assert!(room.handle(room_message("watcher", "r", Content::Close)).is_ok());
    let out = room.tick();
    assert_eq!(out.len(), 1);
    assert_eq!(out[0].1, 11);
    assert!(matches!(out[0].0.evs, Events::Spawned { owner: 3, .. }));
}

#[test]
fn room_hands_commands_to_the_game() {
    let mut room = GameContainer::new();
    room.handle(room_message("alice", "r", Content::Start(1))).ok().unwrap();
    room.tick();
    room.tick();
    let mv = room_message("alice", "r", Content::Message(Message { unit: 4, cmd: Commands::Move { direction: Direction::Up } }));
    assert!(room.accepts(&mv));
    assert!(room.handle(mv).is_ok());
    let to_user = room_message("alice", "r", Content::Message(Message { unit: 3, cmd: Commands::Fire }));
    assert!(!room.accepts(&to_user));
    let missing = room_message("alice", "r", Content::Message(Message { unit: 40, cmd: Commands::Fire }));
    assert!(room.handle(missing).is_err());
}

#[test]
fn rejoining_replaces_the_connection() {
    let mut room = GameContainer::new();
    room.handle(room_message("alice", "r", Content::Start(1))).ok().unwrap();
    room.handle(room_message("alice", "r", Content::Start(2))).ok().unwrap();
    assert_eq!(room.users.len(), 1);
    assert_eq!(room.users[0].1, 2);
}

#[test]
fn error_messages() {
    let e = FailedToStart { info: "address in use".to_string() };
    assert_eq!(e.message(), "Error while starting address in use");
    assert_eq!(e.description(), "address in use");
    let m = MessageHandlerError { info: "closed".to_string() };
    assert_eq!(m.message(), "Error while message handling closed");
    assert_eq!(m.description(), "closed");
}
