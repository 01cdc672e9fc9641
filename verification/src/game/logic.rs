use vstd::prelude::*;

use crate::game::broker::{Broker, BrokerView, SYSTEM, Subscriber, World};
use crate::game::errors::{GameLogicError, LogicResult};
use crate::game::events::{
    AddresableContainerView, AddresableEventsList, EventContainer, EventContainerView, Events,
    EventsList, EventsView, MessageContainer, MessageContainerView, containers_view, events_view,
};
use crate::game::map::{
    FieldView, GameField, GameFieldInfo, GameFieldInfoView, first_wall_pos, second_wall_pos,
};
use crate::game::mapobj::{MapObject, WallMapObj};
use crate::game::tank::{Tank, TankInfo, TankView, command_effect};
use crate::game::user::{User, UserInfo, UserView, start_healpoints};
use crate::game::wallobj::{WallInfo, WallObj};
use crate::game::run::Outcome;
use crate::game::states::{lemma_add_player, lemma_new_game, lemma_process_message, lemma_tick};

verus! {

/// What a unit, or the field, tells about itself.
pub enum InfoObject {
    Tank(TankInfo),
    User(UserInfo),
    Wall(WallInfo),
    Field(GameFieldInfo),
}

/// The value of an [`InfoObject`].
pub enum InfoObjectView {
    Tank(TankInfo),
    User(UserInfo),
    Wall(WallInfo),
    Field(GameFieldInfoView),
}

impl View for InfoObject {
    type V = InfoObjectView;

    open spec fn view(&self) -> InfoObjectView {
        match self {
            InfoObject::Tank(t) => InfoObjectView::Tank(*t),
            InfoObject::User(u) => InfoObjectView::User(*u),
            InfoObject::Wall(w) => InfoObjectView::Wall(*w),
            InfoObject::Field(f) => InfoObjectView::Field(f@),
        }
    }
}

impl InfoObject {
    pub fn duplicate(&self) -> (r: InfoObject)
        ensures
            r@ == self@,
    {
        match self {
            InfoObject::Tank(t) => InfoObject::Tank(*t),
            InfoObject::User(u) => InfoObject::User(*u),
            InfoObject::Wall(w) => InfoObject::Wall(*w),
            InfoObject::Field(f) => InfoObject::Field(f.duplicate()),
        }
    }
}

/// The values of a list of infos.
pub open spec fn infos_view(v: Seq<InfoObject>) -> Seq<InfoObjectView> {
    v.map_values(|i: InfoObject| i@)
}

/// A copy of a list of infos.
pub fn duplicate_infos(v: &Vec<InfoObject>) -> (r: Vec<InfoObject>)
    ensures
        infos_view(r@) == infos_view(v@),
{
    let mut r: Vec<InfoObject> = Vec::new();
    for i in 0..v.len()
        invariant
            r@.len() == i,
            forall|j: int| 0 <= j < i ==> (#[trigger] r@[j])@ == v@[j]@,
    {
        r.push(v[i].duplicate());
    }
    assert(infos_view(r@) =~= infos_view(v@));
    r
}

/// A unit that takes part in the game.
pub enum GameObject {
    User(User),
    Tank(Tank),
    Wall(WallObj),
}

/// The value of a [`GameObject`].
pub enum GameObjectView {
    User(UserView),
    Tank(TankView),
    Wall(WallObj),
}

impl View for GameObject {
    type V = GameObjectView;

    open spec fn view(&self) -> GameObjectView {
        match self {
            GameObject::User(u) => GameObjectView::User(u@),
            GameObject::Tank(t) => GameObjectView::Tank(t@),
            GameObject::Wall(w) => GameObjectView::Wall(*w),
        }
    }
}

impl GameObjectView {
    pub open spec fn key(self) -> usize {
        match self {
            GameObjectView::User(u) => u.id,
            GameObjectView::Tank(t) => t.id,
            GameObjectView::Wall(w) => w.key,
        }
    }

    /// The unit takes the event: a user takes spawned tanks and changes of
    /// position, a tank takes commands, a wall takes anything.
    pub open spec fn accepts(self, ev: EventContainerView) -> bool {
        match self {
            GameObjectView::User(u) => u.accepts(ev),
            GameObjectView::Tank(_) => ev.evs is Command,
            GameObjectView::Wall(_) => true,
        }
    }

    /// The unit, and the field, after the unit takes the event.
    pub open spec fn process(self, ev: EventContainerView, field: FieldView) -> (GameObjectView, FieldView) {
        match self {
            GameObjectView::User(u) => (GameObjectView::User(u.process(ev)), field),
            GameObjectView::Tank(t) => match ev.evs {
                EventsView::Command(m) => (self, command_effect(field, t.map_obj, m.msg.cmd)),
                _ => (self, field),
            },
            GameObjectView::Wall(_) => (self, field),
        }
    }

    /// What the unit sends on a tick.
    pub open spec fn tick_events(self) -> Seq<AddresableContainerView> {
        match self {
            GameObjectView::User(u) => u.tick_events(),
            _ => seq![],
        }
    }

    /// What the unit tells about itself.
    pub open spec fn info(self) -> InfoObjectView {
        match self {
            GameObjectView::User(u) => InfoObjectView::User(UserInfo { item: "User", id: u.id, hp: u.healpoints }),
            GameObjectView::Tank(t) => InfoObjectView::Tank(TankInfo { dir: t.dir, id: t.id, item: "Tank" }),
            GameObjectView::Wall(w) => InfoObjectView::Wall(WallInfo { item: "Wall", id: w.key }),
        }
    }
}

impl GameObject {
    pub fn process(&mut self, msg: EventContainer, map: &mut GameField) -> (r: LogicResult<()>)
        requires
            old(self)@.accepts(msg@),
            old(map)@.wf(),
        ensures
            r is Ok,
            (final(self)@, final(map)@) == old(self)@.process(msg@, old(map)@),
    {
        match self {
            GameObject::User(u) => u.process(msg),
            GameObject::Tank(t) => t.process(msg, map),
            GameObject::Wall(w) => w.process(msg),
        }
    }

    pub fn tick(&mut self) -> (r: LogicResult<AddresableEventsList>)
        ensures
            r is Ok,
            containers_view(r->Ok_0@) == old(self)@.tick_events(),
            final(self)@ == old(self)@,
    {
        match self {
            GameObject::User(u) => u.tick(),
            GameObject::Tank(t) => {
                let r = t.tick();
                proof {
                    assert(containers_view(r->Ok_0@) =~= seq![]);
                }
                r
            },
            GameObject::Wall(w) => {
                let r = w.tick();
                proof {
                    assert(containers_view(r->Ok_0@) =~= seq![]);
                }
                r
            },
        }
    }

    /// Whether the unit takes the event.
    pub fn accepts(&self, msg: &EventContainer) -> (r: bool)
        ensures
            r == self@.accepts(msg@),
    {
        match self {
            GameObject::User(_) => match &msg.evs {
                Events::Spawned { unit, .. } => match unit {
                    crate::game::events::Unit::Tank(_) => true,
                    crate::game::events::Unit::SomeDefaultUnit => false,
                },
                Events::ChangePosition { .. } => true,
                _ => false,
            },
            GameObject::Tank(_) => match &msg.evs {
                Events::Command(_) => true,
                _ => false,
            },
            GameObject::Wall(_) => true,
        }
    }

    pub fn key(&self) -> (k: usize)
        ensures
            k == self@.key(),
    {
        match self {
            GameObject::User(u) => u.key(),
            GameObject::Tank(t) => t.key(),
            GameObject::Wall(w) => w.key(),
        }
    }

    pub fn get_info(&self) -> (r: LogicResult<InfoObject>)
        ensures
            r is Ok,
            r->Ok_0@ == self@.info(),
    {
        match self {
            GameObject::User(u) => Ok(InfoObject::User(u.get_info())),
            GameObject::Tank(t) => Ok(InfoObject::Tank(t.get_info())),
            GameObject::Wall(w) => Ok(InfoObject::Wall(w.get_info())),
        }
    }
}

/// How many players a game takes.
pub const NUM_PLAYERS: usize = 1;

/// The broker of a game and the field it plays on.
pub struct Logic {
    pub system: Broker,
    pub map: GameField,
}

/// A game: its players, each by name with the key of its unit, and its logic.
pub struct Game {
    pub users: Vec<(String, usize)>,
    pub logic: Logic,
}

/// The value of a [`Game`].
pub struct GameView {
    pub users: Seq<(Seq<char>, usize)>,
    pub world: World,
}

impl View for Game {
    type V = GameView;

    open spec fn view(&self) -> GameView {
        GameView {
            users: self.users@.map_values(|p: (String, usize)| (p.0@, p.1)),
            world: World { broker: self.logic.system@, field: self.logic.map@ },
        }
    }
}

/// The wall unit under key `k`.
pub open spec fn wall_unit(k: usize) -> GameObjectView {
    GameObjectView::Wall(WallObj { key: k })
}

/// The world of a new game: two walls, under keys 1 and 2, each on the field
/// and registered with a channel of its own.
pub open spec fn new_game_world() -> World {
    World {
        broker: BrokerView {
            channels: map![1usize => Seq::<Subscriber>::empty(), 2usize => Seq::<Subscriber>::empty()],
            units: seq![wall_unit(1), wall_unit(2)],
            replaced: Map::empty(),
            task_queue: seq![],
            counter: 2,
        },
        field: FieldView {
            replaced: Map::empty(),
            maps: seq![
                MapObject::Wall(WallMapObj { key: 1, pos: first_wall_pos(10) }),
                MapObject::Wall(WallMapObj { key: 2, pos: second_wall_pos(10) }),
            ],
            map_dim: 500,
            cell_dim: 10,
        },
    }
}

/// What a game tells about itself: each unit, then the field.
pub open spec fn game_infos(w: World) -> Seq<InfoObjectView> {
    w.broker.infos().push(InfoObjectView::Field(w.field.info()))
}

/// The event that carries a player's command to its unit.
pub open spec fn command_event(msg: MessageContainerView) -> EventContainerView {
    EventContainerView { unit: SYSTEM, evs: EventsView::Command(msg) }
}

/// The lobby check of `process_message`: `!len < NUM_PLAYERS`, where `!` is
/// the bitwise not of the number of players, so that it refuses only when
/// every bit of that number is set.
pub open spec fn lobby_refuses(len: usize) -> bool {
    !len < NUM_PLAYERS
}

impl GameView {
    /// A player named `name` joins: refused with an error event when the lobby
    /// is full; otherwise the player gets a user unit under the next key, and
    /// the game reports the connection and what it now holds.
    pub open spec fn add_player(self, name: Seq<char>) -> (GameView, Seq<EventContainerView>) {
        if self.users.len() >= NUM_PLAYERS {
            (self, seq![EventContainerView { unit: 0, evs: EventsView::Error { err: "lobbi is full"@, user: name } }])
        } else {
            let key = (self.world.broker.counter + 1) as usize;
            let user = GameObjectView::User(UserView { id: key, healpoints: start_healpoints(), units: seq![] });
            let world = World {
                broker: BrokerView { counter: key, ..self.world.broker }.add_system(user),
                ..self.world
            };
            (
                GameView { users: self.users.push((name, key)), world },
                seq![
                    EventContainerView { unit: SYSTEM, evs: EventsView::UserConnected { user_name: name } },
                    EventContainerView { unit: SYSTEM, evs: EventsView::GameInfo(game_infos(world)) },
                ],
            )
        }
    }

    /// A player's command is handed to the unit it names.
    pub open spec fn process_message(self, msg: MessageContainerView) -> Outcome<World> {
        if lobby_refuses(self.users.len() as usize) {
            Outcome { state: self.world, error: Some("Not enought players"@) }
        } else {
            self.world.pass_direct_unit(msg.msg.unit, command_event(msg))
        }
    }

    /// The command goes to a unit that takes it: a tank or a wall, not a player.
    pub open spec fn message_ok(self, msg: MessageContainerView) -> bool {
        lobby_refuses(self.users.len() as usize) || self.world.direct_ok(msg.msg.unit, command_event(msg))
    }
}

impl Game {
    /// A new game: a field with two walls and no players.
    pub fn new() -> (g: Game)
        ensures
            g@.users == Seq::<(Seq<char>, usize)>::empty(),
            g@.world == new_game_world(),
            g@.inv(),
            g@.world.keys_handed_out(),
    {
        let mut map = GameField::new();
        let mut brok = Broker::new();
        map.generate_map(&mut brok);
        let g = Game { logic: Logic { system: brok, map }, users: Vec::new() };
        proof {
            lemma_new_game();
            crate::game::fresh::lemma_new_game_keys();
            assert(g@.users =~= Seq::<(Seq<char>, usize)>::empty());
        }
        g
    }

    /// What the game tells about itself: each unit, then the field.
    pub fn collect_info(&self) -> (r: LogicResult<Vec<InfoObject>>)
        ensures
            r is Ok,
            infos_view(r->Ok_0@) == game_infos(self@.world),
    {
        let mut inf = self.logic.system.collect_info()?;
        let mut mapinfo = self.logic.map.get_info()?;
        let ghost a = infos_view(inf@);
        let ghost b = infos_view(mapinfo@);
        inf.append(&mut mapinfo);
        assert(infos_view(inf@) =~= a + b);
        assert(a + b =~= game_infos(self@.world));
        Ok(inf)
    }

    /// A player named `user` joins the game.
    pub fn add_player(&mut self, user: String) -> (r: LogicResult<EventsList>)
        requires
            old(self)@.world.wf(),
            old(self)@.users.len() < NUM_PLAYERS ==> old(self)@.world.broker.counter < usize::MAX,
        ensures
            r is Ok,
            final(self)@ == old(self)@.add_player(user@).0,
            events_view(r->Ok_0@) == old(self)@.add_player(user@).1,
            final(self)@.world.wf(),
            old(self)@.inv() ==> final(self)@.inv(),
            old(self)@.world.keys_handed_out() ==> final(self)@.world.keys_handed_out(),
    {
        proof {
            if self@.world.keys_handed_out() {
                crate::game::fresh::lemma_add_player_keys(self@, user@);
            }
        }
        if self.users.len() >= NUM_PLAYERS {
            let mut v: Vec<EventContainer> = Vec::new();
            v.push(EventContainer { unit: 0, evs: Events::Error { err: "lobbi is full".to_owned(), user } });
            assert(events_view(v@) =~= old(self)@.add_player(user@).1);
            return Ok(v);
        }
        proof {
            if self@.inv() {
                lemma_add_player(self@, user@);
            }
        }
        let key = self.logic.system.produce_key();
        let us = User::new(key);
        let ghost old_users = self@.users;
        self.users.push((user.clone(), key));
        assert(self@.users =~= old_users.push((user@, key)));
        let _ = self.logic.system.add_system(GameObject::User(us));
        let mut res: Vec<EventContainer> = Vec::new();
        res.push(EventContainer { unit: SYSTEM, evs: Events::UserConnected { user_name: user } });
        let info = self.collect_info()?;
        let infoevent = EventContainer { unit: SYSTEM, evs: Events::GameInfo(info) };
        res.push(infoevent);
        assert(events_view(res@) =~= old(self)@.add_player(user@).1);
        return Ok(res);
    }

    /// Hands a player's command to the unit it names; an error when that unit
    /// is not registered.
    pub fn process_message(&mut self, msg: MessageContainer) -> (r: LogicResult<()>)
        requires
            old(self)@.world.wf(),
            old(self)@.message_ok(msg@),
        ensures
            final(self)@.users == old(self)@.users,
            final(self)@.world == old(self)@.process_message(msg@).state,
            match r {
                Ok(_) => old(self)@.process_message(msg@).error is None,
                Err(e) => old(self)@.process_message(msg@).error == Some(e@),
            },
            final(self)@.world.wf(),
            old(self)@.inv() ==> final(self)@.inv(),
            old(self)@.world.keys_handed_out() ==> final(self)@.world.keys_handed_out(),
    {
        proof {
            if self@.inv() {
                lemma_process_message(self@, msg@);
            }
            if self@.world.keys_handed_out() {
                crate::game::fresh::lemma_process_message_keys(self@, msg@);
            }
        }
        if !self.users.len() < NUM_PLAYERS {
            return Err(GameLogicError::new("Not enought players"));
        }
        let evc = EventContainer { unit: SYSTEM, evs: Events::Command(msg.duplicate()) };
        self.logic.system.pass_direct_unit(msg.msg.unit, evc, &mut self.logic.map)?;
        Ok(())
    }

    /// Whether the unit a command names takes it; a command to a player's own
    /// unit is one it does not take.
    pub fn accepts_message(&self, msg: &MessageContainer) -> (r: bool)
        requires
            self@.world.wf(),
        ensures
            r == self@.message_ok(msg@),
    {
        if !self.users.len() < NUM_PLAYERS {
            return true;
        }
        let evc = EventContainer { unit: SYSTEM, evs: Events::Command(msg.duplicate()) };
        self.logic.system.accepts_direct(msg.msg.unit, &evc)
    }

    /// One tick of the game.
    pub fn tick(&mut self) -> (r: LogicResult<EventsList>)
        requires
            old(self)@.world.wf(),
            old(self)@.world.tick_ok(),
        ensures
            final(self)@.users == old(self)@.users,
            final(self)@.world == old(self)@.world.tick().state.world,
            match r {
                Ok(v) => {
                    &&& old(self)@.world.tick().error is None
                    &&& events_view(v@) == old(self)@.world.tick().state.events
                },
                Err(e) => old(self)@.world.tick().error == Some(e@),
            },
            final(self)@.world.wf(),
            old(self)@.inv() ==> r is Ok && final(self)@.inv(),
            old(self)@.world.keys_handed_out() ==> final(self)@.world.keys_handed_out(),
    {
        proof {
            if self@.inv() {
                lemma_tick(self@);
            }
            if self@.world.keys_handed_out() {
                crate::game::fresh::lemma_tick_keys(self@.world);
            }
        }
        self.logic.system.tick(&mut self.logic.map)
    }
}

} // verus!
