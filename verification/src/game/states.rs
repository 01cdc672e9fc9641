use vstd::prelude::*;

use crate::game::broker::{
    BrokerView, Step, Subscriber, World, lemma_add_system_wf, lemma_process_at, queue_step, spawned_event,
    unit_keys, unit_tick_ok, unit_tick_step,
};
use crate::game::events::{
    AddresType, AddresableContainerView, Direction, EventContainerView, EventsView, MessageContainerView,
    SpawneReq,
};
use crate::game::keyed::{lemma_position_absent, lemma_position_unique};
use crate::game::logic::{GameObjectView, GameView, command_event, lobby_refuses, new_game_world, wall_unit};
use crate::game::map::{FieldView, MapRef, first_wall_pos, map_keys, second_wall_pos};
use crate::game::mapobj::{MapObject, WallMapObj};
use crate::game::run::{Outcome, run, run_ok, lemma_run_empty, lemma_run_next, lemma_run_one, lemma_run_two};
use crate::game::tank::TankView;
use crate::game::user::{UserView, spawn_request, start_healpoints};
use crate::game::wallobj::WallObj;

verus! {

/// The unit of the player, under key 3, with the tanks it has been given.
pub open spec fn player_unit(tanks: Seq<usize>) -> GameObjectView {
    GameObjectView::User(UserView { id: 3, healpoints: start_healpoints(), units: tanks })
}

/// The tank of the player, under key 4.
pub open spec fn player_tank() -> GameObjectView {
    GameObjectView::Tank(TankView { dir: Direction::Up, id: 4, owner: 3, map_obj: MapRef { key: 4, gen: 0 } })
}

/// The player's request for a tank.
pub open spec fn request_event() -> EventContainerView {
    EventContainerView { unit: 3, evs: EventsView::SpawneRequest(SpawneReq::Tank) }
}

/// The news that the player's tank has been spawned.
pub open spec fn spawned_news() -> EventContainerView {
    spawned_event(3, 4).events[0]
}

impl GameView {
    /// The states a game can be in: no player yet; the player without a tank,
    /// its request possibly queued; or the player with its one tank, the news
    /// of the spawn possibly still queued.
    pub open spec fn shape(self) -> bool {
        let b = self.world.broker;
        ||| (self.users.len() == 0 && b.units == seq![wall_unit(1), wall_unit(2)] && b.counter == 2 && b.task_queue
            == Seq::<EventContainerView>::empty())
        ||| (self.users.len() == 1 && b.units == seq![wall_unit(1), wall_unit(2), player_unit(seq![])] && b.counter == 3
            && (b.task_queue == Seq::<EventContainerView>::empty() || b.task_queue == seq![request_event()]))
        ||| (self.users.len() == 1 && b.units == seq![wall_unit(1), wall_unit(2), player_unit(seq![4]), player_tank()]
            && b.counter == 4 && (b.task_queue == Seq::<EventContainerView>::empty() || b.task_queue == seq![spawned_news()]))
    }

    /// What holds of every game: its world is well formed, every key in use
    /// has been handed out, and it has one of the shapes above.
    pub open spec fn inv(self) -> bool {
        self.world.wf() && self.world.keys_handed_out() && self.shape()
    }
}

/// The field after the two walls of a new game are placed on an empty one.
pub open spec fn walled_field() -> FieldView {
    FieldView { maps: seq![], replaced: Map::empty(), map_dim: 500, cell_dim: 10 }.add_new(
        MapObject::Wall(WallMapObj { key: 1, pos: first_wall_pos(10) }),
    ).add_new(MapObject::Wall(WallMapObj { key: 2, pos: second_wall_pos(10) }))
}

/// The broker after the two walls of a new game are registered with an empty one.
pub open spec fn walled_broker() -> BrokerView {
    let b0 = BrokerView { channels: Map::empty(), units: seq![], replaced: Map::empty(), task_queue: seq![], counter: 0 };
    let b2 = BrokerView { counter: 1, ..b0 }.add_system(GameObjectView::Wall(WallObj { key: 1 }));
    BrokerView { counter: 2, ..b2 }.add_system(GameObjectView::Wall(WallObj { key: 2 }))
}

/// The game with no player in the world of a new game.
pub open spec fn new_game() -> GameView {
    GameView { users: Seq::<(Seq<char>, usize)>::empty(), world: new_game_world() }
}

/// A key beyond the counter is not on the field.
proof fn lemma_no_key_beyond(w: World, k: usize)
    requires
        w.keys_handed_out(),
        k > w.broker.counter,
    ensures
        !map_keys(w.field.maps).contains(k),
{
    if map_keys(w.field.maps).contains(k) {
        let j = choose|j: int| 0 <= j < map_keys(w.field.maps).len() && map_keys(w.field.maps)[j] == k;
        assert(map_keys(w.field.maps)[j] <= w.broker.counter);
    }
}

/// A game starts well formed, with no player.
pub proof fn lemma_new_game()
    ensures
        walled_field() == new_game_world().field,
        walled_broker() == new_game_world().broker,
        new_game().inv(),
{
    let f0 = FieldView { maps: seq![], replaced: Map::empty(), map_dim: 500, cell_dim: 10 };
    let w1 = MapObject::Wall(WallMapObj { key: 1, pos: first_wall_pos(10) });
    let w2 = MapObject::Wall(WallMapObj { key: 2, pos: second_wall_pos(10) });
    assert(map_keys(f0.maps) =~= Seq::<usize>::empty());
    lemma_position_absent(map_keys(f0.maps), 1);
    let f1 = f0.add_new(w1);
    assert(f1.maps =~= seq![w1]);
    assert(map_keys(f1.maps) =~= seq![1usize]);
    lemma_position_absent(map_keys(f1.maps), 2);
    let f2 = f1.add_new(w2);
    assert(f2.maps =~= seq![w1, w2]);
    assert(map_keys(f2.maps) =~= seq![1usize, 2usize]);
    let b0 = BrokerView { channels: Map::empty(), units: seq![], replaced: Map::empty(), task_queue: seq![], counter: 0 };
    let b1 = BrokerView { counter: 1, ..b0 };
    assert(unit_keys(b1.units) =~= Seq::<usize>::empty());
    lemma_position_absent(unit_keys(b1.units), 1);
    let b2 = b1.add_system(wall_unit(1));
    assert(b2.units =~= seq![wall_unit(1)]);
    assert(b2.channels =~= map![1usize => Seq::<Subscriber>::empty()]);
    let b3 = BrokerView { counter: 2, ..b2 };
    assert(unit_keys(b3.units) =~= seq![1usize]);
    lemma_position_absent(unit_keys(b3.units), 2);
    let b4 = b3.add_system(wall_unit(2));
    assert(b4.units =~= seq![wall_unit(1), wall_unit(2)]);
    assert(b4.channels =~= map![1usize => Seq::<Subscriber>::empty(), 2usize => Seq::<Subscriber>::empty()]);
    assert(unit_keys(b4.units) =~= seq![1usize, 2usize]);
    assert(b4 == new_game_world().broker);
    crate::game::fresh::lemma_new_game_keys();
    assert(new_game_world().wf());
}

/// Units that send nothing on a tick leave a run of unit ticks where it started.
pub proof fn lemma_quiet_units(start: Step, n: int)
    requires
        start.world.wf(),
        0 <= n <= start.world.broker.units.len(),
        forall|j: int| 0 <= j < n ==> (#[trigger] start.world.broker.units[j]).tick_events() == Seq::<AddresableContainerView>::empty(),
    ensures
        run(start, unit_keys(start.world.broker.units).take(n), |s: Step, k: usize| unit_tick_step(s, k))
            == (Outcome { state: start, error: None::<Seq<char>> }),
        run_ok(start, unit_keys(start.world.broker.units).take(n), |s: Step, k: usize| unit_tick_step(s, k), |s: Step, k: usize| unit_tick_ok(s, k)),
    decreases n,
{
    let keys = unit_keys(start.world.broker.units);
    let step = |s: Step, k: usize| unit_tick_step(s, k);
    let okf = |s: Step, k: usize| unit_tick_ok(s, k);
    if n == 0 {
        assert(keys.take(0) =~= Seq::<usize>::empty());
        lemma_run_empty(start, step, okf);
    } else {
        lemma_quiet_units(start, n - 1);
        lemma_run_next(start, keys, step, n - 1);
        lemma_position_unique(keys, n - 1);
        let w = start.world;
        assert(w.broker.unit_index(keys[n - 1]) == n - 1);
        assert(w.broker.units[n - 1].tick_events() == Seq::<AddresableContainerView>::empty());
        lemma_run_empty(w, |w: World, c: AddresableContainerView| w.pass_message_addresable(c), |w: World, c: AddresableContainerView| w.message_ok(c));
        assert(start.out + Seq::<AddresableContainerView>::empty() =~= start.out);
        assert(keys.take(n).drop_last() =~= keys.take(n - 1));
    }
}

/// Passing on a request for a tank puts the request in the system queue.
pub proof fn lemma_pass_request(w: World, id: usize)
    ensures
        w.pass_all(seq![spawn_request(id)]) == (Outcome {
            state: w.pass_system(EventContainerView { unit: id, evs: EventsView::SpawneRequest(SpawneReq::Tank) }),
            error: None::<Seq<char>>,
        }),
        w.pass_all_ok(seq![spawn_request(id)]),
{
    let sr = spawn_request(id);
    let ev = EventContainerView { unit: id, evs: EventsView::SpawneRequest(SpawneReq::Tank) };
    lemma_run_one(w, sr, |w: World, c: AddresableContainerView| w.pass_message_addresable(c), |w: World, c: AddresableContainerView| w.message_ok(c));
    lemma_run_one(w, ev, |w: World, e: EventContainerView| w.send_to_all(sr.addres, e), |w: World, e: EventContainerView| w.send_to_all_ok(sr.addres, e));
    lemma_run_one(w, AddresType::System, |w: World, a: AddresType| w.pass_addresable(a, ev), |w: World, a: AddresType| w.addr_ok(a, ev));
}

/// Passing on the news of the player's tank queues it and gives the player its tank.
pub proof fn lemma_pass_spawned(w: World)
    requires
        w.wf(),
        w.broker.units == seq![wall_unit(1), wall_unit(2), player_unit(seq![]), player_tank()],
    ensures
        w.pass_all(seq![spawned_event(3, 4)]).error is None,
        w.pass_all(seq![spawned_event(3, 4)]).state.broker.units
            == seq![wall_unit(1), wall_unit(2), player_unit(seq![4]), player_tank()],
        w.pass_all(seq![spawned_event(3, 4)]).state.broker.task_queue == w.broker.task_queue.push(spawned_news()),
        w.pass_all(seq![spawned_event(3, 4)]).state.broker.counter == w.broker.counter,
        w.pass_all(seq![spawned_event(3, 4)]).state.wf(),
        w.pass_all_ok(seq![spawned_event(3, 4)]),
{
    let se = spawned_event(3, 4);
    let ev = spawned_news();
    assert(se.events =~= seq![ev]);
    assert(se.addres =~= seq![AddresType::System, AddresType::Direct(3)]);
    lemma_run_one(w, se, |w: World, c: AddresableContainerView| w.pass_message_addresable(c), |w: World, c: AddresableContainerView| w.message_ok(c));
    lemma_run_one(w, ev, |w: World, e: EventContainerView| w.send_to_all(se.addres, e), |w: World, e: EventContainerView| w.send_to_all_ok(se.addres, e));
    lemma_run_two(w, AddresType::System, AddresType::Direct(3), |w: World, a: AddresType| w.pass_addresable(a, ev), |w: World, a: AddresType| w.addr_ok(a, ev));
    let w1 = w.pass_system(ev);
    assert(unit_keys(w1.broker.units) =~= seq![1usize, 2usize, 3usize, 4usize]);
    lemma_position_unique(unit_keys(w1.broker.units), 2);
    assert(w1.broker.unit_index(3) == 2);
    let w2 = w1.process_at(2, ev);
    assert(w2.broker.units =~= seq![wall_unit(1), wall_unit(2), player_unit(seq![4]), player_tank()]);
    assert(w.keeps_layout(w1));
    crate::game::broker::lemma_layout_wf(w, w1);
    lemma_process_at(w1, 2, ev);
}

/// An idle game, with nothing queued and no unit that sends anything, stays as it is on a tick.
pub proof fn lemma_tick_idle(w: World)
    requires
        w.wf(),
        w.broker.task_queue == Seq::<EventContainerView>::empty(),
        forall|j: int| 0 <= j < w.broker.units.len() ==> (#[trigger] w.broker.units[j]).tick_events() == Seq::<AddresableContainerView>::empty(),
    ensures
        w.tick_ok(),
        w.tick().error is None,
        w.tick().state.world == w,
        w.tick().state.events == Seq::<EventContainerView>::empty(),
{
    let start = Step { world: w, out: seq![] };
    lemma_run_empty(start, |s: Step, ev: EventContainerView| queue_step(s, ev), |s: Step, ev: EventContainerView| s.world.system_ok(ev));
    let q = w.process_system_queue();
    assert(q.state.world == w);
    lemma_run_empty(w, |w: World, c: AddresableContainerView| w.pass_message_addresable(c), |w: World, c: AddresableContainerView| w.message_ok(c));
    lemma_quiet_units(start, w.broker.units.len() as int);
    assert(unit_keys(w.broker.units).take(w.broker.units.len() as int) =~= unit_keys(w.broker.units));
    assert(Seq::<AddresableContainerView>::empty() + Seq::<AddresableContainerView>::empty() =~= Seq::<AddresableContainerView>::empty());
    assert(Seq::<AddresableContainerView>::empty().map_values(|c: AddresableContainerView| c.events) =~= Seq::<Seq<EventContainerView>>::empty());
}

proof fn lemma_events_one(c: AddresableContainerView)
    ensures
        crate::game::broker::events_of(seq![c]) == c.events,
{
    let m = seq![c].map_values(|c: AddresableContainerView| c.events);
    assert(m =~= seq![c.events]);
    m.lemma_flatten_one_element();
}

/// The player's first tick: it asks for a tank.
pub proof fn lemma_tick_request(w: World)
    requires
        w.wf(),
        w.broker.units == seq![wall_unit(1), wall_unit(2), player_unit(seq![])],
        w.broker.task_queue == Seq::<EventContainerView>::empty(),
    ensures
        w.tick_ok(),
        w.tick().error is None,
        w.tick().state.world == w.pass_system(request_event()),
        w.tick().state.events == seq![request_event()],
{
    let start = Step { world: w, out: seq![] };
    lemma_run_empty(start, |s: Step, ev: EventContainerView| queue_step(s, ev), |s: Step, ev: EventContainerView| s.world.system_ok(ev));
    let q = w.process_system_queue();
    assert(q.state.world == w);
    lemma_run_empty(w, |w: World, c: AddresableContainerView| w.pass_message_addresable(c), |w: World, c: AddresableContainerView| w.message_ok(c));
    let keys = unit_keys(w.broker.units);
    let step = |s: Step, k: usize| unit_tick_step(s, k);
    let okf = |s: Step, k: usize| unit_tick_ok(s, k);
    assert(keys =~= seq![1usize, 2usize, 3usize]);
    lemma_quiet_units(start, 2);
    lemma_run_next(start, keys, step, 2);
    lemma_position_unique(keys, 2);
    assert(w.broker.unit_index(3) == 2);
    assert(w.broker.units[2].tick_events() == seq![spawn_request(3)]);
    lemma_pass_request(w, 3);
    assert(keys.take(3).drop_last() =~= keys.take(2));
    assert(keys.take(3) =~= keys);
    assert(run_ok(start, keys, step, okf));
    let u = run(start, keys, step);
    assert(u.state.out =~= seq![spawn_request(3)]);
    assert(q.state.out + u.state.out =~= seq![spawn_request(3)]);
    lemma_events_one(spawn_request(3));
}

/// The tick after the request: the player's tank is spawned and handed to it.
pub proof fn lemma_tick_spawn(w: World)
    requires
        w.wf(),
        w.broker.units == seq![wall_unit(1), wall_unit(2), player_unit(seq![])],
        w.broker.counter == 3,
        w.broker.task_queue == seq![request_event()],
        !map_keys(w.field.maps).contains(4),
    ensures
        w.tick_ok(),
        w.tick().error is None,
        w.tick().state.world.broker.units == seq![wall_unit(1), wall_unit(2), player_unit(seq![4]), player_tank()],
        w.tick().state.world.broker.counter == 4,
        w.tick().state.world.broker.task_queue == seq![spawned_news()],
        w.tick().state.events == seq![spawned_news()],
        w.tick().state.world.wf(),
{
    let start = Step { world: w, out: seq![] };
    let req = request_event();
    lemma_run_one(start, req, |s: Step, ev: EventContainerView| queue_step(s, ev), |s: Step, ev: EventContainerView| s.world.system_ok(ev));
    // the spawn
    let tank = player_tank();
    let b1 = BrokerView { counter: 4, ..w.broker };
    assert(unit_keys(b1.units) =~= seq![1usize, 2usize, 3usize]);
    lemma_position_absent(unit_keys(b1.units), 4);
    let b2 = b1.add_system(tank);
    assert(b2.units =~= seq![wall_unit(1), wall_unit(2), player_unit(seq![]), player_tank()]);
    assert(unit_keys(b2.units) =~= seq![1usize, 2usize, 3usize, 4usize]);
    lemma_position_unique(unit_keys(b2.units), 2);
    assert(b2.unit_index(3) == 2);
    lemma_add_system_wf(b1, tank);
    crate::game::broker::lemma_subscribe_wf(b2, 4, 3);
    crate::game::map::lemma_add_new_wf(w.field, MapObject::Tank(crate::game::map_fabric::new_tank_map_obj(4)));
    let f2 = w.field.add_new(MapObject::Tank(crate::game::map_fabric::new_tank_map_obj(4)));
    crate::game::keyed::lemma_position_of(map_keys(w.field.maps), 4);
    assert(!w.field.replaced.contains_key(4usize));
    assert(f2.history(4) =~= Seq::<MapObject>::empty());
    assert(f2.current(4) == MapRef { key: 4, gen: 0 });
    let sp = w.spawn_tank(3);
    assert(sp.error is None);
    assert(sp.state.out == seq![spawned_event(3, 4)]);
    assert(sp.state.world.broker.units == b2.units);
    assert(sp.state.world.wf());
    let q = w.process_system_queue();
    assert(seq![] + sp.state.out =~= sp.state.out);
    assert(q.error is None);
    assert(q.state.out == seq![spawned_event(3, 4)]);
    let w2 = q.state.world;
    assert(w2.broker.task_queue == Seq::<EventContainerView>::empty());
    assert(w2.wf());
    lemma_pass_spawned(w2);
    let p = w2.pass_all(q.state.out);
    let w3 = p.state;
    assert(w3.broker.task_queue =~= seq![spawned_news()]);
    let start3 = Step { world: w3, out: seq![] };
    lemma_quiet_units(start3, 4);
    assert(unit_keys(w3.broker.units).take(4) =~= unit_keys(w3.broker.units));
    let u = run(start3, unit_keys(w3.broker.units), |s: Step, k: usize| unit_tick_step(s, k));
    assert(u.state.world == w3);
    assert(q.state.out + u.state.out =~= seq![spawned_event(3, 4)]);
    lemma_events_one(spawned_event(3, 4));
    assert(spawned_event(3, 4).events =~= seq![spawned_news()]);
}

/// The tick after the spawn: the news waiting in the system queue is dropped.
pub proof fn lemma_tick_news(w: World)
    requires
        w.wf(),
        w.broker.units == seq![wall_unit(1), wall_unit(2), player_unit(seq![4]), player_tank()],
        w.broker.task_queue == seq![spawned_news()],
    ensures
        w.tick_ok(),
        w.tick().error is None,
        w.tick().state.world.broker.units == w.broker.units,
        w.tick().state.world.broker.counter == w.broker.counter,
        w.tick().state.world.broker.task_queue == Seq::<EventContainerView>::empty(),
        w.tick().state.events == Seq::<EventContainerView>::empty(),
{
    let start = Step { world: w, out: seq![] };
    lemma_run_one(start, spawned_news(), |s: Step, ev: EventContainerView| queue_step(s, ev), |s: Step, ev: EventContainerView| s.world.system_ok(ev));
    let q = w.process_system_queue();
    assert(seq![] + Seq::<AddresableContainerView>::empty() =~= Seq::<AddresableContainerView>::empty());
    let w1 = q.state.world;
    assert(w.keeps_layout(w1));
    crate::game::broker::lemma_layout_wf(w, w1);
    lemma_run_empty(w1, |w: World, c: AddresableContainerView| w.pass_message_addresable(c), |w: World, c: AddresableContainerView| w.message_ok(c));
    let start1 = Step { world: w1, out: seq![] };
    lemma_quiet_units(start1, 4);
    assert(unit_keys(w1.broker.units).take(4) =~= unit_keys(w1.broker.units));
    assert(Seq::<AddresableContainerView>::empty() + Seq::<AddresableContainerView>::empty() =~= Seq::<AddresableContainerView>::empty());
    assert(Seq::<AddresableContainerView>::empty().map_values(|c: AddresableContainerView| c.events) =~= Seq::<Seq<EventContainerView>>::empty());
}

/// A tick of a game in one of its shapes succeeds, never hands a unit an
/// event it does not take, and leaves the game in one of its shapes.
pub proof fn lemma_tick(g: GameView)
    requires
        g.inv(),
    ensures
        g.world.tick_ok(),
        g.world.tick().error is None,
        (GameView { users: g.users, world: g.world.tick().state.world }).shape(),
{
    let w = g.world;
    let b = w.broker;
    if b.units == seq![wall_unit(1), wall_unit(2)] {
        lemma_tick_idle(w);
    } else if b.units == seq![wall_unit(1), wall_unit(2), player_unit(seq![])] {
        if b.task_queue == Seq::<EventContainerView>::empty() {
            lemma_tick_request(w);
            assert(w.tick().state.world.broker.task_queue =~= seq![request_event()]);
        } else {
            lemma_no_key_beyond(w, 4);
            lemma_tick_spawn(w);
        }
    } else {
        if b.task_queue == Seq::<EventContainerView>::empty() {
            assert forall|j: int| 0 <= j < w.broker.units.len() implies (#[trigger] w.broker.units[j]).tick_events()
                == Seq::<AddresableContainerView>::empty() by {
                if j == 2 {
                    assert(w.broker.units[2] == player_unit(seq![4]));
                }
            }
            lemma_tick_idle(w);
        } else {
            lemma_tick_news(w);
        }
    }
}

/// A player joining a game without one keeps the game in one of its shapes.
pub proof fn lemma_add_player(g: GameView, name: Seq<char>)
    requires
        g.inv(),
        g.users.len() < crate::game::logic::NUM_PLAYERS,
    ensures
        g.world.broker.counter < usize::MAX,
        g.add_player(name).0.shape(),
{
    let b1 = BrokerView { counter: 3, ..g.world.broker };
    assert(unit_keys(b1.units) =~= seq![1usize, 2usize]);
    lemma_position_absent(unit_keys(b1.units), 3);
    let u = GameObjectView::User(UserView { id: 3, healpoints: start_healpoints(), units: seq![] });
    assert(b1.add_system(u).units =~= seq![wall_unit(1), wall_unit(2), player_unit(seq![])]);
}

/// A command to a unit that takes it keeps the game in one of its shapes.
pub proof fn lemma_process_message(g: GameView, msg: MessageContainerView)
    requires
        g.inv(),
        g.message_ok(msg),
    ensures
        !lobby_refuses(g.users.len() as usize),
        (GameView { users: g.users, world: g.process_message(msg).state }).shape(),
{
    let n = g.users.len() as usize;
    assert(n <= 1usize ==> !n >= 1usize) by (bit_vector);
    let w = g.world;
    let ev = command_event(msg);
    let i = w.broker.unit_index(msg.msg.unit);
    if i >= 0 {
        crate::game::keyed::lemma_position_of(unit_keys(w.broker.units), msg.msg.unit);
        assert(!(w.broker.units[i] is User));
        assert(w.process_at(i, ev).broker.units =~= w.broker.units);
    }
}

/// A player that joins an empty game asks for a tank on its first tick, is
/// given exactly one on the next, and asks for nothing after that.
pub proof fn lemma_player_gets_one_tank(g: GameView)
    requires
        g.inv(),
        g.world.broker.units == seq![wall_unit(1), wall_unit(2), player_unit(seq![])],
        g.world.broker.task_queue == Seq::<EventContainerView>::empty(),
    ensures
        g.world.tick().state.events == seq![request_event()],
        g.world.tick().state.world.tick().state.events == seq![spawned_news()],
        g.world.tick().state.world.tick().state.world.broker.units
            == seq![wall_unit(1), wall_unit(2), player_unit(seq![4]), player_tank()],
        g.world.tick().state.world.tick().state.world.tick().state.events == Seq::<EventContainerView>::empty(),
        g.world.tick().state.world.tick().state.world.tick().state.world.broker.units
            == seq![wall_unit(1), wall_unit(2), player_unit(seq![4]), player_tank()],
{
    let w0 = g.world;
    lemma_no_key_beyond(w0, 4);
    lemma_tick_request(w0);
    let w1 = w0.tick().state.world;
    assert(w0.keeps_layout(w1));
    crate::game::broker::lemma_layout_wf(w0, w1);
    assert(w1.broker.task_queue =~= seq![request_event()]);
    assert(w0.broker.counter == 3);
    lemma_tick_spawn(w1);
    let w2 = w1.tick().state.world;
    lemma_tick_news(w2);
}

/// In every state of a game, the only tank is the player's one, and the
/// player holds at most that one.
pub proof fn lemma_at_most_one_tank(g: GameView)
    requires
        g.inv(),
    ensures
        g.users.len() <= crate::game::logic::NUM_PLAYERS,
        forall|i: int| 0 <= i < g.world.broker.units.len() && (#[trigger] g.world.broker.units[i]) is Tank ==> i == 3
            && g.world.broker.units[i] == player_tank(),
        forall|i: int| 0 <= i < g.world.broker.units.len() && (#[trigger] g.world.broker.units[i]) is User ==> g.world.broker.units[i]->User_0.units.len() <= 1,
{
}

/// In every state of a game, the next key to be handed out is not the key of any unit.
pub proof fn lemma_next_key_fresh(g: GameView)
    requires
        g.inv(),
    ensures
        g.world.broker.counter < usize::MAX,
        !unit_keys(g.world.broker.units).contains((g.world.broker.counter + 1) as usize),
{
    let b = g.world.broker;
    if b.counter == 2 {
        assert(unit_keys(b.units) =~= seq![1usize, 2usize]);
    } else if b.counter == 3 {
        assert(unit_keys(b.units) =~= seq![1usize, 2usize, 3usize]);
    } else {
        assert(unit_keys(b.units) =~= seq![1usize, 2usize, 3usize, 4usize]);
    }
}

} // verus!
