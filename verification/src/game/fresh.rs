use vstd::prelude::*;

use crate::game::broker::{
    BrokerView, Step, Subscriber, World, lemma_add_system_wf, lemma_deliver_layout, lemma_process_at, lemma_subscribe_wf, queue_step, unit_keys,
    unit_tick_step,
};
use crate::game::events::{AddresType, AddresableContainerView, Direction, EventContainerView};
use crate::game::logic::{GameObjectView, GameView, NUM_PLAYERS, new_game_world};
use crate::game::user::{UserView, start_healpoints};
use crate::game::map::{MapRef, lemma_add_new_wf, map_keys};
use crate::game::map_fabric::new_tank_map_obj;
use crate::game::mapobj::MapObject;
use crate::game::run::{lemma_run_keeps, lemma_run_ok_keeps, run};
use crate::game::tank::TankView;

verus! {

/// Both worlds are well formed and `b` has the layout of `a`.
pub open spec fn same_layout(a: World, b: World) -> bool {
    a.wf() && b.wf() && a.keeps_layout(b)
}

/// Handing an event to a unit by its key keeps a well-formed world's layout.
pub proof fn lemma_direct_layout(w: World, key: usize, ev: EventContainerView)
    requires
        w.wf(),
    ensures
        same_layout(w, w.pass_direct_unit(key, ev).state),
{
    let i = w.broker.unit_index(key);
    crate::game::keyed::lemma_position_of(unit_keys(w.broker.units), key);
    if i >= 0 {
        lemma_process_at(w, i, ev);
    }
}

/// Handing an event to the subscribers of its unit keeps a well-formed world's layout.
pub proof fn lemma_broadcast_layout(w: World, ev: EventContainerView)
    requires
        w.wf(),
    ensures
        same_layout(w, w.pass_broadcast(ev).state),
{
    if w.broker.channels.contains_key(ev.unit) {
        let p = |x: World| same_layout(w, x);
        let step = |x: World, s: Subscriber| x.deliver(s, ev);
        assert forall|x: World, s: Subscriber| p(x) implies #[trigger] p(step(x, s).state) by {
            lemma_deliver_layout(x, s, ev);
        }
        lemma_run_keeps(w, w.broker.channels[ev.unit], step, p);
    }
}

/// Passing an event to an address keeps a well-formed world's layout.
pub proof fn lemma_addresable_layout(w: World, addr: AddresType, ev: EventContainerView)
    requires
        w.wf(),
    ensures
        same_layout(w, w.pass_addresable(addr, ev).state),
{
    match addr {
        AddresType::Direct(k) => lemma_direct_layout(w, k, ev),
        AddresType::System => {},
        AddresType::Broadcast => lemma_broadcast_layout(w, ev),
    }
}

/// Passing addressed events on keeps a well-formed world's layout.
pub proof fn lemma_pass_all_layout(w: World, cs: Seq<AddresableContainerView>)
    requires
        w.wf(),
    ensures
        same_layout(w, w.pass_all(cs).state),
{
    let p = |x: World| same_layout(w, x);
    assert forall|x: World, c: AddresableContainerView| p(x) implies #[trigger] p(x.pass_message_addresable(c).state) by {
        let px = |y: World| same_layout(x, y);
        assert forall|y: World, e: EventContainerView| px(y) implies #[trigger] px(y.send_to_all(c.addres, e).state) by {
            let py = |z: World| same_layout(y, z);
            assert forall|z: World, a: AddresType| py(z) implies #[trigger] py(z.pass_addresable(a, e).state) by {
                lemma_addresable_layout(z, a, e);
            }
            lemma_run_keeps(y, c.addres, |z: World, a: AddresType| z.pass_addresable(a, e), py);
        }
        lemma_run_keeps(x, c.events, |y: World, e: EventContainerView| y.send_to_all(c.addres, e), px);
    }
    lemma_run_keeps(w, cs, |x: World, c: AddresableContainerView| x.pass_message_addresable(c), p);
}

impl World {
    /// Every key in use, by a unit or by an object on the field, is one that
    /// the key counter has already handed out.
    pub open spec fn keys_handed_out(self) -> bool {
        &&& forall|i: int| 0 <= i < self.broker.units.len() ==> #[trigger] unit_keys(self.broker.units)[i] <= self.broker.counter
        &&& forall|i: int| 0 <= i < self.field.maps.len() ==> #[trigger] map_keys(self.field.maps)[i] <= self.broker.counter
    }
}

/// A world with the layout of one whose keys were all handed out has its keys handed out too.
pub proof fn lemma_layout_keys(a: World, b: World)
    requires
        a.keys_handed_out(),
        a.keeps_layout(b),
    ensures
        b.keys_handed_out(),
{
    assert forall|i: int| 0 <= i < b.broker.units.len() implies #[trigger] unit_keys(b.broker.units)[i] <= b.broker.counter by {
        assert(unit_keys(b.broker.units).len() == b.broker.units.len());
        assert(unit_keys(a.broker.units).len() == a.broker.units.len());
        assert(unit_keys(a.broker.units)[i] <= a.broker.counter);
    }
    assert forall|i: int| 0 <= i < b.field.maps.len() implies #[trigger] map_keys(b.field.maps)[i] <= b.broker.counter by {
        assert(map_keys(b.field.maps).len() == b.field.maps.len());
        assert(map_keys(a.field.maps).len() == a.field.maps.len());
        assert(map_keys(a.field.maps)[i] <= a.broker.counter);
    }
}

/// When every key in use was handed out, a spawned tank gets a key that no
/// unit and no object on the field has: the tank and its field object are
/// added after all others, nothing is replaced, and every key in use is
/// still one that was handed out.
pub proof fn lemma_spawn_fresh(w: World, user: usize)
    requires
        w.wf(),
        w.keys_handed_out(),
        w.broker.counter < usize::MAX,
    ensures
        !unit_keys(w.broker.units).contains((w.broker.counter + 1) as usize),
        !map_keys(w.field.maps).contains((w.broker.counter + 1) as usize),
        w.spawn_tank(user).state.world.broker.units == w.broker.units.push(
            GameObjectView::Tank(TankView { dir: Direction::Up, id: (w.broker.counter + 1) as usize, owner: user, map_obj: MapRef { key: (w.broker.counter + 1) as usize, gen: 0 } }),
        ),
        w.spawn_tank(user).state.world.field.maps == w.field.maps.push(MapObject::Tank(new_tank_map_obj((w.broker.counter + 1) as usize))),
        w.spawn_tank(user).state.world.broker.counter == w.broker.counter + 1,
        w.spawn_tank(user).state.world.wf(),
        w.spawn_tank(user).state.world.keys_handed_out(),
{
    let key = (w.broker.counter + 1) as usize;
    let o = MapObject::Tank(new_tank_map_obj(key));
    let tank = GameObjectView::Tank(TankView { dir: Direction::Up, id: key, owner: user, map_obj: MapRef { key, gen: 0 } });
    let field = w.field.add_new(o);
    let b1 = BrokerView { counter: key, ..w.broker };
    let b = b1.add_system(tank);
    if unit_keys(w.broker.units).contains(key) {
        let j = choose|j: int| 0 <= j < unit_keys(w.broker.units).len() && unit_keys(w.broker.units)[j] == key;
        assert(unit_keys(w.broker.units)[j] <= w.broker.counter);
    }
    if map_keys(w.field.maps).contains(key) {
        let j = choose|j: int| 0 <= j < map_keys(w.field.maps).len() && map_keys(w.field.maps)[j] == key;
        assert(map_keys(w.field.maps)[j] <= w.broker.counter);
    }
    crate::game::keyed::lemma_position_of(unit_keys(w.broker.units), key);
    crate::game::keyed::lemma_position_of(map_keys(w.field.maps), key);
    assert(b1.unit_index(key) == -1);
    assert(!w.field.replaced.contains_key(key));
    assert(field.history(key) =~= Seq::<MapObject>::empty());
    assert(field.current(key) == MapRef { key, gen: 0 });
    assert(b.units == w.broker.units.push(tank));
    assert(field.maps == w.field.maps.push(o));
    lemma_add_new_wf(w.field, o);
    lemma_add_system_wf(b1, tank);
    lemma_subscribe_wf(b, key, user);
    let w2 = w.spawn_tank(user).state.world;
    assert(w2.broker.units == b.units);
    assert(unit_keys(b.units) =~= unit_keys(w.broker.units).push(key));
    assert(map_keys(field.maps) =~= map_keys(w.field.maps).push(key));
    assert forall|i: int| 0 <= i < w2.broker.units.len() implies #[trigger] unit_keys(w2.broker.units)[i] <= w2.broker.counter by {
        if i < w.broker.units.len() {
            assert(unit_keys(w2.broker.units)[i] == unit_keys(w.broker.units)[i]);
        }
    }
    assert forall|i: int| 0 <= i < w2.field.maps.len() implies #[trigger] map_keys(w2.field.maps)[i] <= w2.broker.counter by {
        if i < w.field.maps.len() {
            assert(map_keys(w2.field.maps)[i] == map_keys(w.field.maps)[i]);
        }
    }
}

/// The system handling a queued event it takes keeps the world well formed
/// with every key in use handed out.
pub proof fn lemma_queue_step_keys(s: Step, ev: EventContainerView)
    requires
        s.world.wf(),
        s.world.keys_handed_out(),
        s.world.system_ok(ev),
    ensures
        queue_step(s, ev).state.world.wf(),
        queue_step(s, ev).state.world.keys_handed_out(),
{
    if ev.evs is SpawneRequest {
        lemma_spawn_fresh(s.world, ev.unit);
    }
}

/// A tick that hands no unit an event it does not take keeps the world well
/// formed, and every key in use, after it as before, is one the counter has
/// handed out; so every tank it spawns gets a key of its own.
pub proof fn lemma_tick_keys(w: World)
    requires
        w.wf(),
        w.keys_handed_out(),
        w.tick_ok(),
    ensures
        w.tick().state.world.wf(),
        w.tick().state.world.keys_handed_out(),
{
    let start = Step { world: w, out: seq![] };
    let qstep = |s: Step, ev: EventContainerView| queue_step(s, ev);
    let qok = |s: Step, ev: EventContainerView| s.world.system_ok(ev);
    let pq = |s: Step| s.world.wf() && s.world.keys_handed_out();
    assert forall|s: Step, ev: EventContainerView| pq(s) && qok(s, ev) implies #[trigger] pq(qstep(s, ev).state) by {
        lemma_queue_step_keys(s, ev);
    }
    lemma_run_ok_keeps(start, w.broker.task_queue, qstep, qok, pq);
    let r = run(start, w.broker.task_queue, qstep);
    let q = w.process_system_queue();
    if r.error is None {
        assert(r.state.world.keeps_layout(q.state.world));
        lemma_layout_keys(r.state.world, q.state.world);
    }
    if q.error is None {
        let p = q.state.world.pass_all(q.state.out);
        lemma_pass_all_layout(q.state.world, q.state.out);
        lemma_layout_keys(q.state.world, p.state);
        if p.error is None {
            let ustart = Step { world: p.state, out: seq![] };
            let ustep = |s: Step, k: usize| unit_tick_step(s, k);
            let pu = |s: Step| same_layout(p.state, s.world);
            assert forall|s: Step, k: usize| pu(s) implies #[trigger] pu(ustep(s, k).state) by {
                let i = s.world.broker.unit_index(k);
                if i >= 0 {
                    lemma_pass_all_layout(s.world, s.world.broker.units[i].tick_events());
                }
            }
            lemma_run_keeps(ustart, unit_keys(p.state.broker.units), ustep, pu);
            let u = run(ustart, unit_keys(p.state.broker.units), ustep);
            lemma_layout_keys(p.state, u.state.world);
        }
    }
}

/// In the world of a new game every key in use has been handed out.
pub proof fn lemma_new_game_keys()
    ensures
        new_game_world().keys_handed_out(),
{
    let w = new_game_world();
    assert(unit_keys(w.broker.units) =~= seq![1usize, 2usize]);
    assert(map_keys(w.field.maps) =~= seq![1usize, 2usize]);
}

/// A player joining gets a unit under a key that no unit has, added after
/// all others; the world stays well formed with every key in use handed out.
pub proof fn lemma_add_player_keys(g: GameView, name: Seq<char>)
    requires
        g.world.wf(),
        g.world.keys_handed_out(),
        g.users.len() < NUM_PLAYERS ==> g.world.broker.counter < usize::MAX,
    ensures
        g.add_player(name).0.world.wf(),
        g.add_player(name).0.world.keys_handed_out(),
        g.users.len() < NUM_PLAYERS ==> !unit_keys(g.world.broker.units).contains((g.world.broker.counter + 1) as usize),
        g.users.len() < NUM_PLAYERS ==> g.add_player(name).0.world.broker.units == g.world.broker.units.push(
            GameObjectView::User(UserView { id: (g.world.broker.counter + 1) as usize, healpoints: start_healpoints(), units: seq![] }),
        ),
{
    if g.users.len() < NUM_PLAYERS {
        let w = g.world;
        let key = (w.broker.counter + 1) as usize;
        let user = GameObjectView::User(UserView { id: key, healpoints: start_healpoints(), units: seq![] });
        let b1 = BrokerView { counter: key, ..w.broker };
        if unit_keys(w.broker.units).contains(key) {
            let j = choose|j: int| 0 <= j < unit_keys(w.broker.units).len() && unit_keys(w.broker.units)[j] == key;
            assert(unit_keys(w.broker.units)[j] <= w.broker.counter);
        }
        crate::game::keyed::lemma_position_of(unit_keys(w.broker.units), key);
        assert(b1.unit_index(key) == -1);
        lemma_add_system_wf(b1, user);
        let w2 = g.add_player(name).0.world;
        assert(w2.broker.units == w.broker.units.push(user));
        assert(unit_keys(w2.broker.units) =~= unit_keys(w.broker.units).push(key));
        assert forall|i: int| 0 <= i < w2.broker.units.len() implies #[trigger] unit_keys(w2.broker.units)[i] <= w2.broker.counter by {
            if i < w.broker.units.len() {
                assert(unit_keys(w2.broker.units)[i] == unit_keys(w.broker.units)[i]);
            }
        }
        assert forall|i: int| 0 <= i < w2.field.maps.len() implies #[trigger] map_keys(w2.field.maps)[i] <= w2.broker.counter by {
            assert(map_keys(w.field.maps)[i] <= w.broker.counter);
        }
    }
}

/// A player's command keeps the world well formed with its layout, so every
/// key in use is still one that was handed out.
pub proof fn lemma_process_message_keys(g: GameView, msg: crate::game::events::MessageContainerView)
    requires
        g.world.wf(),
        g.world.keys_handed_out(),
    ensures
        same_layout(g.world, g.process_message(msg).state),
        g.process_message(msg).state.keys_handed_out(),
{
    lemma_direct_layout(g.world, msg.msg.unit, crate::game::logic::command_event(msg));
    lemma_layout_keys(g.world, g.process_message(msg).state);
}

/// Spawning a tank for a unit that is registered: the tank gets the next key,
/// the requesting unit alone is subscribed to the tank's channel, and the one
/// thing reported is, to the system and to that unit, that a tank facing up
/// with the new key was spawned for it.
pub proof fn lemma_spawn_reports(w: World, user: usize)
    requires
        w.wf(),
        w.broker.unit_index(user) >= 0,
        w.broker.counter < usize::MAX,
    ensures
        w.spawn_tank(user).error is None,
        w.spawn_tank(user).state.out == seq![
            AddresableContainerView {
                addres: seq![AddresType::System, AddresType::Direct(user)],
                events: seq![
                    EventContainerView {
                        unit: user,
                        evs: crate::game::events::EventsView::Spawned {
                            owner: user,
                            unit: crate::game::events::Unit::Tank(crate::game::tank::TankInfo {
                                dir: Direction::Up,
                                id: (w.broker.counter + 1) as usize,
                                item: "Tank",
                            }),
                        },
                    },
                ],
            },
        ],
        w.spawn_tank(user).state.world.broker.channels[(w.broker.counter + 1) as usize].len() == 1,
        w.spawn_tank(user).state.world.broker.channels[(w.broker.counter + 1) as usize][0].key == user,
        w.spawn_tank(user).state.world.broker.counter == w.broker.counter + 1,
{
    let key = (w.broker.counter + 1) as usize;
    let field = w.field.add_new(MapObject::Tank(new_tank_map_obj(key)));
    let tank = GameObjectView::Tank(TankView { dir: Direction::Up, id: key, owner: user, map_obj: field.current(key) });
    let b1 = BrokerView { counter: key, ..w.broker };
    lemma_add_system_wf(b1, tank);
    let b = b1.add_system(tank);
    assert(unit_keys(b1.units) == unit_keys(w.broker.units));
    crate::game::keyed::lemma_position_of(unit_keys(w.broker.units), user);
    assert(unit_keys(w.broker.units).contains(user));
    assert(unit_keys(b.units).contains(user));
    crate::game::keyed::lemma_position_of(unit_keys(b.units), user);
}

/// A player joining: refused, with nothing changed, when the lobby is full,
/// by an error event for that player; otherwise remembered with the key of
/// its new unit, and announced to all, followed by what the game now holds.
pub proof fn lemma_add_player_reports(g: GameView, name: Seq<char>)
    ensures
        g.users.len() >= NUM_PLAYERS ==> g.add_player(name).0 == g && g.add_player(name).1 == seq![
            EventContainerView {
                unit: 0,
                evs: crate::game::events::EventsView::Error { err: "lobbi is full"@, user: name },
            },
        ],
        g.users.len() < NUM_PLAYERS ==> {
            &&& g.add_player(name).0.users == g.users.push((name, (g.world.broker.counter + 1) as usize))
            &&& g.add_player(name).0.world.broker.counter == (g.world.broker.counter + 1) as usize
            &&& g.add_player(name).0.world.field == g.world.field
            &&& g.add_player(name).1.len() == 2
            &&& g.add_player(name).1[0] == (EventContainerView {
                unit: 0,
                evs: crate::game::events::EventsView::UserConnected { user_name: name },
            })
            &&& g.add_player(name).1[1] == (EventContainerView {
                unit: 0,
                evs: crate::game::events::EventsView::GameInfo(crate::game::logic::game_infos(g.add_player(name).0.world)),
            })
        },
{
}

} // verus!
