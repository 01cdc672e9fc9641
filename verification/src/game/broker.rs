use vstd::prelude::*;

use crate::game::errors::{GameLogicError, LogicResult};
use crate::game::events::{
    AddresType, AddresableContainer, AddresableContainerView, AddresableEventsList, Direction,
    EventContainer, EventContainerView, Events, EventsList, EventsView, SpawneReq, Unit,
    containers_view, duplicate_events, events_view,
};
use crate::game::keyed::{position_of, lemma_position_unique, lemma_position_absent, lemma_push_fresh};
use crate::game::logic::{GameObject, GameObjectView, InfoObject, InfoObjectView, infos_view};
use crate::game::map::{FieldView, GameField, lemma_updates_keep_keys, map_keys};
use crate::game::map_fabric::{MapObjectsFabric, new_tank_map_obj};
use crate::game::mapobj::MapObject;
use crate::game::run::{Outcome, run, run_ok, lemma_run_next, lemma_run_all, lemma_run_stops, lemma_run_ok_at};
use crate::game::tank::{Tank, TankInfo, TankView};
use std::collections::HashMap;

verus! {

broadcast use vstd::std_specs::hash::group_hash_axioms;

/// The key under which the broker itself sends events.
pub const SYSTEM: usize = 0;

/// A subscriber of a channel: the unit that was registered under `key` after
/// `gen` earlier units under that key had been replaced. While no other unit
/// has taken its key it is the unit registered there; once replaced it lives
/// on among the replaced units of its key, and its channels still reach it.
#[derive(Clone, Copy, Debug, PartialEq, Eq, Structural)]
pub struct Subscriber {
    pub key: usize,
    pub gen: usize,
}

/// Routes events between the units of a game: each unit is registered under
/// its key, each key has a channel of subscribers, and events addressed to
/// the system wait in a queue until the next tick. Units are kept in the
/// order they were added, and every walk over them (a tick, the infos) goes
/// in that order; channels are only ever looked up by their key. A unit
/// that another unit replaces under its key is kept, by key, among the
/// replaced units, for the channels that still hold it.
pub struct Broker {
    channels: HashMap<usize, Vec<Subscriber>>,
    units: Vec<GameObject>,
    replaced: HashMap<usize, Vec<GameObject>>,
    task_queue: Vec<EventContainer>,
    counter: usize,
    map_objects_fabric: MapObjectsFabric,
}

/// The value of a [`Broker`]: the subscribers of each channel by its key, the
/// units in the order they were added, and under each key the units replaced
/// there, in the order they were replaced.
pub struct BrokerView {
    pub channels: Map<usize, Seq<Subscriber>>,
    pub units: Seq<GameObjectView>,
    pub replaced: Map<usize, Seq<GameObjectView>>,
    pub task_queue: Seq<EventContainerView>,
    pub counter: usize,
}

impl View for Broker {
    type V = BrokerView;

    closed spec fn view(&self) -> BrokerView {
        BrokerView {
            channels: self.channels@.map_values(|v: Vec<Subscriber>| v@),
            units: self.units@.map_values(|u: GameObject| u@),
            replaced: self.replaced@.map_values(|v: Vec<GameObject>| v@.map_values(|u: GameObject| u@)),
            task_queue: events_view(self.task_queue@),
            counter: self.counter,
        }
    }
}

/// The broker together with the field it places units on.
pub struct World {
    pub broker: BrokerView,
    pub field: FieldView,
}

/// A world, and the addressed events produced so far.
pub struct Step {
    pub world: World,
    pub out: Seq<AddresableContainerView>,
}

/// A world after a tick, and the events the tick reports.
pub struct Ticked {
    pub world: World,
    pub events: Seq<EventContainerView>,
}

pub open spec fn unit_keys(units: Seq<GameObjectView>) -> Seq<usize> {
    units.map_values(|u: GameObjectView| u.key())
}

/// The events of a list of addressed events, in order.
pub open spec fn events_of(cs: Seq<AddresableContainerView>) -> Seq<EventContainerView> {
    cs.map_values(|c: AddresableContainerView| c.events).flatten()
}

pub open spec fn no_such_unit() -> Seq<char> {
    "No such unit"@
}

pub open spec fn no_such_channel() -> Seq<char> {
    "No such channel"@
}

/// What the broker sends when it has spawned the tank `key` for `user`: the
/// news, to the system queue and to the user.
pub open spec fn spawned_event(user: usize, key: usize) -> AddresableContainerView {
    AddresableContainerView {
        addres: seq![AddresType::System, AddresType::Direct(user)],
        events: seq![
            EventContainerView {
                unit: user,
                evs: EventsView::Spawned {
                    owner: user,
                    unit: Unit::Tank(TankInfo { dir: Direction::Up, id: key, item: "Tank" }),
                },
            },
        ],
    }
}

impl BrokerView {
    /// Keys of units are not repeated, and every subscriber is a unit, the one
    /// registered under its key or one replaced there.
    pub open spec fn wf(self) -> bool {
        &&& unit_keys(self.units).no_duplicates()
        &&& forall|k: usize, j: int|
            self.channels.contains_key(k) && 0 <= j < self.channels[k].len() ==> self.holds(#[trigger] self.channels[k][j])
    }

    /// The units replaced under `k`, in the order they were replaced.
    pub open spec fn history(self, k: usize) -> Seq<GameObjectView> {
        if self.replaced.contains_key(k) {
            self.replaced[k]
        } else {
            seq![]
        }
    }

    /// The subscriber's key is that of a unit.
    pub open spec fn holds(self, s: Subscriber) -> bool {
        unit_keys(self.units).contains(s.key)
    }

    /// A subscriber for the unit now registered under `k`.
    pub open spec fn current(self, k: usize) -> Subscriber {
        Subscriber { key: k, gen: self.history(k).len() as usize }
    }

    pub open spec fn unit_index(self, k: usize) -> int {
        position_of(unit_keys(self.units), k)
    }

    /// The broker with `o` registered under its key, and with a channel for
    /// that key if it had none. A unit already under that key is replaced: it
    /// joins the replaced units of the key, where the channels holding it
    /// still reach it.
    pub open spec fn add_system(self, o: GameObjectView) -> BrokerView {
        let k = o.key();
        let i = self.unit_index(k);
        BrokerView {
            channels: if self.channels.contains_key(k) { self.channels } else { self.channels.insert(k, seq![]) },
            units: if i >= 0 { self.units.update(i, o) } else { self.units.push(o) },
            replaced: if i >= 0 { self.replaced.insert(k, self.history(k).push(self.units[i])) } else { self.replaced },
            ..self
        }
    }

    /// The broker with the channel of `key` holding `subscriber` alone; an
    /// error when `subscriber` is not a unit.
    pub open spec fn subscribe(self, key: usize, subscriber: usize) -> Outcome<BrokerView> {
        if self.unit_index(subscriber) < 0 {
            Outcome { state: self, error: Some(no_such_unit()) }
        } else {
            Outcome {
                state: BrokerView { channels: self.channels.insert(key, seq![self.current(subscriber)]), ..self },
                error: None,
            }
        }
    }

    /// What each unit tells about itself, in order.
    pub open spec fn infos(self) -> Seq<InfoObjectView> {
        self.units.map_values(|u: GameObjectView| u.info())
    }
}

impl World {
    pub open spec fn wf(self) -> bool {
        self.broker.wf() && self.field.wf()
    }

    /// Both worlds have the same unit keys, channels, numbers of replaced
    /// units, key counter and field keys.
    pub open spec fn keeps_layout(self, other: World) -> bool {
        &&& unit_keys(other.broker.units) == unit_keys(self.broker.units)
        &&& other.broker.channels == self.broker.channels
        &&& forall|k: usize| #[trigger] other.broker.history(k).len() == self.broker.history(k).len()
        &&& other.broker.counter == self.broker.counter
        &&& map_keys(other.field.maps) == map_keys(self.field.maps)
        &&& other.field.replaced.dom() == self.field.replaced.dom()
    }

    /// The world after the unit at position `i` takes `ev`.
    pub open spec fn process_at(self, i: int, ev: EventContainerView) -> World {
        let (u, f) = self.broker.units[i].process(ev, self.field);
        World { broker: BrokerView { units: self.broker.units.update(i, u), ..self.broker }, field: f }
    }

    pub open spec fn pass_direct_unit(self, key: usize, ev: EventContainerView) -> Outcome<World> {
        let i = self.broker.unit_index(key);
        if i < 0 {
            Outcome { state: self, error: Some(no_such_unit()) }
        } else {
            Outcome { state: self.process_at(i, ev), error: None }
        }
    }

    pub open spec fn direct_ok(self, key: usize, ev: EventContainerView) -> bool {
        let i = self.broker.unit_index(key);
        i < 0 || self.broker.units[i].accepts(ev)
    }

    /// The world after the unit replaced `gen`-th under `key` takes `ev`.
    pub open spec fn process_replaced(self, key: usize, gen: int, ev: EventContainerView) -> World {
        let h = self.broker.history(key);
        let (u, f) = h[gen].process(ev, self.field);
        World { broker: BrokerView { replaced: self.broker.replaced.insert(key, h.update(gen, u)), ..self.broker }, field: f }
    }

    /// Whether the subscriber is a unit replaced under its key.
    pub open spec fn is_replaced(self, sub: Subscriber) -> bool {
        sub.gen < self.broker.history(sub.key).len()
    }

    /// One subscriber takes `ev`: a replaced unit, or the unit now under its key.
    pub open spec fn deliver(self, sub: Subscriber, ev: EventContainerView) -> Outcome<World> {
        if self.is_replaced(sub) {
            Outcome { state: self.process_replaced(sub.key, sub.gen as int, ev), error: None }
        } else {
            let i = self.broker.unit_index(sub.key);
            if i < 0 {
                Outcome { state: self, error: None }
            } else {
                Outcome { state: self.process_at(i, ev), error: None }
            }
        }
    }

    /// The subscriber takes `ev`.
    pub open spec fn deliver_ok(self, sub: Subscriber, ev: EventContainerView) -> bool {
        if self.is_replaced(sub) {
            self.broker.history(sub.key)[sub.gen as int].accepts(ev)
        } else {
            self.direct_ok(sub.key, ev)
        }
    }

    pub open spec fn pass_broadcast(self, ev: EventContainerView) -> Outcome<World> {
        if !self.broker.channels.contains_key(ev.unit) {
            Outcome { state: self, error: Some(no_such_channel()) }
        } else {
            run(self, self.broker.channels[ev.unit], |w: World, s: Subscriber| w.deliver(s, ev))
        }
    }

    pub open spec fn broadcast_ok(self, ev: EventContainerView) -> bool {
        !self.broker.channels.contains_key(ev.unit) || run_ok(
            self,
            self.broker.channels[ev.unit],
            |w: World, s: Subscriber| w.deliver(s, ev),
            |w: World, s: Subscriber| w.deliver_ok(s, ev),
        )
    }

    pub open spec fn pass_system(self, ev: EventContainerView) -> World {
        World { broker: BrokerView { task_queue: self.broker.task_queue.push(ev), ..self.broker }, ..self }
    }

    pub open spec fn pass_addresable(self, addr: AddresType, ev: EventContainerView) -> Outcome<World> {
        match addr {
            AddresType::Direct(k) => self.pass_direct_unit(k, ev),
            AddresType::System => Outcome { state: self.pass_system(ev), error: None },
            AddresType::Broadcast => self.pass_broadcast(ev),
        }
    }

    /// Passing `ev` to `addr` does not hand a unit an event it does not take.
    pub open spec fn addr_ok(self, addr: AddresType, ev: EventContainerView) -> bool {
        match addr {
            AddresType::Direct(k) => self.direct_ok(k, ev),
            AddresType::System => true,
            AddresType::Broadcast => self.broadcast_ok(ev),
        }
    }

    /// One event passed to each address in turn.
    pub open spec fn send_to_all(self, addrs: Seq<AddresType>, ev: EventContainerView) -> Outcome<World> {
        run(self, addrs, |w: World, a: AddresType| w.pass_addresable(a, ev))
    }

    pub open spec fn send_to_all_ok(self, addrs: Seq<AddresType>, ev: EventContainerView) -> bool {
        run_ok(
            self,
            addrs,
            |w: World, a: AddresType| w.pass_addresable(a, ev),
            |w: World, a: AddresType| w.addr_ok(a, ev),
        )
    }

    /// Each event of `c` passed to each of its addresses.
    pub open spec fn pass_message_addresable(self, c: AddresableContainerView) -> Outcome<World> {
        run(self, c.events, |w: World, e: EventContainerView| w.send_to_all(c.addres, e))
    }

    pub open spec fn message_ok(self, c: AddresableContainerView) -> bool {
        run_ok(
            self,
            c.events,
            |w: World, e: EventContainerView| w.send_to_all(c.addres, e),
            |w: World, e: EventContainerView| w.send_to_all_ok(c.addres, e),
        )
    }

    /// Spawns a tank for `user` under the next key: its field object, its unit,
    /// its channel with `user` as subscriber, and the news of it.
    pub open spec fn spawn_tank(self, user: usize) -> Outcome<Step> {
        let key = (self.broker.counter + 1) as usize;
        let field = self.field.add_new(MapObject::Tank(new_tank_map_obj(key)));
        let tank = GameObjectView::Tank(TankView { dir: Direction::Up, id: key, owner: user, map_obj: field.current(key) });
        let b = BrokerView { counter: key, ..self.broker }.add_system(tank);
        let s = b.subscribe(key, user);
        if s.error is Some {
            Outcome { state: Step { world: World { broker: b, field }, out: seq![] }, error: s.error }
        } else {
            Outcome { state: Step { world: World { broker: s.state, field }, out: seq![spawned_event(user, key)] }, error: None }
        }
    }

    /// What the system does with a queued event: a spawn request spawns a tank
    /// for the requesting unit, and news of a spawn is dropped.
    pub open spec fn system_msg(self, ev: EventContainerView) -> Outcome<Step> {
        match ev.evs {
            EventsView::SpawneRequest(_) => self.spawn_tank(ev.unit),
            _ => Outcome { state: Step { world: self, out: seq![] }, error: None },
        }
    }

    /// The system handles only spawn requests and news of spawns, and has a key left to give.
    pub open spec fn system_ok(self, ev: EventContainerView) -> bool {
        ||| ev.evs is Spawned
        ||| (ev.evs is SpawneRequest && self.broker.counter < usize::MAX)
    }

    pub open spec fn process_system_queue(self) -> Outcome<Step> {
        let r = run(Step { world: self, out: seq![] }, self.broker.task_queue, |s: Step, ev: EventContainerView| queue_step(s, ev));
        if r.error is Some {
            r
        } else {
            Outcome {
                state: Step {
                    world: World { broker: BrokerView { task_queue: seq![], ..r.state.world.broker }, ..r.state.world },
                    out: r.state.out,
                },
                error: None,
            }
        }
    }

    pub open spec fn queue_ok(self) -> bool {
        run_ok(
            Step { world: self, out: seq![] },
            self.broker.task_queue,
            |s: Step, ev: EventContainerView| queue_step(s, ev),
            |s: Step, ev: EventContainerView| s.world.system_ok(ev),
        )
    }

    /// Each addressed event passed on in turn.
    pub open spec fn pass_all(self, cs: Seq<AddresableContainerView>) -> Outcome<World> {
        run(self, cs, |w: World, c: AddresableContainerView| w.pass_message_addresable(c))
    }

    pub open spec fn pass_all_ok(self, cs: Seq<AddresableContainerView>) -> bool {
        run_ok(
            self,
            cs,
            |w: World, c: AddresableContainerView| w.pass_message_addresable(c),
            |w: World, c: AddresableContainerView| w.message_ok(c),
        )
    }

    /// A tick: the system queue is handled and what it produced is passed on;
    /// then each unit, in order, ticks and what it sends is passed on. The
    /// tick reports the events of both, in that order.
    pub open spec fn tick(self) -> Outcome<Ticked> {
        let q = self.process_system_queue();
        if q.error is Some {
            Outcome { state: Ticked { world: q.state.world, events: seq![] }, error: q.error }
        } else {
            let p = q.state.world.pass_all(q.state.out);
            if p.error is Some {
                Outcome { state: Ticked { world: p.state, events: seq![] }, error: p.error }
            } else {
                let u = run(
                    Step { world: p.state, out: seq![] },
                    unit_keys(p.state.broker.units),
                    |s: Step, k: usize| unit_tick_step(s, k),
                );
                if u.error is Some {
                    Outcome { state: Ticked { world: u.state.world, events: seq![] }, error: u.error }
                } else {
                    Outcome {
                        state: Ticked { world: u.state.world, events: events_of(q.state.out + u.state.out) },
                        error: None,
                    }
                }
            }
        }
    }

    /// No step of a tick hands a unit an event it does not take, or the
    /// system an event it does not handle.
    pub open spec fn tick_ok(self) -> bool {
        let q = self.process_system_queue();
        &&& self.queue_ok()
        &&& q.error is None ==> {
            let p = q.state.world.pass_all(q.state.out);
            &&& q.state.world.pass_all_ok(q.state.out)
            &&& p.error is None ==> run_ok(
                Step { world: p.state, out: seq![] },
                unit_keys(p.state.broker.units),
                |s: Step, k: usize| unit_tick_step(s, k),
                |s: Step, k: usize| unit_tick_ok(s, k),
            )
        }
    }
}

/// One queued event handled, its output added to what came before.
pub open spec fn queue_step(s: Step, ev: EventContainerView) -> Outcome<Step> {
    let o = s.world.system_msg(ev);
    Outcome { state: Step { world: o.state.world, out: s.out + o.state.out }, error: o.error }
}

/// The unit under `k` ticks, and what it sends is passed on.
pub open spec fn unit_tick_step(s: Step, k: usize) -> Outcome<Step> {
    let i = s.world.broker.unit_index(k);
    if i < 0 {
        Outcome { state: s, error: None }
    } else {
        let evs = s.world.broker.units[i].tick_events();
        let r = s.world.pass_all(evs);
        Outcome { state: Step { world: r.state, out: s.out + evs }, error: r.error }
    }
}

pub open spec fn unit_tick_ok(s: Step, k: usize) -> bool {
    let i = s.world.broker.unit_index(k);
    i < 0 || s.world.pass_all_ok(s.world.broker.units[i].tick_events())
}

proof fn lemma_unit_keys_update(units: Seq<GameObjectView>, i: int, o: GameObjectView)
    requires
        0 <= i < units.len(),
        o.key() == units[i].key(),
    ensures
        unit_keys(units.update(i, o)) == unit_keys(units),
{
    assert(unit_keys(units.update(i, o)) =~= unit_keys(units));
}

proof fn lemma_unit_keys_push(units: Seq<GameObjectView>, o: GameObjectView)
    ensures
        unit_keys(units.push(o)) == unit_keys(units).push(o.key()),
{
    assert(unit_keys(units.push(o)) =~= unit_keys(units).push(o.key()));
}

/// Registering a unit keeps the broker well formed, and keeps every key it had.
pub proof fn lemma_add_system_wf(b: BrokerView, o: GameObjectView)
    requires
        b.wf(),
    ensures
        b.add_system(o).wf(),
        b.add_system(o).unit_index(o.key()) >= 0,
        forall|k: usize| unit_keys(b.units).contains(k) ==> unit_keys(b.add_system(o).units).contains(k),
{
    let k = o.key();
    let b2 = b.add_system(o);
    let ui = b.unit_index(k);
    if ui >= 0 {
        lemma_unit_keys_update(b.units, ui, o);
        assert(unit_keys(b2.units) == unit_keys(b.units));
        assert(unit_keys(b2.units).contains(k));
    } else {
        lemma_unit_keys_push(b.units, o);
        lemma_push_fresh(unit_keys(b.units), k);
        assert(unit_keys(b2.units)[b.units.len() as int] == k);
    }
    assert forall|x: usize| unit_keys(b.units).contains(x) implies unit_keys(b2.units).contains(x) by {
        let j = choose|j: int| 0 <= j < unit_keys(b.units).len() && unit_keys(b.units)[j] == x;
        assert(unit_keys(b2.units)[j] == x);
    }
    assert forall|c: usize, j: int| b2.channels.contains_key(c) && 0 <= j < b2.channels[c].len() implies b2.holds(
        #[trigger] b2.channels[c][j],
    ) by {
        assert(b.channels.contains_key(c));
        assert(b2.channels[c] == b.channels[c]);
        assert(b.holds(b.channels[c][j]));
    }
}

/// Subscribing keeps the broker well formed and leaves its units as they were.
pub proof fn lemma_subscribe_wf(b: BrokerView, key: usize, sub: usize)
    requires
        b.wf(),
    ensures
        b.subscribe(key, sub).state.wf(),
        b.subscribe(key, sub).state.units == b.units,
        b.subscribe(key, sub).state.replaced == b.replaced,
        b.subscribe(key, sub).state.task_queue == b.task_queue,
        b.subscribe(key, sub).state.counter == b.counter,
{
    let r = b.subscribe(key, sub);
    if r.error is None {
        let b2 = r.state;
        crate::game::keyed::lemma_position_of(unit_keys(b.units), sub);
        assert(unit_keys(b.units)[b.unit_index(sub)] == sub);
        assert(unit_keys(b.units).contains(sub));
        assert forall|c: usize, j: int| b2.channels.contains_key(c) && 0 <= j < b2.channels[c].len() implies b2.holds(
            #[trigger] b2.channels[c][j],
        ) by {
            if c == key {
                assert(b2.channels[c] == seq![b.current(sub)]);
            } else {
                assert(b2.channels[c] == b.channels[c]);
                assert(b.holds(b.channels[c][j]));
            }
        }
    }
}

impl Broker {
    pub fn new() -> (b: Broker)
        ensures
            b@ == (BrokerView { channels: Map::empty(), units: seq![], replaced: Map::empty(), task_queue: seq![], counter: SYSTEM }),
            b@.wf(),
    {
        let b = Broker {
            units: Vec::new(),
            replaced: HashMap::new(),
            channels: HashMap::new(),
            task_queue: Vec::new(),
            counter: SYSTEM,
            map_objects_fabric: MapObjectsFabric::new(),
        };
        assert(b@.units =~= seq![]);
        assert(b@.channels =~= Map::empty());
        assert(b@.replaced =~= Map::empty());
        assert(b@.task_queue =~= seq![]);
        b
    }

    /// The key counter: the last key handed out.
    pub fn counter(&self) -> (c: usize)
        ensures
            c == self@.counter,
    {
        self.counter
    }

    /// Where the unit under `key` stands among the units.
    fn find_unit(&self, key: usize) -> (r: Option<usize>)
        requires
            self@.wf(),
        ensures
            match r {
                Some(i) => i < self@.units.len() && i == self@.unit_index(key) && self@.units[i as int].key() == key,
                None => self@.unit_index(key) == -1,
            },
    {
        let mut i: usize = 0;
        while i < self.units.len()
            invariant
                i <= self.units.len(),
                self@.wf(),
                forall|j: int| 0 <= j < i ==> unit_keys(self@.units)[j] != key,
            decreases self.units.len() - i,
        {
            if self.units[i].key() == key {
                proof {
                    lemma_position_unique(unit_keys(self@.units), i as int);
                }
                return Some(i);
            }
            i = i + 1;
        }
        proof {
            lemma_position_absent(unit_keys(self@.units), key);
        }
        None
    }

    /// Hands out the next key.
    pub fn produce_key(&mut self) -> (k: usize)
        requires
            old(self)@.counter < usize::MAX,
        ensures
            k == old(self)@.counter + 1,
            final(self)@ == (BrokerView { counter: k, ..old(self)@ }),
    {
        self.counter += 1;
        self.counter
    }

    /// Registers a unit under its key, and opens a channel for that key if it
    /// had none. A unit already under that key is replaced: it is no longer
    /// ticked or asked for its info, but the channels that held it still hand
    /// it their events. A game never replaces a unit: the keys it registers
    /// come from the counter and are new (see `World::keys_handed_out`).
    pub fn add_system(&mut self, gobjo: GameObject) -> (r: LogicResult<()>)
        requires
            old(self)@.wf(),
        ensures
            r is Ok,
            final(self)@ == old(self)@.add_system(gobjo@),
            final(self)@.wf(),
    {
        proof {
            lemma_add_system_wf(self@, gobjo@);
        }
        let k = gobjo.key();
        let ghost old_view = self@;
        if !self.channels.contains_key(&k) {
            self.channels.insert(k, Vec::new());
            assert(self@.channels =~= old_view.channels.insert(k, seq![]));
        }
        let ghost mid = self@;
        match self.find_unit(k) {
            Some(i) => {
                let old_unit = self.units.remove(i);
                self.units.insert(i, gobjo);
                assert(self@.units =~= mid.units.update(i as int, gobjo@));
                let ghost hist = mid.history(k);
                let mut h: Vec<GameObject> = match self.replaced.remove(&k) {
                    Some(v) => v,
                    None => Vec::new(),
                };
                assert(h@.map_values(|u: GameObject| u@) =~= hist);
                h.push(old_unit);
                assert(h@.map_values(|u: GameObject| u@) =~= hist.push(mid.units[i as int]));
                self.replaced.insert(k, h);
                assert(self@.replaced =~= mid.replaced.insert(k, hist.push(mid.units[i as int])));
            },
            None => {
                self.units.push(gobjo);
                assert(self@.units =~= mid.units.push(gobjo@));
            },
        }
        Ok(())
    }

    /// How many units have been replaced under `k`.
    fn history_len(&self, k: usize) -> (n: usize)
        ensures
            n == self@.history(k).len(),
    {
        match self.replaced.get(&k) {
            Some(v) => v.len(),
            None => 0,
        }
    }

    /// Makes `subscriber` the only subscriber of the channel of `key`; an
    /// error when `subscriber` is not a unit.
    pub fn subscribe(&mut self, key: usize, subscriber: usize) -> (r: LogicResult<()>)
        requires
            old(self)@.wf(),
        ensures
            final(self)@ == old(self)@.subscribe(key, subscriber).state,
            final(self)@.wf(),
            match r {
                Ok(_) => old(self)@.subscribe(key, subscriber).error is None,
                Err(e) => old(self)@.subscribe(key, subscriber).error == Some(e@),
            },
    {
        proof {
            lemma_subscribe_wf(self@, key, subscriber);
        }
        if self.find_unit(subscriber).is_none() {
            return Err(GameLogicError::new("No such unit"));
        }
        let gen = self.history_len(subscriber);
        let mut subs: Vec<Subscriber> = Vec::new();
        subs.push(Subscriber { key: subscriber, gen });
        let ghost old_view = self@;
        assert(subs@ =~= seq![old_view.current(subscriber)]);
        self.channels.insert(key, subs);
        assert(self@.channels =~= old_view.channels.insert(key, seq![old_view.current(subscriber)]));
        Ok(())
    }

    /// Puts an event in the system queue, for the next tick.
    pub fn pass_system(&mut self, evnt: EventContainer) -> (r: LogicResult<()>)
        ensures
            r is Ok,
            final(self)@ == (BrokerView { task_queue: old(self)@.task_queue.push(evnt@), ..old(self)@ }),
    {
        let ghost old_view = self@;
        self.task_queue.push(evnt);
        assert(self@.task_queue =~= old_view.task_queue.push(evnt@));
        Ok(())
    }

    /// What each unit tells about itself, in order.
    pub fn collect_info(&self) -> (r: LogicResult<Vec<InfoObject>>)
        ensures
            r is Ok,
            infos_view(r->Ok_0@) == self@.infos(),
    {
        let mut evs: Vec<InfoObject> = Vec::new();
        for i in 0..self.units.len()
            invariant
                evs@.len() == i,
                forall|j: int| 0 <= j < i ==> (#[trigger] evs@[j])@ == self@.units[j].info(),
        {
            let e2 = self.units[i].get_info()?;
            evs.push(e2);
        }
        assert(infos_view(evs@) =~= self@.infos());
        Ok(evs)
    }
}

/// A world with the same layout as a well-formed one is well formed.
pub proof fn lemma_layout_wf(w: World, w2: World)
    requires
        w.wf(),
        w.keeps_layout(w2),
    ensures
        w2.wf(),
{
}

/// A unit taking an event keeps its key, and keeps the keys and the cell
/// size of the field.
pub proof fn lemma_process_keeps_keys(o: GameObjectView, ev: EventContainerView, f: FieldView)
    requires
        f.wf(),
    ensures
        o.process(ev, f).0.key() == o.key(),
        map_keys(o.process(ev, f).1.maps) == map_keys(f.maps),
        o.process(ev, f).1.replaced.dom() == f.replaced.dom(),
        o.process(ev, f).1.wf(),
{
    match o {
        GameObjectView::Tank(t) => {
            match ev.evs {
                EventsView::Command(m) => {
                    match m.msg.cmd {
                        crate::game::events::Commands::Move { direction } => {
                            crate::game::map::lemma_set_movement_at_keeps(f, t.map_obj,
                                crate::game::mapobj::MovementState::Moving { dir: direction, vel: crate::game::tank::tank_speed() });
                        },
                        crate::game::events::Commands::ChangeDirection { .. } => {
                            crate::game::map::lemma_set_movement_at_keeps(f, t.map_obj,
                                crate::game::mapobj::MovementState::Stay { dir: Direction::Up });
                        },
                        _ => {},
                    }
                },
                _ => {},
            }
        },
        _ => {},
    }
}

/// A unit taking an event keeps the world's layout.
pub proof fn lemma_process_at(w: World, i: int, ev: EventContainerView)
    requires
        w.wf(),
        0 <= i < w.broker.units.len(),
    ensures
        w.keeps_layout(w.process_at(i, ev)),
        w.process_at(i, ev).wf(),
        w.process_at(i, ev).broker.task_queue == w.broker.task_queue,
{
    let (u, f) = w.broker.units[i].process(ev, w.field);
    lemma_process_keeps_keys(w.broker.units[i], ev, w.field);
    lemma_unit_keys_update(w.broker.units, i, u);
    let w2 = w.process_at(i, ev);
    assert forall|k: usize| #[trigger] w2.broker.history(k).len() == w.broker.history(k).len() by {}
    lemma_layout_wf(w, w2);
}

/// A replaced unit taking an event keeps the world's layout.
pub proof fn lemma_process_replaced(w: World, key: usize, gen: int, ev: EventContainerView)
    requires
        w.wf(),
        0 <= gen < w.broker.history(key).len(),
    ensures
        w.keeps_layout(w.process_replaced(key, gen, ev)),
        w.process_replaced(key, gen, ev).wf(),
        w.process_replaced(key, gen, ev).broker.task_queue == w.broker.task_queue,
{
    let h = w.broker.history(key);
    lemma_process_keeps_keys(h[gen], ev, w.field);
    let w2 = w.process_replaced(key, gen, ev);
    assert forall|k: usize| #[trigger] w2.broker.history(k).len() == w.broker.history(k).len() by {
        if k == key {
            assert(w2.broker.history(k) == h.update(gen, h[gen].process(ev, w.field).0));
        }
    }
    lemma_layout_wf(w, w2);
}

/// A subscriber taking an event keeps the world's layout.
pub proof fn lemma_deliver_layout(w: World, sub: Subscriber, ev: EventContainerView)
    requires
        w.wf(),
    ensures
        w.keeps_layout(w.deliver(sub, ev).state),
        w.deliver(sub, ev).state.wf(),
        w.deliver(sub, ev).state.broker.task_queue == w.broker.task_queue,
{
    if w.is_replaced(sub) {
        lemma_process_replaced(w, sub.key, sub.gen as int, ev);
    } else {
        let i = w.broker.unit_index(sub.key);
        crate::game::keyed::lemma_position_of(unit_keys(w.broker.units), sub.key);
        if i >= 0 {
            lemma_process_at(w, i, ev);
        }
    }
}

/// A copy of a list of subscribers.
fn copy_subscribers(v: &Vec<Subscriber>) -> (r: Vec<Subscriber>)
    ensures
        r@ == v@,
{
    let mut r: Vec<Subscriber> = Vec::new();
    for i in 0..v.len()
        invariant
            r@ == v@.take(i as int),
    {
        r.push(v[i]);
        assert(r@ =~= v@.take(i + 1));
    }
    assert(v@.take(v@.len() as int) =~= v@);
    r
}

impl Broker {
    /// The unit at position `i` takes `evnt`.
    fn process_at(&mut self, i: usize, evnt: EventContainer, map: &mut GameField)
        requires
            (World { broker: old(self)@, field: old(map)@ }).wf(),
            i < old(self)@.units.len(),
            old(self)@.units[i as int].accepts(evnt@),
        ensures
            (World { broker: final(self)@, field: final(map)@ }) == (World { broker: old(self)@, field: old(map)@ }).process_at(i as int, evnt@),
            (World { broker: final(self)@, field: final(map)@ }).wf(),
            (World { broker: old(self)@, field: old(map)@ }).keeps_layout(World { broker: final(self)@, field: final(map)@ }),
    {
        proof {
            lemma_process_at(World { broker: self@, field: map@ }, i as int, evnt@);
        }
        let ghost old_view = self@;
        let _ = self.units[i].process(evnt, map);
        assert(self@.units =~= old_view.units.update(i as int, self.units@[i as int]@));
    }

    /// One subscriber takes `evnt`: a unit replaced under its key, or the unit
    /// registered there now.
    fn deliver(&mut self, sub: Subscriber, evnt: EventContainer, map: &mut GameField)
        requires
            (World { broker: old(self)@, field: old(map)@ }).wf(),
            (World { broker: old(self)@, field: old(map)@ }).deliver_ok(sub, evnt@),
        ensures
            (World { broker: final(self)@, field: final(map)@ })
                == (World { broker: old(self)@, field: old(map)@ }).deliver(sub, evnt@).state,
            (World { broker: final(self)@, field: final(map)@ }).wf(),
            (World { broker: old(self)@, field: old(map)@ }).keeps_layout(World { broker: final(self)@, field: final(map)@ }),
    {
        proof {
            lemma_deliver_layout(World { broker: self@, field: map@ }, sub, evnt@);
        }
        let ghost old_view = self@;
        if sub.gen < self.history_len(sub.key) {
            let mut h: Vec<GameObject> = match self.replaced.remove(&sub.key) {
                Some(v) => v,
                None => Vec::new(),
            };
            assert(h@.map_values(|u: GameObject| u@) =~= old_view.history(sub.key));
            let _ = h[sub.gen].process(evnt, map);
            assert(h@.map_values(|u: GameObject| u@) =~= old_view.history(sub.key).update(sub.gen as int, h@[sub.gen as int]@));
            self.replaced.insert(sub.key, h);
            assert(self@.replaced =~= old_view.replaced.insert(sub.key, old_view.history(sub.key).update(sub.gen as int, h@[sub.gen as int]@)));
        } else {
            match self.find_unit(sub.key) {
                Some(i) => {
                    self.process_at(i, evnt, map);
                },
                None => {},
            }
        }
    }

    /// Hands `evnt` to the unit under `key`; an error when there is none.
    pub fn pass_direct_unit(&mut self, key: usize, evnt: EventContainer, map: &mut GameField) -> (r: LogicResult<()>)
        requires
            (World { broker: old(self)@, field: old(map)@ }).wf(),
            (World { broker: old(self)@, field: old(map)@ }).direct_ok(key, evnt@),
        ensures
            (World { broker: final(self)@, field: final(map)@ })
                == (World { broker: old(self)@, field: old(map)@ }).pass_direct_unit(key, evnt@).state,
            match r {
                Ok(_) => (World { broker: old(self)@, field: old(map)@ }).pass_direct_unit(key, evnt@).error is None,
                Err(e) => (World { broker: old(self)@, field: old(map)@ }).pass_direct_unit(key, evnt@).error == Some(e@),
            },
            (World { broker: final(self)@, field: final(map)@ }).wf(),
            (World { broker: old(self)@, field: old(map)@ }).keeps_layout(World { broker: final(self)@, field: final(map)@ }),
    {
        match self.find_unit(key) {
            Some(i) => {
                self.process_at(i, evnt, map);
                Ok(())
            },
            None => Err(GameLogicError::new("No such unit")),
        }
    }

    /// Hands `evnt` to each subscriber of the channel of its unit; an error
    /// when that unit has no channel.
    pub fn pass_broadcast(&mut self, evnt: EventContainer, map: &mut GameField) -> (r: LogicResult<()>)
        requires
            (World { broker: old(self)@, field: old(map)@ }).wf(),
            (World { broker: old(self)@, field: old(map)@ }).broadcast_ok(evnt@),
        ensures
            (World { broker: final(self)@, field: final(map)@ })
                == (World { broker: old(self)@, field: old(map)@ }).pass_broadcast(evnt@).state,
            match r {
                Ok(_) => (World { broker: old(self)@, field: old(map)@ }).pass_broadcast(evnt@).error is None,
                Err(e) => (World { broker: old(self)@, field: old(map)@ }).pass_broadcast(evnt@).error == Some(e@),
            },
            (World { broker: final(self)@, field: final(map)@ }).wf(),
            (World { broker: old(self)@, field: old(map)@ }).keeps_layout(World { broker: final(self)@, field: final(map)@ }),
    {
        let ghost w0 = World { broker: self@, field: map@ };
        let subs = match self.channels.get(&evnt.unit) {
            Some(v) => copy_subscribers(v),
            None => {
                return Err(GameLogicError::new("No such channel"));
            },
        };
        let ghost ev = evnt@;
        let ghost step = |w: World, s: Subscriber| w.deliver(s, ev);
        let ghost okf = |w: World, s: Subscriber| w.deliver_ok(s, ev);
        assert(subs@ == w0.broker.channels[evnt.unit]);
        assert(subs@.take(0).len() == 0);
        for j in 0..subs.len()
            invariant
                ev == evnt@,
                step == (|w: World, s: Subscriber| w.deliver(s, ev)),
                okf == (|w: World, s: Subscriber| w.deliver_ok(s, ev)),
                w0.wf(),
                run_ok(w0, subs@, step, okf),
                run(w0, subs@.take(j as int), step) == (Outcome { state: World { broker: self@, field: map@ }, error: None::<Seq<char>> }),
                (World { broker: self@, field: map@ }).wf(),
                w0.keeps_layout(World { broker: self@, field: map@ }),
        {
            proof {
                lemma_run_next(w0, subs@, step, j as int);
                lemma_run_ok_at(w0, subs@, step, okf, j as int);
            }
            self.deliver(subs[j], evnt.duplicate(), map);
        }
        proof {
            lemma_run_all(w0, subs@, step);
        }
        Ok(())
    }

    /// Passes `evnt` to one address: a unit, the system queue, or the
    /// subscribers of the event's unit.
    pub fn pass_addresable(&mut self, addres: AddresType, evnt: EventContainer, map: &mut GameField) -> (r: LogicResult<()>)
        requires
            (World { broker: old(self)@, field: old(map)@ }).wf(),
            (World { broker: old(self)@, field: old(map)@ }).addr_ok(addres, evnt@),
        ensures
            (World { broker: final(self)@, field: final(map)@ })
                == (World { broker: old(self)@, field: old(map)@ }).pass_addresable(addres, evnt@).state,
            match r {
                Ok(_) => (World { broker: old(self)@, field: old(map)@ }).pass_addresable(addres, evnt@).error is None,
                Err(e) => (World { broker: old(self)@, field: old(map)@ }).pass_addresable(addres, evnt@).error == Some(e@),
            },
            (World { broker: final(self)@, field: final(map)@ }).wf(),
            (World { broker: old(self)@, field: old(map)@ }).keeps_layout(World { broker: final(self)@, field: final(map)@ }),
    {
        match addres {
            AddresType::Direct(some) => {
                return self.pass_direct_unit(some, evnt, map);
            },
            AddresType::System => {
                return self.pass_system(evnt);
            },
            AddresType::Broadcast => {
                return self.pass_broadcast(evnt, map);
            },
        }
    }

    /// Passes each event of `event` to each of its addresses, stopping at the first error.
    pub fn pass_message_addresable(&mut self, event: AddresableContainer, map: &mut GameField) -> (r: LogicResult<()>)
        requires
            (World { broker: old(self)@, field: old(map)@ }).wf(),
            (World { broker: old(self)@, field: old(map)@ }).message_ok(event@),
        ensures
            (World { broker: final(self)@, field: final(map)@ })
                == (World { broker: old(self)@, field: old(map)@ }).pass_message_addresable(event@).state,
            match r {
                Ok(_) => (World { broker: old(self)@, field: old(map)@ }).pass_message_addresable(event@).error is None,
                Err(e) => (World { broker: old(self)@, field: old(map)@ }).pass_message_addresable(event@).error == Some(e@),
            },
            (World { broker: final(self)@, field: final(map)@ }).wf(),
            (World { broker: old(self)@, field: old(map)@ }).keeps_layout(World { broker: final(self)@, field: final(map)@ }),
    {
        let ghost w0 = World { broker: self@, field: map@ };
        let ghost c = event@;
        let ghost outer = |w: World, e: EventContainerView| w.send_to_all(c.addres, e);
        let ghost outer_ok = |w: World, e: EventContainerView| w.send_to_all_ok(c.addres, e);
        assert(c.events.take(0).len() == 0);
        for i in 0..event.events.len()
            invariant
                c == event@,
                outer == (|w: World, e: EventContainerView| w.send_to_all(c.addres, e)),
                outer_ok == (|w: World, e: EventContainerView| w.send_to_all_ok(c.addres, e)),
                w0.wf(),
                w0 == (World { broker: old(self)@, field: old(map)@ }),
                run_ok(w0, c.events, outer, outer_ok),
                run(w0, c.events.take(i as int), outer) == (Outcome { state: World { broker: self@, field: map@ }, error: None::<Seq<char>> }),
                (World { broker: self@, field: map@ }).wf(),
                w0.keeps_layout(World { broker: self@, field: map@ }),
        {
            proof {
                lemma_run_next(w0, c.events, outer, i as int);
                lemma_run_ok_at(w0, c.events, outer, outer_ok, i as int);
            }
            let ghost w1 = World { broker: self@, field: map@ };
            let ghost e = c.events[i as int];
            let ghost inner = |w: World, a: AddresType| w.pass_addresable(a, e);
            let ghost inner_ok = |w: World, a: AddresType| w.addr_ok(a, e);
            assert(w1.send_to_all_ok(c.addres, e));
            assert(c.addres.take(0).len() == 0);
            for j in 0..event.addres.len()
                invariant
                    c == event@,
                    e == c.events[i as int],
                    e == event.events@[i as int]@,
                    i < event.events.len(),
                    inner == (|w: World, a: AddresType| w.pass_addresable(a, e)),
                    inner_ok == (|w: World, a: AddresType| w.addr_ok(a, e)),
                    outer == (|w: World, e: EventContainerView| w.send_to_all(c.addres, e)),
                    w0.wf(),
                    w0 == (World { broker: old(self)@, field: old(map)@ }),
                    run(w0, c.events.take(i as int), outer) == (Outcome { state: w1, error: None::<Seq<char>> }),
                    run_ok(w1, c.addres, inner, inner_ok),
                    run(w1, c.addres.take(j as int), inner) == (Outcome { state: World { broker: self@, field: map@ }, error: None::<Seq<char>> }),
                    (World { broker: self@, field: map@ }).wf(),
                    w0.keeps_layout(World { broker: self@, field: map@ }),
            {
                proof {
                    lemma_run_next(w1, c.addres, inner, j as int);
                    lemma_run_ok_at(w1, c.addres, inner, inner_ok, j as int);
                }
                let res = self.pass_addresable(event.addres[j], event.events[i].duplicate(), map);
                match res {
                    Ok(_) => {},
                    Err(er) => {
                        proof {
                            lemma_run_stops(w1, c.addres, inner, j + 1, c.addres.len() as int);
                            lemma_run_all(w1, c.addres, inner);
                            lemma_run_next(w0, c.events, outer, i as int);
                            lemma_run_stops(w0, c.events, outer, i + 1, c.events.len() as int);
                            lemma_run_all(w0, c.events, outer);
                        }
                        return Err(er);
                    },
                }
            }
            proof {
                lemma_run_all(w1, c.addres, inner);
            }
        }
        proof {
            lemma_run_all(w0, c.events, outer);
        }
        Ok(())
    }

    /// Spawns a tank for `user` under the next key: places it on the field,
    /// registers it, subscribes `user` to it, and returns the news of it,
    /// addressed to the system and to `user`.
    pub fn spawn_tank(&mut self, user: usize, map: &mut GameField) -> (r: LogicResult<AddresableEventsList>)
        requires
            (World { broker: old(self)@, field: old(map)@ }).wf(),
            old(self)@.counter < usize::MAX,
        ensures
            (World { broker: final(self)@, field: final(map)@ })
                == (World { broker: old(self)@, field: old(map)@ }).spawn_tank(user).state.world,
            match r {
                Ok(v) => {
                    &&& (World { broker: old(self)@, field: old(map)@ }).spawn_tank(user).error is None
                    &&& containers_view(v@) == (World { broker: old(self)@, field: old(map)@ }).spawn_tank(user).state.out
                },
                Err(e) => (World { broker: old(self)@, field: old(map)@ }).spawn_tank(user).error == Some(e@),
            },
            (World { broker: final(self)@, field: final(map)@ }).wf(),
    {
        let key = self.produce_key();
        let mapobj = self.map_objects_fabric.spawn_tank(map, key);
        let tank = Tank::new(key, user, mapobj);
        let _ = self.add_system(GameObject::Tank(tank));
        self.subscribe(key, user)?;
        let inf = tank.get_info();
        let event = Events::Spawned { owner: user, unit: Unit::Tank(inf) };
        let ev = EventContainer { unit: user, evs: event };
        let mut addres: Vec<AddresType> = Vec::new();
        addres.push(AddresType::System);
        addres.push(AddresType::Direct(user));
        let mut events: Vec<EventContainer> = Vec::new();
        events.push(ev);
        let res_event = AddresableContainer { addres, events };
        assert(res_event@ == spawned_event(user, key)) by {
            assert(res_event@.addres =~= seq![AddresType::System, AddresType::Direct(user)]);
            assert(res_event@.events =~= spawned_event(user, key).events);
        }
        let mut res: Vec<AddresableContainer> = Vec::new();
        res.push(res_event);
        assert(containers_view(res@) =~= seq![spawned_event(user, key)]);
        Ok(res)
    }

    /// Handles a spawn request of `user`.
    pub fn spawn_handler(&mut self, user: usize, req: SpawneReq, map: &mut GameField) -> (r: LogicResult<AddresableEventsList>)
        requires
            (World { broker: old(self)@, field: old(map)@ }).wf(),
            old(self)@.counter < usize::MAX,
        ensures
            (World { broker: final(self)@, field: final(map)@ })
                == (World { broker: old(self)@, field: old(map)@ }).spawn_tank(user).state.world,
            match r {
                Ok(v) => {
                    &&& (World { broker: old(self)@, field: old(map)@ }).spawn_tank(user).error is None
                    &&& containers_view(v@) == (World { broker: old(self)@, field: old(map)@ }).spawn_tank(user).state.out
                },
                Err(e) => (World { broker: old(self)@, field: old(map)@ }).spawn_tank(user).error == Some(e@),
            },
            (World { broker: final(self)@, field: final(map)@ }).wf(),
    {
        match req {
            SpawneReq::Tank => return self.spawn_tank(user, map),
        }
    }

    /// Handles one event from the system queue.
    pub fn process_system_msg(&mut self, evnt: EventContainer, map: &mut GameField) -> (r: LogicResult<AddresableEventsList>)
        requires
            (World { broker: old(self)@, field: old(map)@ }).wf(),
            (World { broker: old(self)@, field: old(map)@ }).system_ok(evnt@),
        ensures
            (World { broker: final(self)@, field: final(map)@ })
                == (World { broker: old(self)@, field: old(map)@ }).system_msg(evnt@).state.world,
            match r {
                Ok(v) => {
                    &&& (World { broker: old(self)@, field: old(map)@ }).system_msg(evnt@).error is None
                    &&& containers_view(v@) == (World { broker: old(self)@, field: old(map)@ }).system_msg(evnt@).state.out
                },
                Err(e) => (World { broker: old(self)@, field: old(map)@ }).system_msg(evnt@).error == Some(e@),
            },
            (World { broker: final(self)@, field: final(map)@ }).wf(),
    {
        let mut res: Vec<AddresableContainer> = Vec::new();
        assert(containers_view(res@) =~= seq![]);
        match evnt.evs {
            Events::SpawneRequest(req) => {
                res = self.spawn_handler(evnt.unit, req, map)?;
            },
            _ => {},
        }
        Ok(res)
    }

    /// Handles every event in the system queue, in order, then empties it;
    /// returns what the events produced.
    pub fn process_system_queue(&mut self, map: &mut GameField) -> (r: LogicResult<AddresableEventsList>)
        requires
            (World { broker: old(self)@, field: old(map)@ }).wf(),
            (World { broker: old(self)@, field: old(map)@ }).queue_ok(),
        ensures
            (World { broker: final(self)@, field: final(map)@ })
                == (World { broker: old(self)@, field: old(map)@ }).process_system_queue().state.world,
            match r {
                Ok(v) => {
                    &&& (World { broker: old(self)@, field: old(map)@ }).process_system_queue().error is None
                    &&& containers_view(v@) == (World { broker: old(self)@, field: old(map)@ }).process_system_queue().state.out
                },
                Err(e) => (World { broker: old(self)@, field: old(map)@ }).process_system_queue().error == Some(e@),
            },
            (World { broker: final(self)@, field: final(map)@ }).wf(),
    {
        let ghost w0 = World { broker: self@, field: map@ };
        let ghost q0 = self@.task_queue;
        let ghost step = |s: Step, ev: EventContainerView| queue_step(s, ev);
        let ghost okf = |s: Step, ev: EventContainerView| s.world.system_ok(ev);
        let queue = duplicate_events(&self.task_queue);
        let mut res: Vec<AddresableContainer> = Vec::new();
        assert(q0.take(0).len() == 0);
        assert(containers_view(res@) =~= seq![]);
        for i in 0..queue.len()
            invariant
                w0 == (World { broker: old(self)@, field: old(map)@ }),
                q0 == w0.broker.task_queue,
                events_view(queue@) == q0,
                step == (|s: Step, ev: EventContainerView| queue_step(s, ev)),
                okf == (|s: Step, ev: EventContainerView| s.world.system_ok(ev)),
                run_ok(Step { world: w0, out: seq![] }, q0, step, okf),
                run(Step { world: w0, out: seq![] }, q0.take(i as int), step) == (Outcome {
                    state: Step { world: World { broker: self@, field: map@ }, out: containers_view(res@) },
                    error: None::<Seq<char>>,
                }),
                (World { broker: self@, field: map@ }).wf(),
        {
            proof {
                lemma_run_next(Step { world: w0, out: seq![] }, q0, step, i as int);
                lemma_run_ok_at(Step { world: w0, out: seq![] }, q0, step, okf, i as int);
                assert(queue@[i as int]@ == q0[i as int]);
            }
            let ghost before = containers_view(res@);
            let sub = self.process_system_msg(queue[i].duplicate(), map);
            match sub {
                Ok(sub_res) => {
                    let mut sub_res = sub_res;
                    let ghost added = containers_view(sub_res@);
                    res.append(&mut sub_res);
                    assert(containers_view(res@) =~= before + added);
                },
                Err(e) => {
                    proof {
                        lemma_run_stops(Step { world: w0, out: seq![] }, q0, step, i + 1, q0.len() as int);
                        lemma_run_all(Step { world: w0, out: seq![] }, q0, step);
                    }
                    return Err(e);
                },
            }
        }
        proof {
            lemma_run_all(Step { world: w0, out: seq![] }, q0, step);
        }
        let ghost before_clear = self@;
        self.task_queue.clear();
        assert(self@.task_queue =~= seq![]);
        assert(self@ == (BrokerView { task_queue: seq![], ..before_clear }));
        Ok(res)
    }

    /// Passes on each addressed event in turn, stopping at the first error.
    fn pass_all(&mut self, cs: &Vec<AddresableContainer>, map: &mut GameField) -> (r: LogicResult<()>)
        requires
            (World { broker: old(self)@, field: old(map)@ }).wf(),
            (World { broker: old(self)@, field: old(map)@ }).pass_all_ok(containers_view(cs@)),
        ensures
            (World { broker: final(self)@, field: final(map)@ })
                == (World { broker: old(self)@, field: old(map)@ }).pass_all(containers_view(cs@)).state,
            match r {
                Ok(_) => (World { broker: old(self)@, field: old(map)@ }).pass_all(containers_view(cs@)).error is None,
                Err(e) => (World { broker: old(self)@, field: old(map)@ }).pass_all(containers_view(cs@)).error == Some(e@),
            },
            (World { broker: final(self)@, field: final(map)@ }).wf(),
            (World { broker: old(self)@, field: old(map)@ }).keeps_layout(World { broker: final(self)@, field: final(map)@ }),
    {
        let ghost w0 = World { broker: self@, field: map@ };
        let ghost items = containers_view(cs@);
        let ghost step = |w: World, c: AddresableContainerView| w.pass_message_addresable(c);
        let ghost okf = |w: World, c: AddresableContainerView| w.message_ok(c);
        assert(items.take(0).len() == 0);
        for i in 0..cs.len()
            invariant
                w0 == (World { broker: old(self)@, field: old(map)@ }),
                items == containers_view(cs@),
                step == (|w: World, c: AddresableContainerView| w.pass_message_addresable(c)),
                okf == (|w: World, c: AddresableContainerView| w.message_ok(c)),
                w0.wf(),
                run_ok(w0, items, step, okf),
                run(w0, items.take(i as int), step) == (Outcome { state: World { broker: self@, field: map@ }, error: None::<Seq<char>> }),
                (World { broker: self@, field: map@ }).wf(),
                w0.keeps_layout(World { broker: self@, field: map@ }),
        {
            proof {
                lemma_run_next(w0, items, step, i as int);
                lemma_run_ok_at(w0, items, step, okf, i as int);
            }
            match self.pass_message_addresable(cs[i].duplicate(), map) {
                Ok(_) => {},
                Err(e) => {
                    proof {
                        lemma_run_stops(w0, items, step, i + 1, items.len() as int);
                        lemma_run_all(w0, items, step);
                    }
                    return Err(e);
                },
            }
        }
        proof {
            lemma_run_all(w0, items, step);
        }
        Ok(())
    }

    /// One tick: handles the system queue and passes on what it produced;
    /// then each unit, in order, ticks and what it sends is passed on.
    /// Returns the events of both, in that order.
    pub fn tick(&mut self, map: &mut GameField) -> (r: LogicResult<EventsList>)
        requires
            (World { broker: old(self)@, field: old(map)@ }).wf(),
            (World { broker: old(self)@, field: old(map)@ }).tick_ok(),
        ensures
            (World { broker: final(self)@, field: final(map)@ })
                == (World { broker: old(self)@, field: old(map)@ }).tick().state.world,
            match r {
                Ok(v) => {
                    &&& (World { broker: old(self)@, field: old(map)@ }).tick().error is None
                    &&& events_view(v@) == (World { broker: old(self)@, field: old(map)@ }).tick().state.events
                },
                Err(e) => (World { broker: old(self)@, field: old(map)@ }).tick().error == Some(e@),
            },
            (World { broker: final(self)@, field: final(map)@ }).wf(),
    {
        let ghost w0 = World { broker: self@, field: map@ };
        let mut events = self.process_system_queue(map)?;
        let ghost q = w0.process_system_queue();
        assert(containers_view(events@) == q.state.out);
        self.pass_all(&events, map)?;
        let ghost p = q.state.world.pass_all(q.state.out);
        let ghost wp = World { broker: self@, field: map@ };
        let ghost keys = unit_keys(wp.broker.units);
        let ghost step = |s: Step, k: usize| unit_tick_step(s, k);
        let ghost okf = |s: Step, k: usize| unit_tick_ok(s, k);
        let ghost start = Step { world: wp, out: seq![] };
        let ghost qout = q.state.out;
        assert(wp == p.state);
        assert(run_ok(start, keys, step, okf));
        assert(keys.take(0).len() == 0);
        assert(containers_view(events@).skip(qout.len() as int) =~= seq![]);
        assert(containers_view(events@).take(qout.len() as int) =~= qout);
        let n = self.units.len();
        let mut i: usize = 0;
        while i < n
            invariant
                i <= n,
                n == keys.len(),
                keys == unit_keys(wp.broker.units),
                wp.wf(),
                start == (Step { world: wp, out: seq![] }),
                step == (|s: Step, k: usize| unit_tick_step(s, k)),
                okf == (|s: Step, k: usize| unit_tick_ok(s, k)),
                run_ok(start, keys, step, okf),
                run(start, keys.take(i as int), step) == (Outcome {
                    state: Step { world: World { broker: self@, field: map@ }, out: containers_view(events@).skip(qout.len() as int) },
                    error: None::<Seq<char>>,
                }),
                containers_view(events@).take(qout.len() as int) == qout,
                qout.len() <= containers_view(events@).len(),
                (World { broker: self@, field: map@ }).wf(),
                wp.keeps_layout(World { broker: self@, field: map@ }),
            decreases n - i,
        {
            proof {
                lemma_run_next(start, keys, step, i as int);
                lemma_run_ok_at(start, keys, step, okf, i as int);
                lemma_position_unique(keys, i as int);
            }
            let ghost cur = World { broker: self@, field: map@ };
            let ghost before = containers_view(events@);
            assert(cur.broker.unit_index(keys[i as int]) == i);
            let evs = self.units[i].tick();
            let evs = match evs {
                Ok(v) => v,
                Err(e) => {
                    return Err(e);
                },
            };
            assert(self@.units =~= cur.broker.units);
            assert(self@ == cur.broker);
            let mut evs_copy: Vec<AddresableContainer> = Vec::new();
            for j in 0..evs.len()
                invariant
                    evs_copy@.len() == j,
                    forall|k: int| 0 <= k < j ==> (#[trigger] evs_copy@[k])@ == evs@[k]@,
            {
                evs_copy.push(evs[j].duplicate());
            }
            assert(containers_view(evs_copy@) =~= containers_view(evs@));
            events.append(&mut evs_copy);
            assert(containers_view(events@) =~= before + containers_view(evs@));
            assert(containers_view(events@).take(qout.len() as int) =~= qout);
            assert(containers_view(events@).skip(qout.len() as int) =~= before.skip(qout.len() as int) + containers_view(evs@));
            match self.pass_all(&evs, map) {
                Ok(_) => {},
                Err(e) => {
                    proof {
                        lemma_run_stops(start, keys, step, i + 1, keys.len() as int);
                        lemma_run_all(start, keys, step);
                    }
                    return Err(e);
                },
            }
            i = i + 1;
        }
        proof {
            lemma_run_all(start, keys, step);
            assert(containers_view(events@) =~= qout + containers_view(events@).skip(qout.len() as int));
        }
        let result = flatten_events(&events);
        Ok(result)
    }

    /// Whether the unit under `key` takes `evnt`; true when there is no such unit.
    pub fn accepts_direct(&self, key: usize, evnt: &EventContainer) -> (r: bool)
        requires
            self@.wf(),
        ensures
            r == (self@.unit_index(key) < 0 || self@.units[self@.unit_index(key)].accepts(evnt@)),
    {
        match self.find_unit(key) {
            Some(i) => self.units[i].accepts(evnt),
            None => true,
        }
    }
}

/// After a unit is registered, looking up its key finds it, and its key has a channel.
pub proof fn lemma_add_system_then_lookup(b: BrokerView, o: GameObjectView)
    requires
        b.wf(),
    ensures
        b.add_system(o).unit_index(o.key()) >= 0,
        b.add_system(o).units[b.add_system(o).unit_index(o.key())] == o,
        b.add_system(o).channels.contains_key(o.key()),
{
    let b2 = b.add_system(o);
    lemma_add_system_wf(b, o);
    let k = o.key();
    let i = b.unit_index(k);
    crate::game::keyed::lemma_position_of(unit_keys(b.units), k);
    if i >= 0 {
        lemma_unit_keys_update(b.units, i, o);
        lemma_position_unique(unit_keys(b2.units), i);
    } else {
        lemma_unit_keys_push(b.units, o);
        lemma_position_unique(unit_keys(b2.units), b.units.len() as int);
    }
}

/// After a subscription, the channel of the key holds exactly the subscriber.
pub proof fn lemma_subscribe_then_lookup(b: BrokerView, key: usize, sub: usize)
    requires
        b.wf(),
        b.unit_index(sub) >= 0,
    ensures
        b.subscribe(key, sub).error is None,
        b.subscribe(key, sub).state.channels.contains_key(key),
        b.subscribe(key, sub).state.channels[key] == seq![b.current(sub)],
{
    lemma_subscribe_wf(b, key, sub);
}

/// A unit replaced under its key stays subscribed where it was: the channel
/// that held it holds the same subscriber, which now names the replaced unit
/// and not the one that took its key.
pub proof fn lemma_replaced_stays_subscribed(b: BrokerView, key: usize, sub: usize, o: GameObjectView)
    requires
        b.wf(),
        b.unit_index(sub) >= 0,
        o.key() == sub,
        b.history(sub).len() < usize::MAX,
    ensures
        b.subscribe(key, sub).state.add_system(o).channels[key] == seq![b.current(sub)],
        b.current(sub).gen < b.subscribe(key, sub).state.add_system(o).history(sub).len(),
        b.subscribe(key, sub).state.add_system(o).history(sub)[b.current(sub).gen as int]
            == b.units[b.unit_index(sub)],
        b.subscribe(key, sub).state.add_system(o).units[b.unit_index(sub)] == o,
{
    lemma_subscribe_wf(b, key, sub);
    let b1 = b.subscribe(key, sub).state;
    crate::game::keyed::lemma_position_of(unit_keys(b.units), sub);
    assert(b1.unit_index(sub) == b.unit_index(sub));
    assert(b1.history(sub) == b.history(sub));
}

/// An event passed to the system waits at the end of the queue; nothing else changes.
pub proof fn lemma_pass_system_queues(w: World, ev: EventContainerView)
    ensures
        w.pass_addresable(AddresType::System, ev).error is None,
        w.pass_addresable(AddresType::System, ev).state.broker.task_queue == w.broker.task_queue.push(ev),
        w.pass_addresable(AddresType::System, ev).state.broker.units == w.broker.units,
        w.pass_addresable(AddresType::System, ev).state.field == w.field,
{
}

/// Passing an event to an address does what passing it to that kind of
/// address does: to a unit, to the system queue, or to the subscribers of
/// the event's unit.
pub proof fn lemma_pass_addresable_dispatch(w: World, addr: AddresType, ev: EventContainerView)
    ensures
        addr matches AddresType::Direct(k) ==> w.pass_addresable(addr, ev) == w.pass_direct_unit(k, ev),
        addr is System ==> w.pass_addresable(addr, ev) == (Outcome { state: w.pass_system(ev), error: None::<Seq<char>> }),
        addr is System ==> w.pass_system(ev).broker == (BrokerView { task_queue: w.broker.task_queue.push(ev), ..w.broker }),
        addr is System ==> w.pass_system(ev).field == w.field,
        addr is Broadcast ==> w.pass_addresable(addr, ev) == w.pass_broadcast(ev),
{
}

/// The system spawns a tank for the unit that asks for one, and drops the
/// news of a spawn without change.
pub proof fn lemma_system_msg_cases(w: World, ev: EventContainerView)
    requires
        w.system_ok(ev),
    ensures
        ev.evs is SpawneRequest ==> w.system_msg(ev) == w.spawn_tank(ev.unit),
        ev.evs is Spawned ==> w.system_msg(ev) == (Outcome { state: Step { world: w, out: seq![] }, error: None::<Seq<char>> }),
{
}

/// An event for a unit that is not registered is refused, and nothing changes.
pub proof fn lemma_direct_to_missing_unit(w: World, key: usize, ev: EventContainerView)
    requires
        !unit_keys(w.broker.units).contains(key),
    ensures
        w.pass_direct_unit(key, ev).error == Some(no_such_unit()),
        w.pass_direct_unit(key, ev).state == w,
{
}

/// The events of a list of addressed events, in order.
fn flatten_events(cs: &Vec<AddresableContainer>) -> (r: Vec<EventContainer>)
    ensures
        events_view(r@) == events_of(containers_view(cs@)),
{
    let mut result: Vec<EventContainer> = Vec::new();
    assert(containers_view(cs@).take(0).map_values(|c: AddresableContainerView| c.events) =~= seq![]);
    assert(events_view(result@) =~= seq![]);
    for i in 0..cs.len()
        invariant
            events_view(result@) == events_of(containers_view(cs@).take(i as int)),
    {
        let ghost before = events_view(result@);
        let mut evs = duplicate_events(&cs[i].events);
        result.append(&mut evs);
        proof {
            let pre = containers_view(cs@).take(i as int).map_values(|c: AddresableContainerView| c.events);
            let post = containers_view(cs@).take(i + 1).map_values(|c: AddresableContainerView| c.events);
            assert(post =~= pre.push(cs@[i as int]@.events));
            pre.lemma_flatten_push(cs@[i as int]@.events);
            assert(events_view(result@) =~= before + cs@[i as int]@.events);
        }
    }
    assert(containers_view(cs@).take(cs@.len() as int) =~= containers_view(cs@));
    result
}

/// The events a list of addressed events carries are all the events of all
/// its containers, in order: none for no container, a container's own events
/// for one, and for two lists one after the other the first list's events
/// followed by the second's; so their number is the sum of the containers'.
pub proof fn lemma_events_of_concat(a: Seq<AddresableContainerView>, b: Seq<AddresableContainerView>, c: AddresableContainerView)
    ensures
        events_of(Seq::<AddresableContainerView>::empty()) == Seq::<EventContainerView>::empty(),
        events_of(seq![c]) == c.events,
        events_of(a + b) == events_of(a) + events_of(b),
        events_of(a.push(c)) == events_of(a) + c.events,
        events_of(a + b).len() == events_of(a).len() + events_of(b).len(),
{
    let f = |x: AddresableContainerView| x.events;
    assert(Seq::<AddresableContainerView>::empty().map_values(f) =~= Seq::<Seq<EventContainerView>>::empty());
    assert(seq![c].map_values(f) =~= seq![c.events]);
    seq![c.events].lemma_flatten_singleton();
    assert((a + b).map_values(f) =~= a.map_values(f) + b.map_values(f));
    vstd::seq_lib::lemma_flatten_concat(a.map_values(f), b.map_values(f));
    assert(a.push(c) =~= a + seq![c]);
    assert((a + seq![c]).map_values(f) =~= a.map_values(f) + seq![c].map_values(f));
    vstd::seq_lib::lemma_flatten_concat(a.map_values(f), seq![c].map_values(f));
}

/// The events a tick reports are those of everything the system queue
/// produced, followed by those of everything the units sent.
pub proof fn lemma_tick_reports_all(w: World)
    ensures
        w.tick().error is None ==> w.tick().state.events == events_of(w.process_system_queue().state.out) + events_of(
            run(
                Step { world: w.process_system_queue().state.world.pass_all(w.process_system_queue().state.out).state, out: seq![] },
                unit_keys(w.process_system_queue().state.world.pass_all(w.process_system_queue().state.out).state.broker.units),
                |s: Step, k: usize| unit_tick_step(s, k),
            ).state.out,
        ),
{
    let q = w.process_system_queue();
    let p = q.state.world.pass_all(q.state.out);
    let u = run(Step { world: p.state, out: seq![] }, unit_keys(p.state.broker.units), |s: Step, k: usize| unit_tick_step(s, k));
    lemma_events_of_concat(q.state.out, u.state.out, spawned_event(0, 0));
}

} // verus!
