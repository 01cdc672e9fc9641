use vstd::prelude::*;

use std::collections::HashMap;

use crate::game::broker::{Broker, BrokerView};
use crate::game::errors::{GameLogicError, LogicResult};
use crate::game::events::{
    AddresType, AddresableContainer, AddresableContainerView, AddresableEventsList, Direction,
    EventContainer, EventContainerView, Events, EventsView, Position, containers_view,
};
use crate::game::keyed::{position_of, lemma_position_unique, lemma_position_absent, lemma_push_fresh};
use crate::game::logic::{InfoObject, InfoObjectView, infos_view};
use crate::game::logic::{GameObject, GameObjectView};
use crate::game::mapobj::{MapInfo, MapObject, MovementState, WallMapObj};
use crate::game::wallobj::WallObj;
use crate::game::run::{Outcome, run, lemma_run_next, lemma_run_all};

verus! {

broadcast use vstd::std_specs::hash::group_hash_axioms;

/// What the game field tells about itself: each object on it, by key, and its size.
pub struct GameFieldInfo {
    pub maps: Vec<(usize, MapInfo)>,
    pub map_dim: u32,
    pub cell_dim: u32,
    pub item: &'static str,
}

/// The value of a [`GameFieldInfo`].
pub struct GameFieldInfoView {
    pub maps: Seq<(usize, MapInfo)>,
    pub map_dim: u32,
    pub cell_dim: u32,
    pub item: &'static str,
}

impl View for GameFieldInfo {
    type V = GameFieldInfoView;

    open spec fn view(&self) -> GameFieldInfoView {
        GameFieldInfoView {
            maps: self.maps@,
            map_dim: self.map_dim,
            cell_dim: self.cell_dim,
            item: self.item,
        }
    }
}

impl GameFieldInfo {
    pub fn new(maps: Vec<(usize, MapInfo)>, map_dim: u32, cell_dim: u32) -> (g: GameFieldInfo)
        ensures
            g@ == (GameFieldInfoView { maps: maps@, map_dim, cell_dim, item: "map" }),
    {
        GameFieldInfo { item: "map", map_dim, cell_dim, maps }
    }

    pub fn duplicate(&self) -> (r: GameFieldInfo)
        ensures
            r@ == self@,
    {
        let mut maps: Vec<(usize, MapInfo)> = Vec::new();
        for i in 0..self.maps.len()
            invariant
                maps@ == self.maps@.take(i as int),
        {
            maps.push(self.maps[i]);
            assert(maps@ =~= self.maps@.take(i + 1));
        }
        assert(self.maps@.take(self.maps@.len() as int) =~= self.maps@);
        GameFieldInfo { maps, map_dim: self.map_dim, cell_dim: self.cell_dim, item: self.item }
    }
}

/// A handle on a field object: the object placed under `key` after `gen`
/// earlier objects under that key had been replaced. While no other object
/// takes its key it is the object on the field there; once replaced it is
/// kept among the replaced objects of its key, and the handle still reaches it.
#[derive(Clone, Copy, Debug, PartialEq, Eq, Structural)]
pub struct MapRef {
    pub key: usize,
    pub gen: usize,
}

/// The field on which walls and tanks stand, each under its own key, kept in
/// the order they were placed; collisions are checked in that order. An
/// object that another replaces under its key leaves the field and is kept,
/// by key, among the replaced objects.
pub struct GameField {
    maps: Vec<MapObject>,
    replaced: HashMap<usize, Vec<MapObject>>,
    map_dim: u32,
    cell_dim: u32,
}

/// The value of a [`GameField`]: its objects in the order they were placed,
/// and under each key the objects replaced there, in the order they were
/// replaced.
pub struct FieldView {
    pub maps: Seq<MapObject>,
    pub replaced: Map<usize, Seq<MapObject>>,
    pub map_dim: u32,
    pub cell_dim: u32,
}

impl View for GameField {
    type V = FieldView;

    closed spec fn view(&self) -> FieldView {
        FieldView {
            maps: self.maps@,
            replaced: self.replaced@.map_values(|v: Vec<MapObject>| v@),
            map_dim: self.map_dim,
            cell_dim: self.cell_dim,
        }
    }
}

/// The keys of the objects on a field, in order.
pub open spec fn map_keys(maps: Seq<MapObject>) -> Seq<usize> {
    maps.map_values(|o: MapObject| o.key_of())
}

/// Where the object with key `k` stands among `maps`, or -1.
pub open spec fn map_index(maps: Seq<MapObject>, k: usize) -> int {
    position_of(map_keys(maps), k)
}

/// The largest coordinate that the field's arithmetic accepts.
pub open spec fn field_bound() -> int {
    0x1000_0000_0000_0000
}

/// Both coordinates of `p` lie within `b` of the origin.
pub open spec fn within(p: Position, b: int) -> bool {
    -b <= p.x <= b && -b <= p.y <= b
}

pub open spec fn abs(x: int) -> int {
    if x < 0 {
        -x
    } else {
        x
    }
}

/// How far apart two positions are along each axis, less one cell: negative
/// on an axis where they are closer than one cell.
pub open spec fn collision_gap(cell: u32, p1: Position, p2: Position) -> (int, int) {
    (abs(p1.x - p2.x) - cell, abs(p1.y - p2.y) - cell)
}

/// The broadcast that tells that `moved` ran into `other`.
pub open spec fn collision_event(moved: usize, other: usize) -> AddresableContainerView {
    AddresableContainerView {
        addres: seq![AddresType::Broadcast],
        events: seq![EventContainerView { unit: moved, evs: EventsView::Collision { fst: moved, scd: other } }],
    }
}

/// The broadcast that tells where `unit` now stands.
pub open spec fn position_event(unit: usize, pos: Position, dir: Direction) -> AddresableContainerView {
    AddresableContainerView {
        addres: seq![AddresType::Broadcast],
        events: seq![EventContainerView { unit, evs: EventsView::ChangePosition { pos, dir } }],
    }
}

/// A moving object's position while it is pushed back out of the objects it
/// runs into, and the collisions found so far.
pub struct Pushed {
    pub pos: Position,
    pub events: Seq<AddresableContainerView>,
}

/// One object checked against the moving object `moved`: when the two overlap
/// on both axes, the moving object is pushed back along its direction by the
/// overlap and a collision is reported.
pub open spec fn collision_step(cell: u32, moved: usize, dir: Direction, s: Pushed, o: MapObject) -> Outcome<Pushed> {
    if o.key_of() == moved {
        Outcome { state: s, error: None }
    } else {
        let (xc, yc) = collision_gap(cell, o.pos_of(), s.pos);
        if yc < 0 && xc < 0 {
            let pos = match dir {
                Direction::Down => Position { x: s.pos.x, y: (s.pos.y - yc) as i64 },
                Direction::Up => Position { x: s.pos.x, y: (s.pos.y + yc) as i64 },
                Direction::Left => Position { x: (s.pos.x - xc) as i64, y: s.pos.y },
                Direction::Right => Position { x: (s.pos.x + xc) as i64, y: s.pos.y },
            };
            Outcome { state: Pushed { pos, events: s.events.push(collision_event(moved, o.key_of())) }, error: None }
        } else {
            Outcome { state: s, error: None }
        }
    }
}

/// Where the first wall stands on a field with cells of size `cell`.
pub open spec fn first_wall_pos(cell: u32) -> Position {
    Position { x: (cell / 2 + 10) as i64, y: (cell / 2) as i64 }
}

/// Where the second wall stands on a field with cells of size `cell`.
pub open spec fn second_wall_pos(cell: u32) -> Position {
    Position { x: (cell / 2) as i64, y: (cell / 2 + 10) as i64 }
}

/// Where one step of `vel` in `dir` takes `p`.
pub open spec fn step_pos(p: Position, dir: Direction, vel: i64) -> Position {
    match dir {
        Direction::Down => Position { x: p.x, y: (p.y - vel) as i64 },
        Direction::Left => Position { x: (p.x - vel) as i64, y: p.y },
        Direction::Up => Position { x: p.x, y: (p.y + vel) as i64 },
        Direction::Right => Position { x: (p.x + vel) as i64, y: p.y },
    }
}

impl FieldView {
    /// No two objects share a key, and objects were replaced only under keys
    /// that are on the field.
    pub open spec fn wf(self) -> bool {
        &&& map_keys(self.maps).no_duplicates()
        &&& forall|k: usize| #[trigger] self.replaced.contains_key(k) ==> map_keys(self.maps).contains(k)
    }

    /// The objects replaced under `k`, in the order they were replaced.
    pub open spec fn history(self, k: usize) -> Seq<MapObject> {
        if self.replaced.contains_key(k) {
            self.replaced[k]
        } else {
            seq![]
        }
    }

    /// A handle on the object now placed under `k`.
    pub open spec fn current(self, k: usize) -> MapRef {
        MapRef { key: k, gen: self.history(k).len() as usize }
    }

    /// Every object stands within the field's arithmetic bound.
    pub open spec fn bounded(self) -> bool {
        forall|i: int| 0 <= i < self.maps.len() ==> within(#[trigger] self.maps[i].pos_of(), field_bound())
    }

    pub open spec fn index_of(self, k: usize) -> int {
        map_index(self.maps, k)
    }

    /// The field with `o` placed under its key; an object already there is
    /// replaced, and joins the replaced objects of that key.
    pub open spec fn add_new(self, o: MapObject) -> FieldView {
        let k = o.key_of();
        let i = self.index_of(k);
        FieldView {
            maps: if i >= 0 { self.maps.update(i, o) } else { self.maps.push(o) },
            replaced: if i >= 0 { self.replaced.insert(k, self.history(k).push(self.maps[i])) } else { self.replaced },
            ..self
        }
    }

    /// The field with the object under `k` moved to `pos`.
    pub open spec fn set_position(self, k: usize, pos: Position) -> FieldView {
        let i = self.index_of(k);
        if i >= 0 {
            FieldView { maps: self.maps.update(i, self.maps[i].with_pos(pos)), ..self }
        } else {
            self
        }
    }

    /// The field with the movement of the tank under `k` set to `m`; nothing
    /// changes when no tank stands under `k`.
    pub open spec fn set_movement(self, k: usize, m: MovementState) -> FieldView {
        let i = self.index_of(k);
        if i >= 0 && self.maps[i] is Tank {
            FieldView {
                maps: self.maps.update(i, MapObject::Tank(crate::game::maptank::TankMapObj { state: m, ..self.maps[i]->Tank_0 })),
                ..self
            }
        } else {
            self
        }
    }

    /// The field with the movement of the tank that `r` names set to `m`: a
    /// replaced one, or the one now under its key; nothing changes when that
    /// object is not a tank.
    pub open spec fn set_movement_at(self, r: MapRef, m: MovementState) -> FieldView {
        let h = self.history(r.key);
        if r.gen < h.len() {
            if h[r.gen as int] is Tank {
                FieldView {
                    replaced: self.replaced.insert(
                        r.key,
                        h.update(r.gen as int, MapObject::Tank(crate::game::maptank::TankMapObj { state: m, ..h[r.gen as int]->Tank_0 })),
                    ),
                    ..self
                }
            } else {
                self
            }
        } else {
            self.set_movement(r.key, m)
        }
    }

    /// What the field tells about itself.
    pub open spec fn info(self) -> GameFieldInfoView {
        GameFieldInfoView {
            maps: self.maps.map_values(|o: MapObject| (o.key_of(), o.info_of())),
            map_dim: self.map_dim,
            cell_dim: self.cell_dim,
            item: "map",
        }
    }

    /// Pushing the object under `moved`, now at `pos` and heading `dir`, out
    /// of every other object it overlaps, in the field's order.
    pub open spec fn collisions(self, moved: usize, dir: Direction, pos: Position) -> Outcome<Pushed> {
        run(
            Pushed { pos, events: seq![] },
            self.maps,
            |s: Pushed, o: MapObject| collision_step(self.cell_dim, moved, dir, s, o),
        )
    }

    /// Where a move of the object under `unit` by `moving` ends, once pushed
    /// out of the objects it runs into.
    pub open spec fn move_target(self, unit: usize, moving: MovementState) -> Position {
        let start = step_pos(self.maps[self.index_of(unit)].pos_of(), moving->Moving_dir, moving->Moving_vel);
        self.collisions(unit, moving->Moving_dir, start).state.pos
    }

    /// The broadcasts of a move: the new position first, then each collision.
    pub open spec fn move_events(self, unit: usize, moving: MovementState) -> Seq<AddresableContainerView> {
        let start = step_pos(self.maps[self.index_of(unit)].pos_of(), moving->Moving_dir, moving->Moving_vel);
        let pushed = self.collisions(unit, moving->Moving_dir, start).state;
        seq![position_event(unit, pushed.pos, moving->Moving_dir)] + pushed.events
    }
}

proof fn lemma_map_keys_update(maps: Seq<MapObject>, i: int, o: MapObject)
    requires
        0 <= i < maps.len(),
        o.key_of() == maps[i].key_of(),
    ensures
        map_keys(maps.update(i, o)) == map_keys(maps),
{
    assert(map_keys(maps.update(i, o)) =~= map_keys(maps));
}

proof fn lemma_map_keys_push(maps: Seq<MapObject>, o: MapObject)
    ensures
        map_keys(maps.push(o)) == map_keys(maps).push(o.key_of()),
{
    assert(map_keys(maps.push(o)) =~= map_keys(maps).push(o.key_of()));
}

/// Placing an object keeps the keys free of repeats.
pub proof fn lemma_add_new_wf(f: FieldView, o: MapObject)
    requires
        f.wf(),
    ensures
        f.add_new(o).wf(),
        map_keys(f.add_new(o).maps).contains(o.key_of()),
        forall|k: usize| map_keys(f.maps).contains(k) ==> map_keys(f.add_new(o).maps).contains(k),
{
    let i = f.index_of(o.key_of());
    if i >= 0 {
        lemma_map_keys_update(f.maps, i, o);
    } else {
        lemma_map_keys_push(f.maps, o);
        lemma_push_fresh(map_keys(f.maps), o.key_of());
        assert(map_keys(f.add_new(o).maps)[f.maps.len() as int] == o.key_of());
    }
    assert forall|k: usize| map_keys(f.maps).contains(k) implies map_keys(f.add_new(o).maps).contains(k) by {
        let j = choose|j: int| 0 <= j < map_keys(f.maps).len() && map_keys(f.maps)[j] == k;
        assert(map_keys(f.add_new(o).maps)[j] == k);
    }
    assert forall|k: usize| #[trigger] f.add_new(o).replaced.contains_key(k) implies map_keys(f.add_new(o).maps).contains(k) by {
        if k != o.key_of() {
            assert(f.replaced.contains_key(k));
        }
    }
}

/// An object replaced under its key is kept: the handle that named it still
/// names it, now among the replaced objects, and the key has a new handle.
pub proof fn lemma_replaced_object_kept(f: FieldView, o: MapObject)
    requires
        f.wf(),
        f.index_of(o.key_of()) >= 0,
        f.history(o.key_of()).len() < usize::MAX,
    ensures
        f.current(o.key_of()).gen < f.add_new(o).history(o.key_of()).len(),
        f.add_new(o).history(o.key_of())[f.current(o.key_of()).gen as int] == f.maps[f.index_of(o.key_of())],
        f.add_new(o).current(o.key_of()) != f.current(o.key_of()),
        f.add_new(o).maps[f.index_of(o.key_of())] == o,
{
}

/// Setting the movement of the tank a handle names keeps the field's keys,
/// the keys it replaced objects under, and its cell size.
pub proof fn lemma_set_movement_at_keeps(f: FieldView, r: MapRef, m: MovementState)
    requires
        f.wf(),
    ensures
        map_keys(f.set_movement_at(r, m).maps) == map_keys(f.maps),
        f.set_movement_at(r, m).replaced.dom() == f.replaced.dom(),
        f.set_movement_at(r, m).cell_dim == f.cell_dim,
        f.set_movement_at(r, m).wf(),
{
    lemma_updates_keep_keys(f, r.key, Position { x: 0, y: 0 }, m);
    let h = f.history(r.key);
    if r.gen < h.len() {
        assert(f.replaced.contains_key(r.key));
        assert(f.set_movement_at(r, m).replaced.dom() =~= f.replaced.dom());
    }
    let f2 = f.set_movement_at(r, m);
    assert forall|k: usize| #[trigger] f2.replaced.contains_key(k) implies map_keys(f2.maps).contains(k) by {
        assert(f.replaced.contains_key(k));
    }
}

/// Moving an object, or changing how it moves, keeps the keys as they were.
pub proof fn lemma_updates_keep_keys(f: FieldView, k: usize, pos: Position, m: MovementState)
    ensures
        map_keys(f.set_position(k, pos).maps) == map_keys(f.maps),
        map_keys(f.set_movement(k, m).maps) == map_keys(f.maps),
        f.set_position(k, pos).cell_dim == f.cell_dim,
        f.set_movement(k, m).cell_dim == f.cell_dim,
{
    let i = f.index_of(k);
    if i >= 0 {
        assert(0 <= i < f.maps.len());
        lemma_map_keys_update(f.maps, i, f.maps[i].with_pos(pos));
        if f.maps[i] is Tank {
            lemma_map_keys_update(
                f.maps,
                i,
                MapObject::Tank(crate::game::maptank::TankMapObj { state: m, ..f.maps[i]->Tank_0 }),
            );
        }
    }
}

/// After an object is placed, looking up its key finds it.
pub proof fn lemma_add_new_then_lookup(f: FieldView, o: MapObject)
    requires
        f.wf(),
    ensures
        f.add_new(o).index_of(o.key_of()) >= 0,
        f.add_new(o).maps[f.add_new(o).index_of(o.key_of())] == o,
{
    let f2 = f.add_new(o);
    lemma_add_new_wf(f, o);
    let i = f.index_of(o.key_of());
    crate::game::keyed::lemma_position_of(map_keys(f.maps), o.key_of());
    if i >= 0 {
        lemma_map_keys_update(f.maps, i, o);
        lemma_position_unique(map_keys(f2.maps), i);
    } else {
        lemma_map_keys_push(f.maps, o);
        lemma_position_unique(map_keys(f2.maps), f.maps.len() as int);
    }
}

/// A move reports, first, the very position at which it leaves the object.
pub proof fn lemma_move_reports_position(f: FieldView, unit: usize, moving: MovementState)
    requires
        f.wf(),
        f.index_of(unit) >= 0,
    ensures
        f.move_events(unit, moving)[0] == position_event(unit, f.move_target(unit, moving), moving->Moving_dir),
        f.set_position(unit, f.move_target(unit, moving)).maps[f.index_of(unit)].pos_of() == f.move_target(unit, moving),
        f.set_position(unit, f.move_target(unit, moving)).index_of(unit) == f.index_of(unit),
{
    let t = f.move_target(unit, moving);
    lemma_updates_keep_keys(f, unit, t, moving);
    crate::game::keyed::lemma_position_of(map_keys(f.maps), unit);
}

/// A move that overlaps no other object ends one step away, and reports no collision.
pub proof fn lemma_free_move(f: FieldView, unit: usize, dir: Direction, pos: Position, n: int)
    requires
        0 <= n <= f.maps.len(),
        forall|i: int|
            0 <= i < f.maps.len() && (#[trigger] f.maps[i]).key_of() != unit ==> !(collision_gap(f.cell_dim, f.maps[i].pos_of(), pos).0 < 0
                && collision_gap(f.cell_dim, f.maps[i].pos_of(), pos).1 < 0),
    ensures
        run(
            Pushed { pos, events: seq![] },
            f.maps.take(n),
            |s: Pushed, o: MapObject| collision_step(f.cell_dim, unit, dir, s, o),
        ) == (Outcome { state: Pushed { pos, events: seq![] }, error: None::<Seq<char>> }),
        n == f.maps.len() ==> f.collisions(unit, dir, pos) == (Outcome {
            state: Pushed { pos, events: seq![] },
            error: None::<Seq<char>>,
        }),
    decreases n,
{
    let step = |s: Pushed, o: MapObject| collision_step(f.cell_dim, unit, dir, s, o);
    if n == 0 {
        assert(f.maps.take(0).len() == 0);
    } else {
        lemma_free_move(f, unit, dir, pos, n - 1);
        lemma_run_next(Pushed { pos, events: seq![] }, f.maps, step, n - 1);
        assert(f.maps[n - 1] == f.maps[n - 1]);
    }
    if n == f.maps.len() {
        assert(f.maps.take(n) =~= f.maps);
    }
}

impl GameField {
    pub fn new() -> (g: GameField)
        ensures
            g@ == (FieldView { maps: seq![], replaced: Map::empty(), map_dim: 500, cell_dim: 10 }),
    {
        let g = GameField { maps: Vec::new(), replaced: HashMap::new(), map_dim: 500, cell_dim: 10 };
        assert(g@.replaced =~= Map::empty());
        g
    }

    /// How many objects have been replaced under `k`.
    fn history_len(&self, k: usize) -> (n: usize)
        ensures
            n == self@.history(k).len(),
    {
        match self.replaced.get(&k) {
            Some(v) => v.len(),
            None => 0,
        }
    }

    /// A handle on the object now placed under `key`.
    pub fn handle(&self, key: usize) -> (r: MapRef)
        ensures
            r == self@.current(key),
    {
        MapRef { key, gen: self.history_len(key) }
    }

    /// The object a handle names: a replaced one, or the one now under its
    /// key, if there is one.
    pub fn get_object_at(&self, r: MapRef) -> (o: Option<MapObject>)
        requires
            self@.wf(),
        ensures
            r.gen < self@.history(r.key).len() ==> o == Some(self@.history(r.key)[r.gen as int]),
            r.gen >= self@.history(r.key).len() ==> match o {
                Some(x) => self@.index_of(r.key) >= 0 && x == self@.maps[self@.index_of(r.key)],
                None => self@.index_of(r.key) == -1,
            },
    {
        if r.gen < self.history_len(r.key) {
            match self.replaced.get(&r.key) {
                Some(v) => Some(v[r.gen]),
                None => None,
            }
        } else {
            self.get_map_object(r.key)
        }
    }

    /// Sets how the tank a handle names moves.
    pub fn set_movement_at(&mut self, r: MapRef, mstate: MovementState)
        requires
            old(self)@.wf(),
        ensures
            final(self)@ == old(self)@.set_movement_at(r, mstate),
    {
        if r.gen < self.history_len(r.key) {
            let ghost old_view = self@;
            let mut h: Vec<MapObject> = match self.replaced.remove(&r.key) {
                Some(v) => v,
                None => Vec::new(),
            };
            assert(h@ == old_view.history(r.key));
            match h[r.gen] {
                MapObject::Tank(t) => {
                    let mut t2 = t;
                    t2.set_movement(mstate);
                    h.set(r.gen, MapObject::Tank(t2));
                },
                MapObject::Wall(_) => {},
            }
            self.replaced.insert(r.key, h);
            assert(self@.replaced =~= old_view.set_movement_at(r, mstate).replaced);
        } else {
            self.set_movement(r.key, mstate);
        }
    }

    /// Where the object under `key` stands in the field's list.
    pub fn find(&self, key: usize) -> (r: Option<usize>)
        requires
            self@.wf(),
        ensures
            match r {
                Some(i) => i < self@.maps.len() && i == self@.index_of(key) && self@.maps[i as int].key_of() == key,
                None => self@.index_of(key) == -1,
            },
    {
        let mut i: usize = 0;
        while i < self.maps.len()
            invariant
                i <= self.maps.len(),
                self@.wf(),
                forall|j: int| 0 <= j < i ==> map_keys(self@.maps)[j] != key,
            decreases self.maps.len() - i,
        {
            if self.maps[i].key() == key {
                proof {
                    lemma_position_unique(map_keys(self@.maps), i as int);
                }
                return Some(i);
            }
            i = i + 1;
        }
        proof {
            lemma_position_absent(map_keys(self@.maps), key);
        }
        None
    }

    /// The object under `key`, if there is one.
    pub fn get_map_object(&self, key: usize) -> (r: Option<MapObject>)
        requires
            self@.wf(),
        ensures
            match r {
                Some(o) => self@.index_of(key) >= 0 && o == self@.maps[self@.index_of(key)],
                None => self@.index_of(key) == -1,
            },
    {
        match self.find(key) {
            Some(i) => Some(self.maps[i]),
            None => None,
        }
    }

    /// Places `obj` on the field under its key. An object already there is
    /// replaced: it leaves the field, and is kept among the replaced objects
    /// of that key, where the handles on it still reach it.
    pub fn add_new(&mut self, obj: MapObject)
        requires
            old(self)@.wf(),
        ensures
            final(self)@ == old(self)@.add_new(obj),
            final(self)@.wf(),
    {
        proof {
            lemma_add_new_wf(self@, obj);
        }
        let ghost old_view = self@;
        let k = obj.key();
        match self.find(k) {
            Some(i) => {
                let old_obj = self.maps[i];
                self.maps.set(i, obj);
                let mut h: Vec<MapObject> = match self.replaced.remove(&k) {
                    Some(v) => v,
                    None => Vec::new(),
                };
                assert(h@ == old_view.history(k));
                h.push(old_obj);
                self.replaced.insert(k, h);
                assert(self@.replaced =~= old_view.add_new(obj).replaced);
                assert(self@.maps =~= old_view.add_new(obj).maps);
            },
            None => {
                self.maps.push(obj);
                assert(self@.maps =~= old_view.add_new(obj).maps);
            },
        }
    }

    pub fn get_position(&self, ind: usize) -> (r: LogicResult<Position>)
        requires
            self@.wf(),
        ensures
            match r {
                Ok(p) => self@.index_of(ind) >= 0 && p == self@.maps[self@.index_of(ind)].pos_of(),
                Err(e) => self@.index_of(ind) == -1 && e@ == "Object is not on map"@,
            },
    {
        match self.find(ind) {
            Some(i) => Ok(self.maps[i].get_position()),
            None => Err(GameLogicError::new("Object is not on map")),
        }
    }

    /// Moves the object under `key` to `pos`.
    pub fn set_position(&mut self, key: usize, pos: Position)
        requires
            old(self)@.wf(),
        ensures
            final(self)@ == old(self)@.set_position(key, pos),
    {
        match self.find(key) {
            Some(i) => {
                let mut o = self.maps[i];
                o.set_position(pos);
                self.maps[i] = o;
            },
            None => {},
        }
    }

    /// Sets how the tank under `key` moves.
    pub fn set_movement(&mut self, key: usize, mstate: MovementState)
        requires
            old(self)@.wf(),
        ensures
            final(self)@ == old(self)@.set_movement(key, mstate),
    {
        match self.find(key) {
            Some(i) => {
                match self.maps[i] {
                    MapObject::Tank(t) => {
                        let mut t2 = t;
                        t2.set_movement(mstate);
                        self.maps[i] = MapObject::Tank(t2);
                    },
                    MapObject::Wall(_) => {},
                }
            },
            None => {},
        }
    }

    fn calc_collision(&self, pos1: &Position, pos2: &Position) -> (r: (i64, i64))
        requires
            within(*pos1, field_bound()),
            within(*pos2, 2 * field_bound()),
        ensures
            r.0 == collision_gap(self.cell_dim, *pos1, *pos2).0,
            r.1 == collision_gap(self.cell_dim, *pos1, *pos2).1,
    {
        let dx = pos1.x - pos2.x;
        let dy = pos1.y - pos2.y;
        let ax = if dx < 0 { -dx } else { dx };
        let ay = if dy < 0 { -dy } else { dy };
        let cell = self.cell_dim as i64;
        (ax - cell, ay - cell)
    }

    /// Pushes the object under `moved`, heading `dir` and now at `new_pos`,
    /// back out of every other object it overlaps, and reports each collision.
    pub fn check_collisions(
        &self,
        moved: usize,
        dir: Direction,
        new_pos: &mut Position,
    ) -> (r: LogicResult<AddresableEventsList>)
        requires
            self@.bounded(),
            within(*old(new_pos), 2 * field_bound()),
        ensures
            r is Ok,
            *final(new_pos) == self@.collisions(moved, dir, *old(new_pos)).state.pos,
            containers_view(r->Ok_0@) == self@.collisions(moved, dir, *old(new_pos)).state.events,
            within(*final(new_pos), 2 * field_bound()),
    {
        let ghost start = *new_pos;
        let ghost step = |s: Pushed, o: MapObject| collision_step(self.cell_dim, moved, dir, s, o);
        let mut evs: Vec<AddresableContainer> = Vec::new();
        let mut i: usize = 0;
        assert(self@.maps.take(0).len() == 0);
        assert(containers_view(evs@) =~= seq![]);
        while i < self.maps.len()
            invariant
                i <= self.maps.len(),
                self@.bounded(),
                within(*new_pos, 2 * field_bound()),
                step == (|s: Pushed, o: MapObject| collision_step(self.cell_dim, moved, dir, s, o)),
                run(Pushed { pos: start, events: seq![] }, self@.maps.take(i as int), step)
                    == (Outcome { state: Pushed { pos: *new_pos, events: containers_view(evs@) }, error: None::<Seq<char>> }),
            decreases self.maps.len() - i,
        {
            proof {
                lemma_run_next(Pushed { pos: start, events: seq![] }, self@.maps, step, i as int);
            }
            let o = self.maps[i];
            let k = o.key();
            if k != moved {
                let opos = o.get_position();
                assert(within(self@.maps[i as int].pos_of(), field_bound()));
                let (xcoll, ycoll) = self.calc_collision(&opos, new_pos);
                if ycoll < 0 && xcoll < 0 {
                    match dir {
                        Direction::Down => {
                            new_pos.y = new_pos.y - ycoll;
                        },
                        Direction::Up => {
                            new_pos.y = new_pos.y + ycoll;
                        },
                        Direction::Left => {
                            new_pos.x = new_pos.x - xcoll;
                        },
                        Direction::Right => {
                            new_pos.x = new_pos.x + xcoll;
                        },
                    }
                    let ev = EventContainer { unit: moved, evs: Events::Collision { fst: moved, scd: k } };
                    let mut addres: Vec<AddresType> = Vec::new();
                    addres.push(AddresType::Broadcast);
                    let mut events: Vec<EventContainer> = Vec::new();
                    events.push(ev);
                    let c = AddresableContainer { addres, events };
                    assert(c@ == collision_event(moved, k)) by {
                        assert(c@.addres =~= seq![AddresType::Broadcast]);
                        assert(c@.events =~= seq![EventContainerView { unit: moved, evs: EventsView::Collision { fst: moved, scd: k } }]);
                    }
                    let ghost before = containers_view(evs@);
                    evs.push(c);
                    assert(containers_view(evs@) =~= before.push(collision_event(moved, k)));
                }
            }
            i = i + 1;
        }
        proof {
            lemma_run_all(Pushed { pos: start, events: seq![] }, self@.maps, step);
        }
        Ok(evs)
    }

    /// Moves the object under `unit` one step as `moving` says, pushes it back
    /// out of the objects it runs into, and reports its new position and each
    /// collision.
    pub fn move_unit(&mut self, unit: usize, moving: &MovementState) -> (r: LogicResult<AddresableEventsList>)
        requires
            old(self)@.wf(),
            old(self)@.bounded(),
            old(self)@.index_of(unit) >= 0,
            *moving is Moving,
            -field_bound() <= moving->Moving_vel <= field_bound(),
        ensures
            r is Ok,
            containers_view(r->Ok_0@) == old(self)@.move_events(unit, *moving),
            final(self)@ == old(self)@.set_position(unit, old(self)@.move_target(unit, *moving)),
    {
        let i = match self.find(unit) {
            Some(i) => i,
            None => {
                return Ok(Vec::new());
            },
        };
        let mut unit_pos = self.maps[i].get_position();
        assert(within(unit_pos, field_bound()));
        let (dir, d) = match moving {
            MovementState::Moving { dir, vel } => (*dir, *vel),
            MovementState::Stay { .. } => {
                return Ok(Vec::new());
            },
        };
        match dir {
            Direction::Down => {
                unit_pos.y = unit_pos.y - d;
            },
            Direction::Left => {
                unit_pos.x = unit_pos.x - d;
            },
            Direction::Up => {
                unit_pos.y = unit_pos.y + d;
            },
            Direction::Right => {
                unit_pos.x = unit_pos.x + d;
            },
        }
        let coll_check = self.check_collisions(unit, dir, &mut unit_pos);
        let mut coll_check = match coll_check {
            Ok(v) => v,
            Err(e) => {
                return Err(e);
            },
        };
        self.set_position(unit, unit_pos);
        let mut addres: Vec<AddresType> = Vec::new();
        addres.push(AddresType::Broadcast);
        let mut events: Vec<EventContainer> = Vec::new();
        events.push(EventContainer { unit, evs: Events::ChangePosition { pos: unit_pos, dir } });
        let first = AddresableContainer { addres, events };
        assert(first@ == position_event(unit, unit_pos, dir)) by {
            assert(first@.addres =~= seq![AddresType::Broadcast]);
            assert(first@.events =~= seq![EventContainerView { unit, evs: EventsView::ChangePosition { pos: unit_pos, dir } }]);
        }
        let ghost rest = containers_view(coll_check@);
        let mut res: Vec<AddresableContainer> = Vec::new();
        res.push(first);
        res.append(&mut coll_check);
        assert(containers_view(res@) =~= seq![position_event(unit, unit_pos, dir)] + rest);
        Ok(res)
    }

    /// Moves every object that reports a movement. Tanks report standing still
    /// and walls do not move, so nothing moves and nothing is reported.
    pub fn tick(&mut self) -> (r: LogicResult<AddresableEventsList>)
        requires
            old(self)@.wf(),
        ensures
            r is Ok,
            r->Ok_0@.len() == 0,
            final(self)@ == old(self)@,
    {
        let mut evs: Vec<AddresableContainer> = Vec::new();
        let mut i: usize = 0;
        while i < self.maps.len()
            invariant
                i <= self.maps.len(),
                self@ == old(self)@,
                evs@.len() == 0,
            decreases self.maps.len() - i,
        {
            match self.maps[i] {
                MapObject::Tank(t) => {
                    let (_pos, unit_move) = t.get_movement();
                    match unit_move {
                        MovementState::Moving { .. } => {
                            let mut one_ev = self.move_unit(t.key(), &unit_move)?;
                            evs.append(&mut one_ev);
                        },
                        MovementState::Stay { .. } => {},
                    }
                },
                MapObject::Wall(_) => {},
            }
            i = i + 1;
        }
        Ok(evs)
    }

    /// What the field tells about itself: one info, for the whole field.
    pub fn get_info(&self) -> (r: LogicResult<Vec<InfoObject>>)
        ensures
            r is Ok,
            infos_view(r->Ok_0@) == seq![InfoObjectView::Field(self@.info())],
    {
        let mut infomap: Vec<(usize, MapInfo)> = Vec::new();
        for i in 0..self.maps.len()
            invariant
                infomap@ == self@.maps.take(i as int).map_values(|o: MapObject| (o.key_of(), o.info_of())),
        {
            let o = &self.maps[i];
            infomap.push((o.key(), o.get_info()));
            assert(infomap@ =~= self@.maps.take(i + 1).map_values(|o: MapObject| (o.key_of(), o.info_of())));
        }
        assert(self@.maps.take(self@.maps.len() as int) =~= self@.maps);
        let info = GameFieldInfo::new(infomap, self.map_dim, self.cell_dim);
        let mut v: Vec<InfoObject> = Vec::new();
        v.push(InfoObject::Field(info));
        assert(infos_view(v@) =~= seq![InfoObjectView::Field(self@.info())]);
        Ok(v)
    }

    /// Places two walls on the field, each under a new key, and registers
    /// them as units of `brok`.
    pub fn generate_map(&mut self, brok: &mut Broker)
        requires
            old(self)@.wf(),
            old(brok)@.wf(),
            old(brok)@.counter < usize::MAX - 1,
        ensures
            final(self)@ == old(self)@.add_new(
                MapObject::Wall(WallMapObj { key: (old(brok)@.counter + 1) as usize, pos: first_wall_pos(old(self)@.cell_dim) }),
            ).add_new(
                MapObject::Wall(WallMapObj { key: (old(brok)@.counter + 2) as usize, pos: second_wall_pos(old(self)@.cell_dim) }),
            ),
            final(brok)@ == (BrokerView {
                counter: (old(brok)@.counter + 2) as usize,
                ..(BrokerView { counter: (old(brok)@.counter + 1) as usize, ..old(brok)@ }).add_system(
                    GameObjectView::Wall(WallObj { key: (old(brok)@.counter + 1) as usize }),
                )
            }).add_system(GameObjectView::Wall(WallObj { key: (old(brok)@.counter + 2) as usize })),
            final(self)@.wf(),
            final(brok)@.wf(),
    {
        let half = (self.cell_dim / 2) as i64;
        let mut key = brok.produce_key();
        let mut wl = WallObj { key };
        self.add_new(MapObject::Wall(WallMapObj { key, pos: Position { x: half + 10, y: half } }));
        let _ = brok.add_system(GameObject::Wall(wl));
        key = brok.produce_key();
        wl = WallObj { key };
        self.add_new(MapObject::Wall(WallMapObj { key, pos: Position { x: half, y: half + 10 } }));
        let _ = brok.add_system(GameObject::Wall(wl));
    }
}

/// A move reports first, to everyone, that the unit that moved, named by its
/// own key, now stands where the move left it, heading the way it moved; the
/// collisions come after.
pub proof fn lemma_move_names_the_unit(f: FieldView, unit: usize, moving: MovementState)
    requires
        moving is Moving,
    ensures
        f.move_events(unit, moving).len() >= 1,
        f.move_events(unit, moving)[0].addres == seq![AddresType::Broadcast],
        f.move_events(unit, moving)[0].events == seq![
            EventContainerView {
                unit: unit,
                evs: EventsView::ChangePosition { pos: f.move_target(unit, moving), dir: moving->Moving_dir },
            },
        ],
{
}

/// Checking one object against a moving one: the moving one itself and an
/// object it does not overlap on both axes change nothing. An object it
/// overlaps by less than a cell on both axes pushes it back by the overlap,
/// along the axis it moves on only, and one broadcast is added, from the
/// moving unit, telling that it ran into that object.
pub proof fn lemma_collision_step(cell: u32, moved: usize, dir: Direction, s: Pushed, o: MapObject)
    ensures
        collision_step(cell, moved, dir, s, o).error is None,
        (o.key_of() == moved || abs(o.pos_of().x - s.pos.x) >= cell || abs(o.pos_of().y - s.pos.y) >= cell)
            ==> collision_step(cell, moved, dir, s, o).state == s,
        (o.key_of() != moved && abs(o.pos_of().x - s.pos.x) < cell && abs(o.pos_of().y - s.pos.y) < cell) ==> {
            let r = collision_step(cell, moved, dir, s, o).state;
            &&& r.events == s.events.push(AddresableContainerView {
                addres: seq![AddresType::Broadcast],
                events: seq![EventContainerView { unit: moved, evs: EventsView::Collision { fst: moved, scd: o.key_of() } }],
            })
            &&& (dir is Up || dir is Down) ==> r.pos.x == s.pos.x
            &&& (dir is Left || dir is Right) ==> r.pos.y == s.pos.y
            &&& dir is Up ==> r.pos.y == (s.pos.y + abs(o.pos_of().y - s.pos.y) - cell) as i64
            &&& dir is Down ==> r.pos.y == (s.pos.y - abs(o.pos_of().y - s.pos.y) + cell) as i64
            &&& dir is Right ==> r.pos.x == (s.pos.x + abs(o.pos_of().x - s.pos.x) - cell) as i64
            &&& dir is Left ==> r.pos.x == (s.pos.x - abs(o.pos_of().x - s.pos.x) + cell) as i64
        },
{
}

} // verus!
