use vstd::prelude::*;

use crate::game::logic::{InfoObject, InfoObjectView, duplicate_infos};
use crate::game::tank::TankInfo;

verus! {

/// Where an event is delivered: to every subscriber of the event's unit,
/// to one unit, or to the system queue of the broker.
#[derive(Clone, Copy, Debug, PartialEq, Eq, Structural)]
pub enum AddresType {
    Broadcast,
    Direct(usize),
    System,
}

/// One of the four directions a unit can face.
#[derive(Clone, Copy, Debug, PartialEq, Eq, Structural)]
pub enum Direction {
    Up,
    Right,
    Down,
    Left,
}

/// A point on the game field, in whole field units.
#[derive(Clone, Copy, Debug, PartialEq, Eq, Structural)]
pub struct Position {
    pub x: i64,
    pub y: i64,
}

/// What a player asks one of its units to do.
#[derive(Clone, Copy, Debug, PartialEq, Eq, Structural)]
pub enum Commands {
    Move { direction: Direction },
    ChangeDirection { newdir: Direction },
    Fire,
}

/// The kind of unit a spawn request asks for.
#[derive(Clone, Copy, Debug, PartialEq, Eq, Structural)]
pub enum SpawneReq {
    Tank,
}

/// A unit that has been spawned.
#[derive(Clone, Copy, Debug)]
pub enum Unit {
    Tank(TankInfo),
    SomeDefaultUnit,
}

/// A command addressed to a unit.
#[derive(Clone, Copy, Debug, PartialEq, Eq, Structural)]
pub struct Message {
    pub unit: usize,
    pub cmd: Commands,
}

/// Who sent a message.
pub struct Meta {
    pub user_name: String,
}

/// A command together with its sender.
pub struct MessageContainer {
    pub msg: Message,
    pub meta: Meta,
}

/// The value of a [`MessageContainer`].
pub struct MessageContainerView {
    pub msg: Message,
    pub user_name: Seq<char>,
}

impl View for Meta {
    type V = Seq<char>;

    open spec fn view(&self) -> Seq<char> {
        self.user_name@
    }
}

impl View for MessageContainer {
    type V = MessageContainerView;

    open spec fn view(&self) -> MessageContainerView {
        MessageContainerView { msg: self.msg, user_name: self.meta@ }
    }
}

impl Meta {
    pub fn duplicate(&self) -> (r: Meta)
        ensures
            r@ == self@,
    {
        Meta { user_name: self.user_name.clone() }
    }
}

impl MessageContainer {
    pub fn duplicate(&self) -> (r: MessageContainer)
        ensures
            r@ == self@,
    {
        MessageContainer { msg: self.msg, meta: self.meta.duplicate() }
    }
}

/// Everything that happens in a game.
pub enum Events {
    Command(MessageContainer),
    ChangePosition { pos: Position, dir: Direction },
    ChangeDirection { dir: Direction },
    Fire { pos: Position, dir: Direction },
    Spawned { owner: usize, unit: Unit },
    SpawneRequest(SpawneReq),
    UserConnected { user_name: String },
    Collision { fst: usize, scd: usize },
    Error { err: String, user: String },
    GameInfo(Vec<InfoObject>),
}

/// The value of an [`Events`].
pub enum EventsView {
    Command(MessageContainerView),
    ChangePosition { pos: Position, dir: Direction },
    ChangeDirection { dir: Direction },
    Fire { pos: Position, dir: Direction },
    Spawned { owner: usize, unit: Unit },
    SpawneRequest(SpawneReq),
    UserConnected { user_name: Seq<char> },
    Collision { fst: usize, scd: usize },
    Error { err: Seq<char>, user: Seq<char> },
    GameInfo(Seq<InfoObjectView>),
}

impl View for Events {
    type V = EventsView;

    open spec fn view(&self) -> EventsView {
        match self {
            Events::Command(m) => EventsView::Command(m@),
            Events::ChangePosition { pos, dir } => EventsView::ChangePosition { pos: *pos, dir: *dir },
            Events::ChangeDirection { dir } => EventsView::ChangeDirection { dir: *dir },
            Events::Fire { pos, dir } => EventsView::Fire { pos: *pos, dir: *dir },
            Events::Spawned { owner, unit } => EventsView::Spawned { owner: *owner, unit: *unit },
            Events::SpawneRequest(r) => EventsView::SpawneRequest(*r),
            Events::UserConnected { user_name } => EventsView::UserConnected { user_name: user_name@ },
            Events::Collision { fst, scd } => EventsView::Collision { fst: *fst, scd: *scd },
            Events::Error { err, user } => EventsView::Error { err: err@, user: user@ },
            Events::GameInfo(v) => EventsView::GameInfo(v@.map_values(|i: InfoObject| i@)),
        }
    }
}

impl Events {
    pub fn duplicate(&self) -> (r: Events)
        ensures
            r@ == self@,
    {
        match self {
            Events::Command(m) => Events::Command(m.duplicate()),
            Events::ChangePosition { pos, dir } => Events::ChangePosition { pos: *pos, dir: *dir },
            Events::ChangeDirection { dir } => Events::ChangeDirection { dir: *dir },
            Events::Fire { pos, dir } => Events::Fire { pos: *pos, dir: *dir },
            Events::Spawned { owner, unit } => Events::Spawned { owner: *owner, unit: *unit },
            Events::SpawneRequest(r) => Events::SpawneRequest(*r),
            Events::UserConnected { user_name } => Events::UserConnected { user_name: user_name.clone() },
            Events::Collision { fst, scd } => Events::Collision { fst: *fst, scd: *scd },
            Events::Error { err, user } => Events::Error { err: err.clone(), user: user.clone() },
            Events::GameInfo(v) => Events::GameInfo(duplicate_infos(v)),
        }
    }
}

/// An event together with the unit it concerns.
pub struct EventContainer {
    pub unit: usize,
    pub evs: Events,
}

/// The value of an [`EventContainer`].
pub struct EventContainerView {
    pub unit: usize,
    pub evs: EventsView,
}

impl View for EventContainer {
    type V = EventContainerView;

    open spec fn view(&self) -> EventContainerView {
        EventContainerView { unit: self.unit, evs: self.evs@ }
    }
}

impl EventContainer {
    pub fn duplicate(&self) -> (r: EventContainer)
        ensures
            r@ == self@,
    {
        EventContainer { unit: self.unit, evs: self.evs.duplicate() }
    }
}

pub type EventsList = Vec<EventContainer>;

/// The values of a list of events.
pub open spec fn events_view(v: Seq<EventContainer>) -> Seq<EventContainerView> {
    v.map_values(|e: EventContainer| e@)
}

/// Events together with the addresses each of them goes to.
pub struct AddresableContainer {
    pub addres: Vec<AddresType>,
    pub events: EventsList,
}

/// The value of an [`AddresableContainer`].
pub struct AddresableContainerView {
    pub addres: Seq<AddresType>,
    pub events: Seq<EventContainerView>,
}

impl View for AddresableContainer {
    type V = AddresableContainerView;

    open spec fn view(&self) -> AddresableContainerView {
        AddresableContainerView { addres: self.addres@, events: events_view(self.events@) }
    }
}

pub type AddresableEventsList = Vec<AddresableContainer>;

/// The values of a list of addressed events.
pub open spec fn containers_view(v: Seq<AddresableContainer>) -> Seq<AddresableContainerView> {
    v.map_values(|c: AddresableContainer| c@)
}

/// A copy of a list of events.
pub fn duplicate_events(v: &Vec<EventContainer>) -> (r: Vec<EventContainer>)
    ensures
        events_view(r@) == events_view(v@),
{
    let mut r: Vec<EventContainer> = Vec::new();
    for i in 0..v.len()
        invariant
            r@.len() == i,
            forall|j: int| 0 <= j < i ==> (#[trigger] r@[j])@ == v@[j]@,
    {
        r.push(v[i].duplicate());
    }
    assert(events_view(r@) =~= events_view(v@));
    r
}

/// A copy of a list of addresses.
pub fn duplicate_addresses(v: &Vec<AddresType>) -> (r: Vec<AddresType>)
    ensures
        r@ == v@,
{
    let mut r: Vec<AddresType> = Vec::new();
    for i in 0..v.len()
        invariant
            r@ == v@.take(i as int),
    {
        r.push(v[i]);
        assert(r@ =~= v@.take(i + 1));
    }
    assert(v@.take(v@.len() as int) =~= v@);
    r
}

impl AddresableContainer {
    pub fn duplicate(&self) -> (r: AddresableContainer)
        ensures
            r@ == self@,
    {
        AddresableContainer {
            addres: duplicate_addresses(&self.addres),
            events: duplicate_events(&self.events),
        }
    }
}

} // verus!
