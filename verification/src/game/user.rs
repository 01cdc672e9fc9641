use vstd::prelude::*;

use crate::game::errors::LogicResult;
use crate::game::events::{
    AddresType, AddresableContainer, AddresableContainerView, AddresableEventsList, EventContainer,
    EventContainerView, Events, EventsView, SpawneReq, Unit, containers_view,
};

verus! {

/// What a user unit tells about itself.
#[derive(Clone, Copy, Debug)]
pub struct UserInfo {
    pub item: &'static str,
    pub id: usize,
    pub hp: i8,
}

/// The unit that stands for a player: its id, its health points, and the
/// ids of the tanks it has been given.
pub struct User {
    id: usize,
    healpoints: i8,
    units: Vec<usize>,
}

/// The value of a [`User`].
pub struct UserView {
    pub id: usize,
    pub healpoints: i8,
    pub units: Seq<usize>,
}

impl View for User {
    type V = UserView;

    closed spec fn view(&self) -> UserView {
        UserView { id: self.id, healpoints: self.healpoints, units: self.units@ }
    }
}

/// The health points a new user starts with.
pub open spec fn start_healpoints() -> i8 {
    3
}

/// The request, sent to the system, for a tank for the user `id`.
pub open spec fn spawn_request(id: usize) -> AddresableContainerView {
    AddresableContainerView {
        addres: seq![AddresType::System],
        events: seq![EventContainerView { unit: id, evs: EventsView::SpawneRequest(SpawneReq::Tank) }],
    }
}

impl UserView {
    /// The events a user takes: a spawned tank, or a change of position.
    pub open spec fn accepts(self, ev: EventContainerView) -> bool {
        match ev.evs {
            EventsView::Spawned { unit, .. } => unit is Tank,
            EventsView::ChangePosition { .. } => true,
            _ => false,
        }
    }

    /// The user after an event: a spawned tank is added to its tanks.
    pub open spec fn process(self, ev: EventContainerView) -> UserView {
        match ev.evs {
            EventsView::Spawned { unit: Unit::Tank(t), .. } => UserView { units: self.units.push(t.id), ..self },
            _ => self,
        }
    }

    /// What a user sends on each tick: a request for a tank while it has none.
    pub open spec fn tick_events(self) -> Seq<AddresableContainerView> {
        if self.units.len() < 1 {
            seq![spawn_request(self.id)]
        } else {
            seq![]
        }
    }
}

impl User {
    pub fn new(id: usize) -> (u: User)
        ensures
            u@ == (UserView { id, healpoints: start_healpoints(), units: seq![] }),
    {
        User { id, healpoints: 3, units: Vec::new() }
    }

    /// The event by which a user asks for a tank.
    pub fn spawn_tank(&mut self) -> (r: LogicResult<Events>)
        ensures
            r is Ok,
            r->Ok_0@ == EventsView::SpawneRequest(SpawneReq::Tank),
            final(self)@ == old(self)@,
    {
        Ok(Events::SpawneRequest(SpawneReq::Tank))
    }

    pub fn process(&mut self, msg: EventContainer) -> (r: LogicResult<()>)
        requires
            old(self)@.accepts(msg@),
        ensures
            r is Ok,
            final(self)@ == old(self)@.process(msg@),
    {
        match msg.evs {
            Events::Spawned { owner: _owner, unit } => {
                if let Unit::Tank(tnk) = unit {
                    self.units.push(tnk.id);
                }
            },
            _ => {},
        }
        Ok(())
    }

    pub fn tick(&mut self) -> (r: LogicResult<AddresableEventsList>)
        ensures
            r is Ok,
            containers_view(r->Ok_0@) == old(self)@.tick_events(),
            final(self)@ == old(self)@,
    {
        if self.units.len() < 1 {
            let ev = self.spawn_tank()?;
            let mut addres: Vec<AddresType> = Vec::new();
            addres.push(AddresType::System);
            let mut events: Vec<EventContainer> = Vec::new();
            events.push(EventContainer { unit: self.id, evs: ev });
            let c = AddresableContainer { addres, events };
            assert(c@ == spawn_request(self@.id)) by {
                assert(c@.addres =~= seq![AddresType::System]);
                assert(c@.events =~= seq![EventContainerView { unit: self@.id, evs: EventsView::SpawneRequest(SpawneReq::Tank) }]);
            }
            let mut addrevlist: Vec<AddresableContainer> = Vec::new();
            addrevlist.push(c);
            assert(containers_view(addrevlist@) =~= seq![spawn_request(self@.id)]);
            return Ok(addrevlist);
        }
        let v: Vec<AddresableContainer> = Vec::new();
        assert(containers_view(v@) =~= seq![]);
        Ok(v)
    }

    pub fn key(&self) -> (k: usize)
        ensures
            k == self@.id,
    {
        self.id
    }

    pub fn get_info(&self) -> (i: UserInfo)
        ensures
            i == (UserInfo { item: "User", id: self@.id, hp: self@.healpoints }),
    {
        UserInfo { id: self.id, item: "User", hp: self.healpoints }
    }
}

/// A user without a tank asks the system, on every tick, for a tank for
/// itself, and a user with one asks for nothing; a spawned tank it is told
/// of is added after the tanks it had, and nothing else changes it.
pub proof fn lemma_user_asks_for_a_tank(u: UserView, ev: EventContainerView)
    ensures
        u.units.len() == 0 ==> u.tick_events() == seq![
            AddresableContainerView {
                addres: seq![AddresType::System],
                events: seq![EventContainerView { unit: u.id, evs: EventsView::SpawneRequest(SpawneReq::Tank) }],
            },
        ],
        u.units.len() > 0 ==> u.tick_events() == Seq::<AddresableContainerView>::empty(),
        ev.evs matches EventsView::Spawned { unit: Unit::Tank(t), .. } ==> u.process(ev).units == u.units.push(t.id),
        !(ev.evs is Spawned) ==> u.process(ev) == u,
        u.process(ev).id == u.id && u.process(ev).healpoints == u.healpoints,
{
}

} // verus!
