use vstd::prelude::*;

use crate::game::keyed::{position_of, lemma_position_absent, lemma_position_unique, lemma_push_fresh};
use crate::logic::MessageContainer;

verus! {

/// A room, known by its name. Each room runs one game; the channel that
/// carries messages to it lives with the server.
pub struct Room {
    pub name: String,
}

/// The rooms of the server, in the order they were opened.
pub struct RoomsManager {
    rooms: Vec<Room>,
}

/// Where a message goes: the room, by its position among the rooms, and
/// whether that room was opened for it.
#[derive(Clone, Copy, Debug, PartialEq, Eq, Structural)]
pub struct Delivery {
    pub room: usize,
    pub created: bool,
}

impl View for RoomsManager {
    type V = Seq<Seq<char>>;

    closed spec fn view(&self) -> Seq<Seq<char>> {
        self.rooms@.map_values(|r: Room| r.name@)
    }
}

/// Where a message for the room `name` goes among the rooms `names`, and the
/// rooms afterwards: to the room of that name, opened at the end when there
/// is none.
pub open spec fn route(names: Seq<Seq<char>>, name: Seq<char>) -> (Delivery, Seq<Seq<char>>) {
    let i = position_of(names, name);
    if i >= 0 {
        (Delivery { room: i as usize, created: false }, names)
    } else {
        (Delivery { room: names.len() as usize, created: true }, names.push(name))
    }
}

impl RoomsManager {
    /// No two rooms share a name.
    pub open spec fn wf(self) -> bool {
        self@.no_duplicates()
    }

    pub fn new() -> (m: RoomsManager)
        ensures
            m@ == Seq::<Seq<char>>::empty(),
            m.wf(),
    {
        let m = RoomsManager { rooms: Vec::new() };
        assert(m@ =~= Seq::<Seq<char>>::empty());
        m
    }

    /// How many rooms are open.
    pub fn len(&self) -> (n: usize)
        ensures
            n == self@.len(),
    {
        self.rooms.len()
    }

    /// The name of the room at position `i`.
    pub fn name(&self, i: usize) -> (s: &String)
        requires
            i < self@.len(),
        ensures
            s@ == self@[i as int],
    {
        &self.rooms[i].name
    }

    /// Opens a room named `name` at the end, and returns its position.
    fn produce_room(&mut self, name: String) -> (i: usize)
        requires
            old(self).wf(),
            !old(self)@.contains(name@),
            old(self)@.len() < usize::MAX,
        ensures
            i == old(self)@.len(),
            final(self)@ == old(self)@.push(name@),
            final(self).wf(),
    {
        proof {
            lemma_push_fresh(self@, name@);
        }
        let i = self.rooms.len();
        let ghost before = self@;
        self.rooms.push(Room { name });
        assert(self@ =~= before.push(name@));
        i
    }

    /// Finds the room for `name`, opening it when there is none.
    fn room_for(&mut self, name: &String) -> (d: Delivery)
        requires
            old(self).wf(),
            old(self)@.len() < usize::MAX,
        ensures
            (d, final(self)@) == route(old(self)@, name@),
            final(self).wf(),
    {
        let mut i: usize = 0;
        while i < self.rooms.len()
            invariant
                i <= self.rooms.len(),
                self.wf(),
                forall|j: int| 0 <= j < i ==> self@[j] != name@,
            decreases self.rooms.len() - i,
        {
            if self.rooms[i].name == *name {
                proof {
                    lemma_position_unique(self@, i as int);
                }
                return Delivery { room: i, created: false };
            }
            i = i + 1;
        }
        proof {
            lemma_position_absent(self@, name@);
        }
        let room = self.produce_room(name.clone());
        Delivery { room, created: true }
    }

    /// Where a game message goes: the room its sender is in, opened when
    /// there is none of that name.
    pub fn pass_mesage(&mut self, msg: &MessageContainer) -> (d: Delivery)
        requires
            old(self).wf(),
            old(self)@.len() < usize::MAX,
        ensures
            (d, final(self)@) == route(old(self)@, msg.meta.room@),
            final(self).wf(),
    {
        self.room_for(&msg.meta.room)
    }

    /// Where the message of a joining player goes: the room it joins, opened
    /// when there is none of that name; the same room that `pass_mesage`
    /// gives for the message.
    pub fn add_player(&mut self, msg: &MessageContainer) -> (d: Delivery)
        requires
            old(self).wf(),
            old(self)@.len() < usize::MAX,
        ensures
            (d, final(self)@) == route(old(self)@, msg.meta.room@),
            final(self).wf(),
    {
        self.room_for(&msg.meta.room)
    }

    /// Where the message of a leaving player goes: the room it leaves, opened
    /// when there is none of that name; the same room that `pass_mesage`
    /// gives for the message. No room is ever closed.
    pub fn remove_player(&mut self, msg: &MessageContainer) -> (d: Delivery)
        requires
            old(self).wf(),
            old(self)@.len() < usize::MAX,
        ensures
            (d, final(self)@) == route(old(self)@, msg.meta.room@),
            final(self).wf(),
    {
        self.room_for(&msg.meta.room)
    }
}

/// Routing a room name twice sends both messages to the same room, and the
/// second opens nothing.
pub proof fn lemma_route_twice(names: Seq<Seq<char>>, name: Seq<char>)
    requires
        names.no_duplicates(),
    ensures
        route(route(names, name).1, name).0 == (Delivery { room: route(names, name).0.room, created: false }),
        route(route(names, name).1, name).1 == route(names, name).1,
{
    let (d, after) = route(names, name);
    crate::game::keyed::lemma_position_of(names, name);
    if d.created {
        assert(after[names.len() as int] == name);
        lemma_push_fresh(names, name);
        lemma_position_unique(after, names.len() as int);
    } else {
        lemma_position_unique(names, d.room as int);
    }
}

/// Messages for rooms of different names go to different rooms.
pub proof fn lemma_route_distinct(names: Seq<Seq<char>>, a: Seq<char>, b: Seq<char>)
    requires
        names.no_duplicates(),
        names.len() < usize::MAX,
        a != b,
    ensures
        route(names, a).0.room != route(route(names, a).1, b).0.room,
{
    let (da, after) = route(names, a);
    crate::game::keyed::lemma_position_of(names, a);
    crate::game::keyed::lemma_position_of(after, b);
    if da.created {
        lemma_push_fresh(names, a);
        assert(after[names.len() as int] == a);
    }
}

/// Routing never closes or moves a room: the rooms before are the first
/// rooms after, and at most one is added, at the end.
pub proof fn lemma_route_keeps_rooms(names: Seq<Seq<char>>, name: Seq<char>)
    ensures
        route(names, name).1.take(names.len() as int) == names,
        route(names, name).1.len() == names.len() || route(names, name).1 == names.push(name),
        route(names, name).0.created <==> route(names, name).1.len() == names.len() + 1,
{
    assert(names.take(names.len() as int) =~= names);
    assert(names.push(name).take(names.len() as int) =~= names);
}

/// A message goes to the room named in it: that room is opened exactly when
/// no room of that name was open, and it is the room the message lands in.
pub proof fn lemma_route_finds_room(names: Seq<Seq<char>>, name: Seq<char>)
    requires
        names.len() < usize::MAX,
    ensures
        route(names, name).0.room < route(names, name).1.len(),
        route(names, name).1[route(names, name).0.room as int] == name,
        route(names, name).0.created <==> !names.contains(name),
{
    crate::game::keyed::lemma_position_of(names, name);
    if !names.contains(name) {
        assert(names.push(name)[names.len() as int] == name);
    }
}

} // verus!
