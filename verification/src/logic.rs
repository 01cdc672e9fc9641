use vstd::prelude::*;

use crate::game::errors::LogicResult;
use crate::game::events::{EventContainer, EventContainerView, Message, MessageContainerView, Meta};
use crate::game::events::MessageContainer as GameMessage;
use crate::game::keyed::{position_of, lemma_position_absent, lemma_position_unique, lemma_push_fresh};
use crate::game::logic::Game;

verus! {

/// Who sent a message, and to which room.
pub struct MessageMeta {
    pub name: String,
    pub room: String,
}

/// What reaches a room: a game command, a player leaving, or a player
/// joining over the connection known by the given handle.
pub enum Content {
    Message(Message),
    Close,
    Start(usize),
}

/// A message for a room, with its sender.
pub struct MessageContainer {
    pub meta: MessageMeta,
    pub message: Content,
}

/// The game of a room and its connected players, each by name with the
/// handle of its connection.
pub struct GameContainer {
    pub game: Game,
    pub users: Vec<(String, usize)>,
}

/// The players of a room, by name, with their connection handles.
pub open spec fn clients_view(v: Seq<(String, usize)>) -> Seq<(Seq<char>, usize)> {
    v.map_values(|p: (String, usize)| (p.0@, p.1))
}

pub open spec fn client_names(c: Seq<(Seq<char>, usize)>) -> Seq<Seq<char>> {
    c.map_values(|p: (Seq<char>, usize)| p.0)
}

/// The players with `name` connected over `handle`, in place of any earlier
/// connection of that name.
pub open spec fn insert_client(c: Seq<(Seq<char>, usize)>, name: Seq<char>, handle: usize) -> Seq<(Seq<char>, usize)> {
    let i = position_of(client_names(c), name);
    if i >= 0 {
        c.update(i, (name, handle))
    } else {
        c.push((name, handle))
    }
}

/// The players without `name`.
pub open spec fn remove_client(c: Seq<(Seq<char>, usize)>, name: Seq<char>) -> Seq<(Seq<char>, usize)> {
    let i = position_of(client_names(c), name);
    if i >= 0 {
        c.remove(i)
    } else {
        c
    }
}

/// Each event, in order, sent to each player, in order.
pub open spec fn fan_out(events: Seq<EventContainerView>, c: Seq<(Seq<char>, usize)>) -> Seq<(EventContainerView, usize)> {
    events.map_values(|e: EventContainerView| c.map_values(|p: (Seq<char>, usize)| (e, p.1))).flatten()
}

/// The values of a list of events to send, each with the connection it goes to.
pub open spec fn outgoing_view(v: Seq<(EventContainer, usize)>) -> Seq<(EventContainerView, usize)> {
    v.map_values(|p: (EventContainer, usize)| (p.0@, p.1))
}

/// The game command carried by a room message from `name`.
pub open spec fn game_message(name: Seq<char>, m: Message) -> MessageContainerView {
    MessageContainerView { msg: m, user_name: name }
}

impl GameContainer {
    /// The game's world is well formed and no two players share a name.
    pub open spec fn wf(self) -> bool {
        self.game@.world.wf() && client_names(clients_view(self.users@)).no_duplicates()
    }

    /// The room takes the message: a command goes to a unit that takes it,
    /// and a player joining a lobby with room left finds a key left to give.
    pub open spec fn accepts_spec(self, msg: MessageContainer) -> bool {
        match msg.message {
            Content::Message(m) => self.game@.message_ok(game_message(msg.meta.name@, m)),
            Content::Start(_) => self.game@.users.len() < crate::game::logic::NUM_PLAYERS ==> self.game@.world.broker.counter
                < usize::MAX,
            Content::Close => true,
        }
    }

    pub fn new() -> (g: GameContainer)
        ensures
            g.game@ == crate::game::states::new_game(),
            clients_view(g.users@) == Seq::<(Seq<char>, usize)>::empty(),
            g.wf(),
            g.game@.inv(),
            g.game@.world.keys_handed_out(),
    {
        let g = GameContainer { game: Game::new(), users: Vec::new() };
        assert(clients_view(g.users@) =~= Seq::<(Seq<char>, usize)>::empty());
        assert(client_names(clients_view(g.users@)) =~= Seq::<Seq<char>>::empty());
        g
    }

    /// Whether the room takes the message.
    pub fn accepts(&self, msg: &MessageContainer) -> (r: bool)
        requires
            self.wf(),
        ensures
            r == self.accepts_spec(*msg),
    {
        match &msg.message {
            Content::Message(m) => {
                let gm = GameMessage { msg: *m, meta: Meta { user_name: msg.meta.name.clone() } };
                self.game.accepts_message(&gm)
            },
            Content::Start(_) => {
                if self.game.users.len() < crate::game::logic::NUM_PLAYERS {
                    self.game.logic.system.counter() < usize::MAX
                } else {
                    true
                }
            },
            Content::Close => true,
        }
    }

    fn find_client(&self, name: &String) -> (r: Option<usize>)
        requires
            self.wf(),
        ensures
            match r {
                Some(i) => i == position_of(client_names(clients_view(self.users@)), name@) && i < self.users@.len(),
                None => position_of(client_names(clients_view(self.users@)), name@) == -1,
            },
    {
        let ghost names = client_names(clients_view(self.users@));
        let mut i: usize = 0;
        while i < self.users.len()
            invariant
                i <= self.users.len(),
                names == client_names(clients_view(self.users@)),
                names.no_duplicates(),
                forall|j: int| 0 <= j < i ==> names[j] != name@,
            decreases self.users.len() - i,
        {
            if self.users[i].0 == *name {
                proof {
                    lemma_position_unique(names, i as int);
                }
                return Some(i);
            }
            i = i + 1;
        }
        proof {
            lemma_position_absent(names, name@);
        }
        None
    }

    /// One copy of `rsp` for each connected player, with its connection.
    pub fn broadcast(&self, rsp: &EventContainer) -> (out: Vec<(EventContainer, usize)>)
        ensures
            outgoing_view(out@) == clients_view(self.users@).map_values(|p: (Seq<char>, usize)| (rsp@, p.1)),
    {
        let mut out: Vec<(EventContainer, usize)> = Vec::new();
        for i in 0..self.users.len()
            invariant
                out@.len() == i,
                forall|j: int| 0 <= j < i ==> (#[trigger] out@[j]).0@ == rsp@ && out@[j].1 == self.users@[j].1,
        {
            out.push((rsp.duplicate(), self.users[i].1));
        }
        assert(outgoing_view(out@) =~= clients_view(self.users@).map_values(|p: (Seq<char>, usize)| (rsp@, p.1)));
        out
    }

    /// Handles a message for the room: a command goes to the game; a player
    /// leaving is forgotten; a player joining is remembered with its
    /// connection and joins the game, whose answer is not sent on.
    pub fn handle(&mut self, msg: MessageContainer) -> (r: LogicResult<()>)
        requires
            old(self).wf(),
            old(self).accepts_spec(msg),
        ensures
            final(self).wf(),
            old(self).game@.inv() ==> final(self).game@.inv(),
            old(self).game@.world.keys_handed_out() ==> final(self).game@.world.keys_handed_out(),
            match msg.message {
                Content::Message(m) => {
                    &&& clients_view(final(self).users@) == clients_view(old(self).users@)
                    &&& final(self).game@.users == old(self).game@.users
                    &&& final(self).game@.world == old(self).game@.process_message(game_message(msg.meta.name@, m)).state
                    &&& match r {
                        Ok(_) => old(self).game@.process_message(game_message(msg.meta.name@, m)).error is None,
                        Err(e) => old(self).game@.process_message(game_message(msg.meta.name@, m)).error == Some(e@),
                    }
                },
                Content::Close => {
                    &&& r is Ok
                    &&& clients_view(final(self).users@) == remove_client(clients_view(old(self).users@), msg.meta.name@)
                    &&& final(self).game@ == old(self).game@
                },
                Content::Start(handle) => {
                    &&& r is Ok
                    &&& clients_view(final(self).users@) == insert_client(clients_view(old(self).users@), msg.meta.name@, handle)
                    &&& final(self).game@ == old(self).game@.add_player(msg.meta.name@).0
                },
            },
    {
        let ghost before = clients_view(self.users@);
        let ghost names = client_names(before);
        match msg.message {
            Content::Message(mg) => {
                let mcnt = GameMessage { msg: mg, meta: Meta { user_name: msg.meta.name } };
                self.game.process_message(mcnt)
            },
            Content::Close => {
                match self.find_client(&msg.meta.name) {
                    Some(i) => {
                        self.users.remove(i);
                        assert(clients_view(self.users@) =~= before.remove(i as int));
                        proof {
                            let after = client_names(clients_view(self.users@));
                            assert(after =~= names.remove(i as int));
                            assert forall|a: int, b: int| 0 <= a < after.len() && 0 <= b < after.len() && a != b implies after[a] != after[b] by {
                                let a2 = if a < i { a } else { a + 1 };
                                let b2 = if b < i { b } else { b + 1 };
                                assert(after[a] == names[a2]);
                                assert(after[b] == names[b2]);
                            }
                        }
                    },
                    None => {},
                }
                Ok(())
            },
            Content::Start(wssock) => {
                match self.find_client(&msg.meta.name) {
                    Some(i) => {
                        self.users.set(i, (msg.meta.name.clone(), wssock));
                        assert(clients_view(self.users@) =~= before.update(i as int, (msg.meta.name@, wssock)));
                        assert(client_names(clients_view(self.users@)) =~= names);
                    },
                    None => {
                        self.users.push((msg.meta.name.clone(), wssock));
                        assert(clients_view(self.users@) =~= before.push((msg.meta.name@, wssock)));
                        assert(client_names(clients_view(self.users@)) =~= names.push(msg.meta.name@));
                        proof {
                            lemma_push_fresh(names, msg.meta.name@);
                        }
                    },
                }
                let _ = self.game.add_player(msg.meta.name);
                Ok(())
            },
        }
    }

    /// One tick of the room's game; each event it reports goes, in order, to
    /// each connected player. When the tick fails, nothing is sent.
    pub fn tick(&mut self) -> (out: Vec<(EventContainer, usize)>)
        requires
            old(self).wf(),
            old(self).game@.world.tick_ok(),
        ensures
            final(self).wf(),
            old(self).game@.inv() ==> final(self).game@.inv(),
            old(self).game@.world.keys_handed_out() ==> final(self).game@.world.keys_handed_out(),
            clients_view(final(self).users@) == clients_view(old(self).users@),
            final(self).game@.users == old(self).game@.users,
            final(self).game@.world == old(self).game@.world.tick().state.world,
            outgoing_view(out@) == (if old(self).game@.world.tick().error is None {
                fan_out(old(self).game@.world.tick().state.events, clients_view(old(self).users@))
            } else {
                Seq::<(EventContainerView, usize)>::empty()
            }),
    {
        let mut out: Vec<(EventContainer, usize)> = Vec::new();
        let evs = match self.game.tick() {
            Ok(some) => some,
            Err(_) => {
                assert(outgoing_view(out@) =~= Seq::<(EventContainerView, usize)>::empty());
                return out;
            },
        };
        let ghost events = crate::game::events::events_view(evs@);
        let ghost c = clients_view(self.users@);
        let ghost per = |e: EventContainerView| c.map_values(|p: (Seq<char>, usize)| (e, p.1));
        assert(events.take(0).map_values(per) =~= Seq::<Seq<(EventContainerView, usize)>>::empty());
        assert(outgoing_view(out@) =~= Seq::<(EventContainerView, usize)>::empty());
        for i in 0..evs.len()
            invariant
                events == crate::game::events::events_view(evs@),
                c == clients_view(self.users@),
                per == (|e: EventContainerView| c.map_values(|p: (Seq<char>, usize)| (e, p.1))),
                outgoing_view(out@) == events.take(i as int).map_values(per).flatten(),
        {
            let ghost before = outgoing_view(out@);
            let mut one = self.broadcast(&evs[i]);
            out.append(&mut one);
            proof {
                let pre = events.take(i as int).map_values(per);
                assert(events.take(i + 1).map_values(per) =~= pre.push(per(events[i as int])));
                pre.lemma_flatten_push(per(events[i as int]));
                assert(outgoing_view(out@) =~= before + per(events[i as int]));
            }
        }
        assert(events.take(evs.len() as int) =~= events);
        out
    }
}

/// A player leaving: no player of that name is left, every player of
/// another name stays with its connection, and no one else appears.
pub proof fn lemma_remove_client(c: Seq<(Seq<char>, usize)>, name: Seq<char>)
    requires
        client_names(c).no_duplicates(),
    ensures
        !client_names(remove_client(c, name)).contains(name),
        forall|p: (Seq<char>, usize)| c.contains(p) && p.0 != name ==> remove_client(c, name).contains(p),
        forall|p: (Seq<char>, usize)| remove_client(c, name).contains(p) ==> c.contains(p) && p.0 != name,
{
    let names = client_names(c);
    let i = position_of(names, name);
    crate::game::keyed::lemma_position_of(names, name);
    let r = remove_client(c, name);
    assert forall|j: int| 0 <= j < r.len() implies #[trigger] r[j].0 != name by {
        if i >= 0 {
            let j2 = if j < i { j } else { j + 1 };
            assert(r[j] == c[j2]);
            assert(names[j2] == c[j2].0);
            assert(names[i] == name);
        } else {
            assert(names[j] == c[j].0);
        }
    }
    if client_names(r).contains(name) {
        let j = choose|j: int| 0 <= j < client_names(r).len() && client_names(r)[j] == name;
        assert(client_names(r)[j] == r[j].0);
    }
    assert forall|p: (Seq<char>, usize)| c.contains(p) && p.0 != name implies r.contains(p) by {
        let j = choose|j: int| 0 <= j < c.len() && c[j] == p;
        if i >= 0 {
            assert(names[i] == name);
            assert(c[i].0 == name);
            assert(j != i);
            let j2 = if j < i { j } else { j - 1 };
            assert(r[j2] == p);
        } else {
            assert(r[j] == p);
        }
    }
    assert forall|p: (Seq<char>, usize)| r.contains(p) implies c.contains(p) && p.0 != name by {
        let j = choose|j: int| 0 <= j < r.len() && r[j] == p;
        assert(r[j].0 != name);
        if i >= 0 {
            let j2 = if j < i { j } else { j + 1 };
            assert(c[j2] == p);
        } else {
            assert(c[j] == p);
        }
    }
}

/// A player joining: it is connected over the given handle, it is the only
/// player of its name, and every player of another name stays with its
/// connection.
pub proof fn lemma_insert_client(c: Seq<(Seq<char>, usize)>, name: Seq<char>, handle: usize)
    requires
        client_names(c).no_duplicates(),
    ensures
        insert_client(c, name, handle).contains((name, handle)),
        forall|p: (Seq<char>, usize)| #[trigger] insert_client(c, name, handle).contains(p) && p.0 == name ==> p.1 == handle,
        forall|p: (Seq<char>, usize)| c.contains(p) && p.0 != name ==> insert_client(c, name, handle).contains(p),
{
    let names = client_names(c);
    let i = position_of(names, name);
    crate::game::keyed::lemma_position_of(names, name);
    let r = insert_client(c, name, handle);
    if i >= 0 {
        assert(r[i] == (name, handle));
    } else {
        assert(r[c.len() as int] == (name, handle));
    }
    assert forall|p: (Seq<char>, usize)| #[trigger] r.contains(p) && p.0 == name implies p.1 == handle by {
        let j = choose|j: int| 0 <= j < r.len() && r[j] == p;
        if !(i >= 0 && j == i) && !(i < 0 && j == c.len()) {
            assert(r[j] == c[j]);
            assert(names[j] == c[j].0);
            if i >= 0 {
                assert(names[i] == name);
            }
        }
    }
    assert forall|p: (Seq<char>, usize)| c.contains(p) && p.0 != name implies r.contains(p) by {
        let j = choose|j: int| 0 <= j < c.len() && c[j] == p;
        if i >= 0 {
            assert(names[i] == name);
            assert(c[i].0 == name);
        }
        assert(r[j] == p);
    }
}

} // verus!
