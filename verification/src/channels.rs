//! Rooms without an actor: a room keeps for each member the writer of its
//! stream, and a list of rooms finds one by its name.

use vstd::prelude::*;
use crate::directory::{
    distinct, includes, lemma_others_none, lemma_others_step, lemma_without, names_of, others,
    position, without, Directory, EntryView,
};

verus! {

/// One copy of a message, for the member called `nick`.
#[derive(Debug, PartialEq, Eq)]
pub struct Delivery {
    pub nick: String,
    pub msg: String,
}

/// `Delivery` as values.
pub struct DeliveryView {
    pub nick: Seq<char>,
    pub msg: Seq<char>,
}

impl DeepView for Delivery {
    type V = DeliveryView;

    open spec fn deep_view(&self) -> DeliveryView {
        DeliveryView { nick: self.nick@, msg: self.msg@ }
    }
}

/// The nicknames joined by a comma and a space.
pub open spec fn listed(nicks: Seq<Seq<char>>) -> Seq<char>
    decreases nicks.len(),
{
    if nicks.len() == 0 {
        Seq::empty()
    } else if nicks.len() == 1 {
        nicks[0]
    } else {
        listed(nicks.drop_last()) + ", "@ + nicks.last()
    }
}

/// A room as values.
pub struct RoomView<W> {
    pub name: Seq<char>,
    pub topic: Seq<char>,
    pub capacity: usize,
    pub clients: Seq<EntryView<W>>,
}

impl<W> RoomView<W> {
    /// No nickname is held twice, and the members fit the capacity.
    pub open spec fn wf(self) -> bool {
        &&& distinct(self.clients)
        &&& self.clients.len() <= self.capacity
    }

    /// Whether the room lets in a client called `nick`: it has room left and
    /// no member of that nickname.
    pub open spec fn admits(self, nick: Seq<char>) -> bool {
        self.clients.len() < self.capacity && !includes(self.clients, nick)
    }

    /// The room after `nick` asked to be let in with `writer`.
    pub open spec fn insert(self, nick: Seq<char>, writer: W) -> Self {
        if self.admits(nick) {
            RoomView {
                clients: self.clients.push(EntryView { name: nick, sender: writer }),
                ..self
            }
        } else {
            self
        }
    }

    /// The copies of `msg` that go out when `nick` sends it: one for each
    /// other member, if `nick` is a member, and none if not.
    pub open spec fn send(self, nick: Seq<char>, msg: Seq<char>) -> Seq<DeliveryView> {
        if includes(self.clients, nick) {
            copies(others(self.clients, nick), msg)
        } else {
            Seq::empty()
        }
    }
}

/// One copy of `msg` for each of `to`.
pub open spec fn copies<W>(to: Seq<EntryView<W>>, msg: Seq<char>) -> Seq<DeliveryView> {
    Seq::new(to.len(), |i: int| DeliveryView { nick: to[i].name, msg })
}

/// A room: its name, topic and capacity, and the writer of each member.
#[derive(Debug)]
pub struct Channel<W> {
    name: String,
    topic: String,
    capacity: usize,
    clients: Directory<W>,
}

impl<W> View for Channel<W> {
    type V = RoomView<W>;

    closed spec fn view(&self) -> RoomView<W> {
        RoomView {
            name: self.name@,
            topic: self.topic@,
            capacity: self.capacity,
            clients: self.clients@,
        }
    }
}

impl<W> Channel<W> {
    /// What every room keeps.
    pub open spec fn wf(&self) -> bool {
        self@.wf()
    }

    /// An empty room without a topic.
    pub fn new(name: String, capacity: usize) -> (r: Channel<W>)
        ensures
            r.wf(),
            r@ == (RoomView {
                name: name@,
                topic: Seq::<char>::empty(),
                capacity,
                clients: Seq::<EntryView<W>>::empty(),
            }),
    {
        Channel { name, topic: String::new(), capacity, clients: Directory::new() }
    }

    /// The room's name.
    pub fn name(&self) -> (r: &String)
        ensures
            r@ == self@.name,
    {
        &self.name
    }

    /// The writer of the member called `nick`.
    pub fn writer(&self, nick: &String) -> (r: Option<&W>)
        ensures
            r is Some <==> includes(self@.clients, nick@),
            r matches Some(writer) ==> *writer == self@.clients[position(
                self@.clients,
                nick@,
            )].sender,
    {
        self.clients.get(nick)
    }

    /// Lets `nick` in with `writer`, unless the room is at its capacity or
    /// has a member of that nickname.
    pub fn insert(&mut self, nick: String, writer: W) -> (r: Result<(), ()>)
        requires
            old(self).wf(),
        ensures
            final(self).wf(),
            final(self)@ == old(self)@.insert(nick@, writer),
            r is Ok <==> old(self)@.admits(nick@),
    {
        if self.capacity == self.clients.len() {
            return Err(());
        }
        if self.clients.contains(&nick) {
            return Err(());
        }
        self.clients.insert(nick, writer);
        Ok(())
    }

    /// The copies of `msg` to send for the member `nick`.
    pub fn send(&self, nick: String, msg: String) -> (r: Vec<Delivery>)
        ensures
            r.deep_view() == self@.send(nick@, msg@),
    {
        let mut out: Vec<Delivery> = Vec::new();
        if !self.clients.contains(&nick) {
            assert(out.deep_view() =~= Seq::empty());
            return out;
        }
        let names = self.clients.names();
        let ghost ms = self@.clients;
        let mut i: usize = 0;
        proof {
            lemma_others_none(ms, nick@);
            assert(names.deep_view().len() == names.len());
            assert(out.deep_view() =~= copies(others(ms.take(0), nick@), msg@));
        }
        while i < names.len()
            invariant
                i <= names.len(),
                names.len() == ms.len(),
                names.deep_view() == names_of(ms),
                out.deep_view() == copies(others(ms.take(i as int), nick@), msg@),
            decreases names.len() - i,
        {
            proof {
                lemma_others_step(ms, nick@, i as int);
                assert(names.deep_view()[i as int] == ms[i as int].name);
                assert(names.deep_view()[i as int] == names[i as int]@);
            }
            let ghost before = out.deep_view();
            if names[i] != nick {
                out.push(Delivery { nick: names[i].clone(), msg: msg.clone() });
                let ghost entry = DeliveryView { nick: ms[i as int].name, msg: msg@ };
                assert(out.deep_view() =~= before.push(entry));
                assert(before.push(entry) =~= copies(others(ms.take(i + 1), nick@), msg@));
            }
            i += 1;
        }
        proof {
            assert(ms.take(i as int) =~= ms);
        }
        out
    }

    /// Takes the member called `nick` out and returns its writer.
    pub fn remove(&mut self, nick: String) -> (r: Option<W>)
        requires
            old(self).wf(),
        ensures
            final(self).wf(),
            final(self)@ == (RoomView {
                clients: without(old(self)@.clients, nick@),
                ..old(self)@
            }),
            r == if includes(old(self)@.clients, nick@) {
                Some(old(self)@.clients[position(old(self)@.clients, nick@)].sender)
            } else {
                None
            },
    {
        proof {
            lemma_without(self@.clients, nick@);
        }
        self.clients.remove(&nick)
    }

    /// The members' nicknames, in the order in which they came.
    pub fn nicks(&self) -> (r: Vec<String>)
        ensures
            r.deep_view() == names_of(self@.clients),
    {
        self.clients.names()
    }
}

/// The place of the first room called `name`, or the number of rooms if
/// there is none.
pub open spec fn first_named<W>(rooms: Seq<RoomView<W>>, name: Seq<char>) -> int
    decreases rooms.len(),
{
    if rooms.len() == 0 || rooms[0].name == name {
        0
    } else {
        1 + first_named(rooms.drop_first(), name)
    }
}

/// `first_named` is the first place that holds a room of that name.
pub proof fn lemma_first_named<W>(rooms: Seq<RoomView<W>>, name: Seq<char>)
    ensures
        0 <= first_named(rooms, name) <= rooms.len(),
        first_named(rooms, name) < rooms.len() ==> rooms[first_named(rooms, name)].name == name,
        forall|i: int| 0 <= i < first_named(rooms, name) ==> (#[trigger] rooms[i]).name != name,
    decreases rooms.len(),
{
    if rooms.len() > 0 && rooms[0].name != name {
        let rest = rooms.drop_first();
        lemma_first_named(rest, name);
        let p = first_named(rest, name);
        assert forall|i: int| 0 <= i < p + 1 implies (#[trigger] rooms[i]).name != name by {
            if i > 0 {
                assert(rooms[i] == rest[i - 1]);
            }
        }
        if p < rest.len() {
            assert(rooms[p + 1] == rest[p]);
        }
    }
}

/// The place that has no room called `name` before it, and holds one or is
/// the end, is `first_named`.
pub proof fn lemma_first_named_is<W>(rooms: Seq<RoomView<W>>, name: Seq<char>, k: int)
    requires
        0 <= k <= rooms.len(),
        forall|i: int| 0 <= i < k ==> (#[trigger] rooms[i]).name != name,
        k < rooms.len() ==> rooms[k].name == name,
    ensures
        first_named(rooms, name) == k,
{
    lemma_first_named(rooms, name);
}

/// Whether the rooms let `nick` into the first room called `name`.
pub open spec fn lets_in<W>(rooms: Seq<RoomView<W>>, name: Seq<char>, nick: Seq<char>) -> bool {
    let i = first_named(rooms, name);
    i < rooms.len() && rooms[i].admits(nick)
}

/// The rooms after `nick` asked for the first room called `name`.
pub open spec fn joined<W>(rooms: Seq<RoomView<W>>, name: Seq<char>, nick: Seq<char>, writer: W)
    -> Seq<RoomView<W>> {
    let i = first_named(rooms, name);
    if lets_in(rooms, name, nick) {
        rooms.update(i, rooms[i].insert(nick, writer))
    } else {
        rooms
    }
}

/// The nicknames of `nicks`, joined by a comma and a space.
pub fn list(nicks: &Vec<String>) -> (r: String)
    ensures
        r@ == listed(nicks.deep_view()),
{
    let ghost all = nicks.deep_view();
    let mut r: String = String::new();
    let mut i: usize = 0;
    proof {
        assert(all.take(0) =~= Seq::empty());
    }
    while i < nicks.len()
        invariant
            i <= nicks.len(),
            all == nicks.deep_view(),
            r@ == listed(all.take(i as int)),
        decreases nicks.len() - i,
    {
        proof {
            let now = all.take(i + 1);
            assert(now.drop_last() =~= all.take(i as int));
            assert(now.last() == nicks[i as int]@);
        }
        if i > 0 {
            r.append(", ");
        }
        r.append(nicks[i].as_str());
        proof {
            assert(r@ =~= listed(all.take(i + 1)));
        }
        i += 1;
    }
    proof {
        assert(all.take(i as int) =~= all);
    }
    r
}

/// Rooms in the order in which they were added.
#[derive(Debug)]
pub struct Channels<W> {
    channels: Vec<Channel<W>>,
}

impl<W> View for Channels<W> {
    type V = Seq<RoomView<W>>;

    closed spec fn view(&self) -> Seq<RoomView<W>> {
        Seq::new(self.channels.len() as nat, |i: int| self.channels[i]@)
    }
}

impl<W> Channels<W> {
    /// What every list of rooms keeps: each room is well formed.
    pub open spec fn wf(&self) -> bool {
        forall|i: int| 0 <= i < self@.len() ==> (#[trigger] self@[i]).wf()
    }

    /// No rooms.
    pub fn new() -> (r: Channels<W>)
        ensures
            r.wf(),
            r@ == Seq::<RoomView<W>>::empty(),
    {
        let r = Channels { channels: Vec::new() };
        assert(r@ =~= Seq::empty());
        r
    }

    /// Adds an empty room called `name` that takes `size` members. A name
    /// may be given to several rooms; the first one answers to it.
    pub fn insert(&mut self, name: String, size: usize)
        requires
            old(self).wf(),
        ensures
            final(self).wf(),
            final(self)@ == old(self)@.push(
                RoomView {
                    name: name@,
                    topic: Seq::<char>::empty(),
                    capacity: size,
                    clients: Seq::<EntryView<W>>::empty(),
                },
            ),
    {
        let room = Channel::new(name, size);
        self.channels.push(room);
        assert(self@ =~= old(self)@.push(room@));
        assert forall|i: int| 0 <= i < self@.len() implies (#[trigger] self@[i]).wf() by {
            if i < old(self)@.len() {
                assert(self@[i] == old(self)@[i]);
            }
        }
    }

    /// Lets `nick` with `stream` into the first room called `name` and
    /// returns the nicknames of its members then, joined by a comma and a
    /// space. Where no room is called so, or the room does not let `nick`
    /// in, nothing changes and nothing is returned.
    pub fn join(&mut self, name: String, nick: String, stream: W) -> (r: Option<String>)
        requires
            old(self).wf(),
        ensures
            final(self).wf(),
            final(self)@ == joined(old(self)@, name@, nick@, stream),
            r is Some <==> lets_in(old(self)@, name@, nick@),
            r matches Some(nicks) ==> nicks@ == listed(
                names_of(final(self)@[first_named(old(self)@, name@)].clients),
            ),
    {
        let mut i: usize = 0;
        while i < self.channels.len() && self.channels[i].name != name
            invariant
                i <= self.channels.len(),
                self@ == old(self)@,
                forall|k: int| 0 <= k < i ==> (#[trigger] self@[k]).name != name@,
            decreases self.channels.len() - i,
        {
            assert(self@[i as int] == self.channels[i as int]@);
            i += 1;
        }
        proof {
            if i < self.channels.len() {
                assert(self@[i as int] == self.channels[i as int]@);
            }
            lemma_first_named_is(self@, name@, i as int);
        }
        if i == self.channels.len() {
            return None;
        }
        let mut room = self.channels.remove(i);
        assert(room@ == old(self)@[i as int]);
        let done = room.insert(nick, stream);
        let nicks = room.nicks();
        self.channels.insert(i, room);
        proof {
            assert(self@ =~= old(self)@.update(i as int, room@));
            assert forall|k: int| 0 <= k < self@.len() implies (#[trigger] self@[k]).wf() by {
                if k != i {
                    assert(self@[k] == old(self)@[k]);
                }
            }
        }
        match done {
            Ok(_) => Some(list(&nicks)),
            Err(_) => None,
        }
    }
}

} // verus!
